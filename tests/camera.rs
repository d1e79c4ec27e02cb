use raytracer::camera::{Camera, SubPixel, UV_ONE};
use raytracer::framebuffer::{FrameBuffer, RenderTarget};
use raytracer::math::Vec3;
use raytracer::rendering::{black, dark_gray, red, Color, Material, Pixel, PixelSize, RenderOpts, Sampling};
use raytracer::scene::{Entity, Primitive, Scene, Sphere, Transform};

fn small_ball_scene() -> Scene {
    let sphere = Sphere::new(30).unwrap();
    let e = Entity::new(
        Transform::default().with_position(Vec3::new(0, 0, -900)),
        Material::from_diffuse(red()),
        Primitive::Sphere(sphere),
    )
    .unwrap();
    Scene::from_parts(vec![e], Camera::new().with_clear_color(black()))
}

#[test]
fn uv_corners() {
    let cam = Camera::new();
    let size = PixelSize::new(7, 5);
    assert_eq!((0, UV_ONE), cam.uv(SubPixel::from_pixel(Pixel::new(0, 0)), size));
    assert_eq!((UV_ONE, 0), cam.uv(SubPixel::from_pixel(Pixel::new(6, 4)), size));
    assert_eq!((UV_ONE / 2, UV_ONE / 2), cam.uv(SubPixel::from_pixel(Pixel::new(3, 2)), size));
}

#[test]
fn uv_of_offset_subpixel_rounds_down() {
    let cam = Camera::new();
    let size = PixelSize::new(3, 3);
    // x = -1/8 pixel of 2: u = -1/16, rounded down in units of 1/4096
    assert_eq!((-256, UV_ONE + 256), cam.uv(SubPixel::new(-1, -1), size));
}

#[test]
fn central_primary_ray_looks_down_minus_z() {
    let cam = Camera::new();
    let ray = cam.pixel_to_ray(UV_ONE / 2, UV_ONE / 2);
    assert_eq!(Vec3::new(0, 0, 0), ray.origin());
    assert_eq!(Vec3::new(0, 0, -90 * 2 * UV_ONE), ray.direction());
    let corner = cam.pixel_to_ray(0, UV_ONE);
    assert_eq!(Vec3::new(-160 * UV_ONE, 90 * UV_ONE, -90 * 2 * UV_ONE), corner.direction());
}

#[test]
fn end_to_end_small_sphere() {
    let scene = small_ball_scene();
    for s in [Sampling::Disabled, Sampling::Samples4, Sampling::Samples16] {
        let mut fb = FrameBuffer::new(33, 19);
        let opts = RenderOpts::new().with_samples(s);
        assert_eq!(Ok(()), scene.render(&mut fb, &opts, &|_, _| {}));
        assert_eq!(red(), fb.get(16, 9));
        assert_eq!(black(), fb.get(0, 0));
        assert_eq!(black(), fb.get(32, 0));
        assert_eq!(black(), fb.get(0, 18));
        assert_eq!(black(), fb.get(32, 18));
    }
}

#[test]
fn render_row_touches_one_row() {
    let scene = small_ball_scene();
    let mut fb = FrameBuffer::new(33, 19);
    fb.clear(dark_gray());
    scene.render_row(9, &mut fb, &RenderOpts::new());
    assert_eq!(red(), fb.get(16, 9));
    assert_eq!(black(), fb.get(0, 9));
    assert_eq!(dark_gray(), fb.get(16, 8));
    assert_eq!(dark_gray(), fb.get(16, 10));
}

#[test]
fn camera_settings() {
    let cam = Camera::new();
    assert_eq!(910, cam.width_for_height(512));
    assert!(cam.with_viewport(0, 10, 10).is_none());
    assert!(cam.with_viewport(10, 10, 3000).is_none());
    let c = cam.with_viewport(20, 10, 5).unwrap();
    assert_eq!((20, 10, 5), (c.width, c.height, c.focal_length));
    assert!(cam.with_position(Vec3::new(0, 0, i128::MAX)).is_none());
    let moved = cam.with_position(Vec3::new(1, 2, 3)).unwrap();
    assert_eq!(Vec3::new(1, 2, 3), moved.transform().position());
}

#[test]
fn demo_scene_renders() {
    let scene = Scene::new();
    let w = scene.camera().width_for_height(18);
    assert_eq!(32, w);
    let mut fb = FrameBuffer::new(w, 18);
    assert_eq!(Ok(()), scene.render(&mut fb, &RenderOpts::new(), &|_, _| {}));
    // the top corners look past every sphere at the background
    assert_eq!(dark_gray(), fb.get(0, 0));
    assert_eq!(dark_gray(), fb.get(31, 0));
}

#[test]
fn demo_scene_ray_from_camera_hits_blue_sphere_first() {
    let scene = Scene::new();
    let ray = raytracer::math::Ray::new(Vec3::new(0, 90, 360), Vec3::new(0, 0, -1));
    let hit = scene.hit(&ray).unwrap();
    assert_eq!(Color::new(0, 0, 255), hit.material().diffuse_color());
    assert_eq!(1, hit.denom);
    assert_eq!(225, hit.distance);
    assert_eq!(Vec3::new(0, 90, 135), hit.position());
}

#[test]
fn progress_is_reported_once_per_row_up_to_the_total() {
    let scene = small_ball_scene();
    let mut fb = FrameBuffer::new(6, 4);
    let calls = std::cell::RefCell::new(Vec::new());
    let r = scene.render(&mut fb, &RenderOpts::new(), &|done, total| calls.borrow_mut().push((done, total)));
    assert_eq!(Ok(()), r);
    assert_eq!(vec![(1, 4), (2, 4), (3, 4), (4, 4)], calls.into_inner());
}
