use raytracer::math::{Ray, Vec3, COORD_LIMIT};
use raytracer::rendering::{blue, red, Color, Material};
use raytracer::scene::{Entity, Primitive, Scene, Sphere, Transform};
use raytracer::camera::Camera;

fn ball(center: Vec3, radius: i128, color: Color) -> Entity {
    let sphere = Sphere::new(radius).unwrap();
    Entity::new(
        Transform::default().with_position(center),
        Material::from_diffuse(color),
        Primitive::Sphere(sphere),
    )
    .unwrap()
}

#[test]
fn axis_ray_hits_at_distance_with_unit_normal() {
    let center = Vec3::new(10, -4, 7);
    let (r, d) = (5, 3);
    let sphere = Sphere::new(r).unwrap();
    let ray = Ray::new(Vec3::new(10 + r + d, -4, 7), Vec3::new(-1, 0, 0));
    let t = Transform::default().with_position(center);
    let hit = sphere.hit(&ray, &t, Material::from_diffuse(red())).unwrap();
    assert_eq!(1, hit.denom);
    assert_eq!(d, hit.distance);
    assert_eq!(Vec3::new(15, -4, 7), hit.position());
    // the normal is normal / normal_denom = (1, 0, 0)
    assert_eq!(Vec3::new(hit.normal_denom, 0, 0), hit.normal());
    assert_eq!(red(), hit.material().diffuse_color());
}

#[test]
fn ray_passing_beside_the_sphere_misses() {
    let sphere = Sphere::new(5).unwrap();
    let t = Transform::default();
    let ray = Ray::new(Vec3::new(-20, 6, 0), Vec3::new(1, 0, 0));
    assert!(sphere.hit(&ray, &t, Material::from_diffuse(red())).is_none());
}

#[test]
fn ray_pointing_away_misses() {
    let sphere = Sphere::new(5).unwrap();
    let t = Transform::default();
    let ray = Ray::new(Vec3::new(20, 0, 0), Vec3::new(1, 0, 0));
    assert!(sphere.hit(&ray, &t, Material::from_diffuse(red())).is_none());
}

#[test]
fn ray_from_inside_hits_the_far_side() {
    let sphere = Sphere::new(5).unwrap();
    let t = Transform::default();
    let ray = Ray::new(Vec3::new(1, 0, 0), Vec3::new(1, 0, 0));
    let hit = sphere.hit(&ray, &t, Material::from_diffuse(red())).unwrap();
    assert_eq!(1, hit.denom);
    assert_eq!(4, hit.distance);
    assert_eq!(Vec3::new(5, 0, 0), hit.position());
}

#[test]
fn ray_from_just_inside_hits_outward_at_positive_distance() {
    let sphere = Sphere::new(100).unwrap();
    let t = Transform::default();
    let ray = Ray::new(Vec3::new(99, 14, 0), Vec3::new(1, 0, 0));
    let hit = sphere.hit(&ray, &t, Material::from_diffuse(red())).unwrap();
    assert_eq!(1, hit.denom);
    assert_eq!(1, hit.distance);
    assert_eq!(Vec3::new(100, 14, 0), hit.position());
    let n = hit.normal();
    assert!(n.x * n.x + n.y * n.y + n.z * n.z >= hit.normal_denom * hit.normal_denom);
}

#[test]
fn zero_direction_reports_no_hit() {
    let sphere = Sphere::new(5).unwrap();
    let t = Transform::default();
    let ray = Ray::new(Vec3::new(1, 0, 0), Vec3::new(0, 0, 0));
    assert!(sphere.hit(&ray, &t, Material::from_diffuse(red())).is_none());
}

#[test]
fn sphere_radius_must_be_positive_and_in_range() {
    assert!(Sphere::new(0).is_none());
    assert!(Sphere::new(-3).is_none());
    assert!(Sphere::new(COORD_LIMIT + 1).is_none());
    assert_eq!(7, Sphere::new(7).unwrap().radius);
}

#[test]
fn entity_position_must_be_in_range() {
    let s = Primitive::Sphere(Sphere::new(1).unwrap());
    let far = Transform::default().with_position(Vec3::new(0, COORD_LIMIT + 1, 0));
    assert!(Entity::new(far, Material::from_diffuse(red()), s).is_none());
}

#[test]
fn nearer_sphere_wins_in_either_order() {
    let near = ball(Vec3::new(0, 0, -20), 2, red());
    let far = ball(Vec3::new(0, 0, -50), 2, blue());
    let ray = Ray::new(Vec3::new(0, 0, 0), Vec3::new(0, 0, -1));
    let a = Scene::from_parts(vec![near, far], Camera::new());
    let b = Scene::from_parts(vec![far, near], Camera::new());
    assert_eq!(red(), a.hit(&ray).unwrap().material().diffuse_color());
    assert_eq!(red(), b.hit(&ray).unwrap().material().diffuse_color());
    assert_eq!(18, a.hit(&ray).unwrap().distance);
}

#[test]
fn exact_tie_goes_to_the_first_inserted() {
    let first = ball(Vec3::new(0, 0, -20), 2, red());
    let second = ball(Vec3::new(0, 0, -20), 2, blue());
    let ray = Ray::new(Vec3::new(0, 0, 0), Vec3::new(0, 0, -1));
    let a = Scene::from_parts(vec![first, second], Camera::new());
    let b = Scene::from_parts(vec![second, first], Camera::new());
    assert_eq!(red(), a.hit(&ray).unwrap().material().diffuse_color());
    assert_eq!(blue(), b.hit(&ray).unwrap().material().diffuse_color());
}

#[test]
fn empty_scene_reports_nothing() {
    let s = Scene::from_parts(vec![], Camera::new());
    let ray = Ray::new(Vec3::new(0, 0, 0), Vec3::new(0, 0, -1));
    assert!(s.hit(&ray).is_none());
}
