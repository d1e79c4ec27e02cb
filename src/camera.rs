use vstd::prelude::*;
use vstd::arithmetic::div_mod::{lemma_fundamental_div_mod, lemma_hoist_over_denominator, lemma_mod_bound};
use crate::framebuffer::{lemma_pixel_index, RenderTarget};
use crate::math::{bounded, Ray, Vec3, COORD_LIMIT};
use crate::rendering::{accumulate, black, mean_color, Color, HdrColor, Pixel, PixelSize, RenderOpts, Sampling};
use crate::scene::{all_wf, nearest_hit, scene_hit, Entity, Scene, Transform};

verus! {

/// Fixed-point one for the `(u, v)` coordinates of the image plane.
pub const UV_ONE: i128 = 4096;

/// The largest viewport width, viewport height and focal length, in grid
/// units; it keeps each primary ray's direction within [COORD_LIMIT].
pub const VIEW_LIMIT: i128 = 2048;

/// A point inside the pixel grid, in eighths of a pixel; `(8x, 8y)` is the
/// centre of pixel `(x, y)`.
#[derive(Clone, Copy, Debug, PartialEq, Eq, Structural)]
pub struct SubPixel {
    pub x: i64,
    pub y: i64,
}

impl SubPixel {
    pub fn new(x: i64, y: i64) -> (s: SubPixel)
        ensures
            s == (SubPixel { x, y }),
    {
        SubPixel { x, y }
    }

    /// The centre of pixel `p`.
    pub fn from_pixel(p: Pixel) -> (s: SubPixel)
        ensures
            s.x == 8 * p.x,
            s.y == 8 * p.y,
    {
        SubPixel { x: 8 * p.x as i64, y: 8 * p.y as i64 }
    }

    /// This point moved by `(dx, dy)` eighths of a pixel.
    pub fn with_offset(self, dx: i64, dy: i64) -> (s: SubPixel)
        requires
            -8 <= dx <= 8,
            -8 <= dy <= 8,
            0 <= self.x <= 0x8_0000_0000,
            0 <= self.y <= 0x8_0000_0000,
        ensures
            s.x == self.x + dx,
            s.y == self.y + dy,
    {
        SubPixel { x: self.x + dx, y: self.y + dy }
    }
}

/// The sub-sample offsets of one pixel, in eighths of a pixel.
pub open spec fn sample_offsets(s: Sampling) -> Seq<(i64, i64)> {
    match s {
        Sampling::Disabled => seq![(0i64, 0i64)],
        Sampling::Samples4 => seq![(2i64, 2i64), (-2i64, 2i64), (2i64, -2i64), (-2i64, -2i64)],
        Sampling::Samples16 => seq![
            (-3i64, 3i64), (-1i64, 3i64), (1i64, 3i64), (3i64, 3i64),
            (-3i64, 1i64), (-1i64, 1i64), (1i64, 1i64), (3i64, 1i64),
            (-3i64, -1i64), (-1i64, -1i64), (1i64, -1i64), (3i64, -1i64),
            (-3i64, -3i64), (-1i64, -3i64), (1i64, -3i64), (3i64, -3i64),
        ],
    }
}

fn offsets(s: Sampling) -> (r: Vec<(i64, i64)>)
    ensures
        r@ == sample_offsets(s),
{
    let r = match s {
        Sampling::Disabled => vec![(0i64, 0i64)],
        Sampling::Samples4 => vec![(2i64, 2i64), (-2i64, 2i64), (2i64, -2i64), (-2i64, -2i64)],
        Sampling::Samples16 => vec![
            (-3i64, 3i64), (-1i64, 3i64), (1i64, 3i64), (3i64, 3i64),
            (-3i64, 1i64), (-1i64, 1i64), (1i64, 1i64), (3i64, 1i64),
            (-3i64, -1i64), (-1i64, -1i64), (1i64, -1i64), (3i64, -1i64),
            (-3i64, -3i64), (-1i64, -3i64), (1i64, -3i64), (3i64, -3i64),
        ],
    };
    assert(r@ =~= sample_offsets(s));
    r
}

/// The image-plane coordinates of sub-pixel `(sx, sy)` of a `w * h`
/// target, in units of `1 / UV_ONE`: `u = x / (w - 1)` and
/// `v = 1 - y / (h - 1)`, rounded down, where `x = sx / 8` and `y = sy / 8`.
pub open spec fn uv(sx: int, sy: int, w: int, h: int) -> (int, int) {
    ((sx * UV_ONE) / (8 * (w - 1)), UV_ONE - (sy * UV_ONE) / (8 * (h - 1)))
}

/// The top-left pixel centre maps to `(0, 1)` and the bottom-right one to
/// `(1, 0)`.
pub proof fn lemma_uv_corners(w: int, h: int)
    requires
        2 <= w,
        2 <= h,
    ensures
        uv(0, 0, w, h) == (0int, UV_ONE as int),
        uv(8 * (w - 1), 8 * (h - 1), w, h) == (UV_ONE as int, 0int),
{
    assert((8 * (w - 1)) * UV_ONE / (8 * (w - 1)) == UV_ONE) by (nonlinear_arith)
        requires w >= 2;
    assert((8 * (h - 1)) * UV_ONE / (8 * (h - 1)) == UV_ONE) by (nonlinear_arith)
        requires h >= 2;
}

/// Rounded-down `s * UV_ONE / d` for a point at most half a pixel outside
/// the grid lies in `[-UV_ONE / 2, 3 * UV_ONE / 2]`.
proof fn lemma_uv_range(s: int, d: int)
    requires
        8 <= d,
        -4 <= s <= d + 4,
    ensures
        -2048 <= (s * UV_ONE) / d <= 6144,
{
    let x = s * UV_ONE;
    lemma_fundamental_div_mod(x, d);
    lemma_mod_bound(x, d);
    let q = x / d;
    let r = x % d;
    assert(q <= 6144) by (nonlinear_arith)
        requires d * q + r == x, 0 <= r, x == s * 4096, s <= d + 4, 8 <= d;
    assert(q >= -2048) by (nonlinear_arith)
        requires d * q + r == x, r < d, x == s * 4096, -4 <= s, 8 <= d;
}

/// The camera: a position, a background colour, and a viewport of
/// `width * height` grid units at `focal_length` in front of it (towards -z).
#[derive(Clone, Copy, Debug, PartialEq, Eq, Structural)]
pub struct Camera {
    pub transform: Transform,
    pub clear_color: Color,
    pub focal_length: i128,
    pub width: i128,
    pub height: i128,
}

/// The primary ray through image-plane point `(u, v)` (in units of
/// `1 / UV_ONE`): from the camera position towards
/// `lower_left + horizontal * u + vertical * v`, its direction scaled by
/// `2 * UV_ONE` so that it stays integral.
pub open spec fn primary_ray(cam: Camera, u: int, v: int) -> Ray {
    Ray {
        origin: cam.transform.position,
        direction: Vec3 {
            x: (cam.width * (2 * u - UV_ONE)) as i128,
            y: (cam.height * (2 * v - UV_ONE)) as i128,
            z: (-2 * cam.focal_length * UV_ONE) as i128,
        },
    }
}

/// The colour seen along `ray`: the nearest surface's, else the background.
pub open spec fn trace(cam: Camera, es: Seq<Entity>, ray: Ray) -> Color {
    match scene_hit(es, ray) {
        Some(h) => h.material.diffuse,
        None => cam.clear_color,
    }
}

/// The colour of sub-pixel `(sx, sy)` of a `w * h` target.
pub open spec fn sample_color(cam: Camera, es: Seq<Entity>, sx: int, sy: int, w: int, h: int) -> Color {
    let (u, v) = uv(sx, sy, w, h);
    trace(cam, es, primary_ray(cam, u, v))
}

/// The colours of the sub-samples of pixel `(x, y)`, in order.
pub open spec fn pixel_samples(cam: Camera, es: Seq<Entity>, s: Sampling, x: int, y: int, w: int, h: int) -> Seq<Color> {
    let offs = sample_offsets(s);
    Seq::new(offs.len(), |i: int| sample_color(cam, es, 8 * x + offs[i].0, 8 * y + offs[i].1, w, h))
}

/// The colour of pixel `(x, y)`: the mean of its sub-samples.
pub open spec fn pixel_color(cam: Camera, es: Seq<Entity>, s: Sampling, x: int, y: int, w: int, h: int) -> Color {
    mean_color(accumulate(pixel_samples(cam, es, s, x, y, w, h)))
}

/// Why a render did not start.
#[derive(Clone, Copy, Debug, PartialEq, Eq, Structural)]
pub enum RenderError {
    /// The target is less than two pixels wide or high.
    DegenerateTarget,
}

impl Camera {
    pub open spec fn wf(&self) -> bool {
        &&& 0 < self.width <= VIEW_LIMIT
        &&& 0 < self.height <= VIEW_LIMIT
        &&& 0 < self.focal_length <= VIEW_LIMIT
        &&& bounded(self.transform.position, COORD_LIMIT as int)
    }

    /// A camera at the origin with a black background and a 16:9 viewport
    /// of 160 * 90 grid units at focal length 90.
    pub fn new() -> (c: Camera)
        ensures
            c.wf(),
            c.transform.position == (Vec3 { x: 0, y: 0, z: 0 }),
            c.clear_color == (Color { r: 0, g: 0, b: 0 }),
            c.width == 160 && c.height == 90 && c.focal_length == 90,
    {
        Camera {
            transform: Transform::default(),
            clear_color: black(),
            focal_length: 90,
            width: 160,
            height: 90,
        }
    }

    /// Sets the background colour.
    pub fn with_clear_color(self, color: Color) -> (c: Camera)
        ensures
            c == (Camera { clear_color: color, ..self }),
    {
        let mut new = self;
        new.clear_color = color;
        new
    }

    /// Moves the camera; `None` when `pos` lies beyond [COORD_LIMIT].
    pub fn with_position(self, pos: Vec3) -> (c: Option<Camera>)
        ensures
            c is Some <==> bounded(pos, COORD_LIMIT as int),
            c matches Some(cam) ==> cam == (Camera { transform: Transform { position: pos }, ..self }),
    {
        if -COORD_LIMIT <= pos.x && pos.x <= COORD_LIMIT && -COORD_LIMIT <= pos.y && pos.y <= COORD_LIMIT
            && -COORD_LIMIT <= pos.z && pos.z <= COORD_LIMIT {
            Some(Camera { transform: Transform { position: pos }, ..self })
        } else {
            None
        }
    }

    /// Sets the viewport size and focal length; `None` unless each lies in
    /// `1..=VIEW_LIMIT`.
    pub fn with_viewport(self, width: i128, height: i128, focal_length: i128) -> (c: Option<Camera>)
        ensures
            c is Some <==> (0 < width <= VIEW_LIMIT && 0 < height <= VIEW_LIMIT && 0 < focal_length <= VIEW_LIMIT),
            c matches Some(cam) ==> cam == (Camera { width, height, focal_length, ..self }),
    {
        if 0 < width && width <= VIEW_LIMIT && 0 < height && height <= VIEW_LIMIT && 0 < focal_length
            && focal_length <= VIEW_LIMIT {
            Some(Camera { width, height, focal_length, ..self })
        } else {
            None
        }
    }

    pub fn transform(&self) -> (t: Transform)
        ensures
            t == self.transform,
    {
        self.transform
    }

    /// The pixel width of a target `pixel_height` pixels high that keeps the
    /// viewport's aspect ratio (rounded down, and at most `u32::MAX`).
    pub fn width_for_height(&self, pixel_height: u32) -> (w: u32)
        requires
            self.wf(),
        ensures
            w == if (self.width * pixel_height) / (self.height as int) > u32::MAX {
                u32::MAX as int
            } else {
                (self.width * pixel_height) / (self.height as int)
            },
    {
        proof {
            assert(self.width * pixel_height <= 2048 * 0xffff_ffff) by (nonlinear_arith)
                requires 0 < self.width <= 2048, pixel_height <= 0xffff_ffff;
            assert((self.width * pixel_height) / (self.height as int) <= 2048 * 0xffff_ffff) by (nonlinear_arith)
                requires self.width * pixel_height <= 2048 * 0xffff_ffff, 0 < self.height, 0 <= self.width * pixel_height;
        }
        let w = self.width * pixel_height as i128 / self.height;
        if w > u32::MAX as i128 {
            u32::MAX
        } else {
            w as u32
        }
    }

    /// The image-plane coordinates of a sub-pixel at most half a pixel
    /// outside the grid of a target at least two pixels wide and high.
    pub fn uv(&self, p: SubPixel, size: PixelSize) -> (r: (i128, i128))
        requires
            2 <= size.width,
            2 <= size.height,
            -4 <= p.x <= 8 * (size.width - 1) + 4,
            -4 <= p.y <= 8 * (size.height - 1) + 4,
        ensures
            r == (uv(p.x as int, p.y as int, size.width as int, size.height as int).0 as i128,
                  uv(p.x as int, p.y as int, size.width as int, size.height as int).1 as i128),
            -2048 <= uv(p.x as int, p.y as int, size.width as int, size.height as int).0 <= 6144,
            -2048 <= uv(p.x as int, p.y as int, size.width as int, size.height as int).1 <= 6144,
            -2048 <= r.0 <= 6144,
            -2048 <= r.1 <= 6144,
    {
        let dw: i128 = 8 * (size.width as i128 - 1);
        let dh: i128 = 8 * (size.height as i128 - 1);
        proof {
            lemma_hoist_over_denominator(p.x * UV_ONE, UV_ONE as int, dw as nat);
            lemma_hoist_over_denominator(p.y * UV_ONE, UV_ONE as int, dh as nat);
            lemma_uv_range(p.x as int, dw as int);
            lemma_uv_range(p.y as int, dh as int);
            assert((p.x + dw) * UV_ONE == p.x * UV_ONE + UV_ONE * dw) by (nonlinear_arith);
            assert((p.y + dh) * UV_ONE == p.y * UV_ONE + UV_ONE * dh) by (nonlinear_arith);
        }
        let u = ((p.x as i128 + dw) * UV_ONE) / dw - UV_ONE;
        let v = UV_ONE - (((p.y as i128 + dh) * UV_ONE) / dh - UV_ONE);
        (u, v)
    }

    /// The primary ray through image-plane point `(u, v)`.
    pub fn pixel_to_ray(&self, u: i128, v: i128) -> (r: Ray)
        requires
            self.wf(),
            -2048 <= u <= 6144,
            -2048 <= v <= 6144,
        ensures
            r == primary_ray(*self, u as int, v as int),
            r.wf(),
            r.direction.z < 0,
    {
        proof {
            assert(-8192 * 2048 <= self.width * (2 * u - UV_ONE) <= 2048 * 8192) by (nonlinear_arith)
                requires 0 < self.width <= 2048, -8192 <= 2 * u - 4096 <= 8192;
            assert(-8192 * 2048 <= self.height * (2 * v - UV_ONE) <= 2048 * 8192) by (nonlinear_arith)
                requires 0 < self.height <= 2048, -8192 <= 2 * v - 4096 <= 8192;
            assert(0 < 2 * self.focal_length * UV_ONE <= 2 * 2048 * 4096) by (nonlinear_arith)
                requires 0 < self.focal_length <= 2048;
        }
        let depth: i128 = self.focal_length * (2 * UV_ONE);
        let direction = Vec3::new(
            self.width * (2 * u - UV_ONE),
            self.height * (2 * v - UV_ONE),
            -depth,
        );
        Ray::new(self.transform.position, direction)
    }

    /// The colour seen along `ray` in `scene`.
    pub fn raytrace(&self, scene: &Scene, ray: &Ray) -> (c: Color)
        requires
            all_wf(scene.entities@),
            ray.wf(),
        ensures
            c == trace(*self, scene.entities@, *ray),
    {
        match nearest_hit(&scene.entities, ray) {
            Some(hit) => hit.material.diffuse_color(),
            None => self.clear_color,
        }
    }

    /// Traces sub-pixel `p` and adds its colour to `hdr`.
    fn sample(&self, p: SubPixel, scene: &Scene, size: PixelSize, hdr: &mut HdrColor)
        requires
            self.wf(),
            all_wf(scene.entities@),
            2 <= size.width,
            2 <= size.height,
            -4 <= p.x <= 8 * (size.width - 1) + 4,
            -4 <= p.y <= 8 * (size.height - 1) + 4,
            old(hdr).wf(),
            old(hdr).samples < u32::MAX,
        ensures
            *final(hdr) == crate::rendering::plus(
                *old(hdr),
                sample_color(*self, scene.entities@, p.x as int, p.y as int, size.width as int, size.height as int),
            ),
            final(hdr).wf(),
    {
        let (u, v) = self.uv(p, size);
        let ray = self.pixel_to_ray(u, v);
        let c = self.raytrace(scene, &ray);
        hdr.add_color(c);
    }

    /// The colour of one pixel: the mean of its sub-samples.
    pub fn render_pixel(&self, pixel: Pixel, scene: &Scene, size: PixelSize, opts: &RenderOpts) -> (c: Color)
        requires
            self.wf(),
            all_wf(scene.entities@),
            2 <= size.width,
            2 <= size.height,
            pixel.x < size.width,
            pixel.y < size.height,
        ensures
            c == pixel_color(*self, scene.entities@, opts.samples, pixel.x as int, pixel.y as int,
                size.width as int, size.height as int),
    {
        let offs = offsets(opts.samples);
        let center = SubPixel::from_pixel(pixel);
        let mut hdr = HdrColor::new();
        let ghost samples = pixel_samples(*self, scene.entities@, opts.samples, pixel.x as int,
            pixel.y as int, size.width as int, size.height as int);
        let mut i: usize = 0;
        while i < offs.len()
            invariant
                self.wf(),
                all_wf(scene.entities@),
                2 <= size.width,
                2 <= size.height,
                pixel.x < size.width,
                pixel.y < size.height,
                center.x == 8 * pixel.x,
                center.y == 8 * pixel.y,
                offs@ == sample_offsets(opts.samples),
                samples == pixel_samples(*self, scene.entities@, opts.samples, pixel.x as int,
                    pixel.y as int, size.width as int, size.height as int),
                i <= offs@.len(),
                hdr == accumulate(samples.take(i as int)),
                hdr.wf(),
                hdr.samples == i,
            decreases offs@.len() - i,
        {
            let (dx, dy) = offs[i];
            assert(-3 <= dx <= 3 && -3 <= dy <= 3);
            let p = center.with_offset(dx, dy);
            self.sample(p, scene, size, &mut hdr);
            assert(samples.take(i + 1).drop_last() =~= samples.take(i as int));
            i = i + 1;
        }
        assert(samples.take(offs@.len() as int) =~= samples);
        hdr.to_color()
    }

    /// Renders row `row` of `target`; the other rows are left as they are.
    pub fn render_row<T: RenderTarget>(&self, row: u32, scene: &Scene, target: &mut T, opts: &RenderOpts)
        requires
            self.wf(),
            all_wf(scene.entities@),
            old(target).target_wf(),
            2 <= old(target).target_width(),
            2 <= old(target).target_height(),
            row < old(target).target_height(),
        ensures
            final(target).target_wf(),
            final(target).target_width() == old(target).target_width(),
            final(target).target_height() == old(target).target_height(),
            forall|x: int| 0 <= x < old(target).target_width() ==>
                #[trigger] final(target).target_view()[x + row * old(target).target_width()] == pixel_color(*self,
                    scene.entities@, opts.samples, x, row as int, old(target).target_width(),
                    old(target).target_height()),
            forall|i: int| 0 <= i < old(target).target_view().len() && (i < row * old(target).target_width()
                || i >= row * old(target).target_width() + old(target).target_width()) ==>
                #[trigger] final(target).target_view()[i] == old(target).target_view()[i],
    {
        let w = target.width();
        let h = target.height();
        let size = PixelSize::new(w, h);
        proof {
            target.lemma_target_len();
            lemma_pixel_index(0, row as int, w as int, h as int);
            lemma_pixel_index((w - 1) as int, row as int, w as int, h as int);
        }
        let ghost start = target.target_view();
        let mut col: u32 = 0;
        while col < w
            invariant
                self.wf(),
                all_wf(scene.entities@),
                target.target_wf(),
                target.target_width() == w,
                target.target_height() == h,
                size == (PixelSize { width: w, height: h }),
                2 <= w,
                2 <= h,
                row < h,
                col <= w,
                target.target_view().len() == start.len(),
                start.len() == w * h,
                0 <= row * w,
                row * w + w <= w * h,
                forall|x: int| 0 <= x < col ==>
                    #[trigger] target.target_view()[x + row * w] == pixel_color(*self, scene.entities@,
                        opts.samples, x, row as int, w as int, h as int),
                forall|i: int| 0 <= i < start.len() && (i < row * w || i >= row * w + w) ==>
                    #[trigger] target.target_view()[i] == start[i],
            decreases w - col,
        {
            let c = self.render_pixel(Pixel::new(col, row), scene, size, opts);
            proof {
                lemma_pixel_index(col as int, row as int, w as int, h as int);
            }
            target.set(col, row, c);
            col = col + 1;
        }
    }

    /// Renders every pixel of `target`, row by row from the top, and calls
    /// `progress(rows_done, total_rows)` after each row; refuses a target less
    /// than two pixels wide or high and leaves it untouched.
    pub fn render<T: RenderTarget, F: Fn(u32, u32)>(
        &self,
        scene: &Scene,
        target: &mut T,
        opts: &RenderOpts,
        progress: &F,
    ) -> (r: Result<(), RenderError>)
        requires
            self.wf(),
            all_wf(scene.entities@),
            old(target).target_wf(),
            forall|done: u32, total: u32| progress.requires((done, total)),
        ensures
            final(target).target_wf(),
            final(target).target_width() == old(target).target_width(),
            final(target).target_height() == old(target).target_height(),
            r is Err <==> (old(target).target_width() < 2 || old(target).target_height() < 2),
            r is Err ==> final(target).target_view() == old(target).target_view(),
            r is Ok ==> forall|x: int, y: int|
                0 <= x < old(target).target_width() && 0 <= y < old(target).target_height() ==>
                #[trigger] final(target).target_view()[x + y * old(target).target_width()] == pixel_color(*self,
                    scene.entities@, opts.samples, x, y, old(target).target_width(),
                    old(target).target_height()),
    {
        let w = target.width();
        let h = target.height();
        if w < 2 || h < 2 {
            return Err(RenderError::DegenerateTarget);
        }
        proof {
            target.lemma_target_len();
        }
        let mut row: u32 = 0;
        while row < h
            invariant
                self.wf(),
                all_wf(scene.entities@),
                target.target_wf(),
                target.target_width() == w,
                target.target_height() == h,
                2 <= w,
                2 <= h,
                row <= h,
                forall|done: u32, total: u32| progress.requires((done, total)),
                target.target_view().len() == w * h,
                forall|x: int, y: int| 0 <= x < w && 0 <= y < row ==>
                    #[trigger] target.target_view()[x + y * w] == pixel_color(*self, scene.entities@,
                        opts.samples, x, y, w as int, h as int),
            decreases h - row,
        {
            let ghost before = target.target_view();
            self.render_row(row, scene, target, opts);
            proof {
                target.lemma_target_len();
                assert forall|x: int, y: int| 0 <= x < w && 0 <= y < row + 1 implies
                    #[trigger] target.target_view()[x + y * w] == pixel_color(*self, scene.entities@,
                        opts.samples, x, y, w as int, h as int) by {
                    if y < row {
                        assert(x + y * w < row * w) by (nonlinear_arith)
                            requires x < w, y + 1 <= row, 0 <= x;
                        lemma_pixel_index(x, y, w as int, h as int);
                        assert(target.target_view()[x + y * w] == before[x + y * w]);
                    }
                };
            }
            row = row + 1;
            progress(row, h);
        }
        Ok(())
    }
}

} // verus!
