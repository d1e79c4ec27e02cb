use vstd::prelude::*;
use crate::math::{
    abs, bounded, ceil_sqrt, ceil_sqrt_exec, is_ceil_sqrt, is_isqrt, isqrt, lemma_ceil_sqrt,
    lemma_dot_bound, lemma_isqrt_exists, lemma_isqrt_unique,
    lemma_mul_bound, vadd, vdot, vscale, vsub, Ray, Vec3, COORD_LIMIT,
};
use crate::camera::{pixel_color, Camera, RenderError};
use crate::framebuffer::RenderTarget;
use crate::rendering::{blue, dark_gray, gray, green, red, white, Color, Material, RenderOpts};

verus! {

/// The far end of the accepted parametric interval: far enough that no
/// intersection of in-range geometry is ever clipped.
pub const T_MAX: i128 = 10_000_000_000_000_000;

/// World-space placement of an entity (position only).
#[derive(Clone, Copy, Debug, PartialEq, Eq, Structural)]
pub struct Transform {
    pub position: Vec3,
}

impl Default for Transform {
    fn default() -> (t: Transform)
        ensures
            t.position == (Vec3 { x: 0, y: 0, z: 0 }),
    {
        Transform { position: Vec3::new(0, 0, 0) }
    }
}

impl Transform {
    pub fn position(&self) -> (p: Vec3)
        ensures
            p == self.position,
    {
        self.position
    }

    pub fn with_position(self, pos: Vec3) -> (t: Transform)
        ensures
            t.position == pos,
    {
        let mut copy = self;
        copy.position = pos;
        copy
    }

    pub fn set_position(&mut self, pos: Vec3)
        ensures
            final(self).position == pos,
    {
        self.position = pos;
    }
}

/// The result of a ray meeting a surface. The position and the distance
/// are fractions over `denom`, the normal a fraction over `normal_denom`:
/// the point is `position / denom`, the parameter along the ray
/// `distance / denom`, and the unit normal `normal / normal_denom`.
#[derive(Clone, Copy, Debug, PartialEq, Eq, Structural)]
pub struct Hit {
    pub position: Vec3,
    pub normal: Vec3,
    pub distance: i128,
    pub denom: i128,
    pub normal_denom: i128,
    pub material: Material,
}

/// `h` lies strictly nearer along the ray than `o`.
pub open spec fn closer(h: Hit, o: Hit) -> bool {
    h.distance * o.denom < o.distance * h.denom
}

/// `h` and `o` lie at exactly the same parameter.
pub open spec fn same_distance(h: Hit, o: Hit) -> bool {
    h.distance * o.denom == o.distance * h.denom
}

impl Hit {
    /// The bounds that every hit of in-range geometry keeps.
    pub open spec fn wf(&self) -> bool {
        &&& 0 < self.denom <= 3 * (COORD_LIMIT * COORD_LIMIT)
        &&& 0 <= self.distance < 0x20_0000_0000_0000
    }

    pub fn new(position: Vec3, normal: Vec3, distance: i128, denom: i128, normal_denom: i128, material: Material) -> (h: Hit)
        ensures
            h == (Hit { position, normal, distance, denom, normal_denom, material }),
    {
        Hit { position, normal, distance, denom, normal_denom, material }
    }

    pub fn position(&self) -> (p: Vec3)
        ensures
            p == self.position,
    {
        self.position
    }

    pub fn normal(&self) -> (n: Vec3)
        ensures
            n == self.normal,
    {
        self.normal
    }

    pub fn material(&self) -> (m: Material)
        ensures
            m == self.material,
    {
        self.material
    }

    /// Whether this hit lies strictly nearer along its ray than `other`.
    pub fn is_closer_than(&self, other: &Hit) -> (b: bool)
        requires
            self.wf(),
            other.wf(),
        ensures
            b == closer(*self, *other),
    {
        proof {
            lemma_mul_bound(self.distance as int, other.denom as int, 0x20_0000_0000_0000, 3 * (COORD_LIMIT * COORD_LIMIT));
            lemma_mul_bound(other.distance as int, self.denom as int, 0x20_0000_0000_0000, 3 * (COORD_LIMIT * COORD_LIMIT));
        }
        self.distance * other.denom < other.distance * self.denom
    }
}

/// A parameter `t / a` is not beyond the far end `T_MAX` of the accepted
/// interval.
pub open spec fn within_far_clip(t: int, a: int) -> bool {
    t <= T_MAX * a
}

pub open spec fn max0(t: int) -> int {
    if t < 0 { 0 } else { t }
}

/// The chosen root of `|O + tD - C|^2 = r^2`, as a numerator over `a = D.D`.
///
/// With `h = (O - C).D`, `c = |O - C|^2 - r^2` and `disc = h^2 - a * c`, the
/// real roots are `(-h - sqrt(disc)) / a <= (-h + sqrt(disc)) / a`. The near
/// root is not negative exactly when `h <= 0 && c >= 0`, the far root exactly
/// when `h <= 0 || c <= 0`; the least such root is taken. Its numerator is
/// rounded away from the centre (square root rounded up, the near root kept
/// at least 0), so the reported point is never inside the sphere and lies
/// less than `1 / a` from the real root along the ray.
pub open spec fn sphere_root(ray: Ray, center: Vec3, radius: int) -> Option<int> {
    let oc = vsub(ray.origin, center);
    let a = vdot(ray.direction, ray.direction);
    let h = vdot(oc, ray.direction);
    let c = vdot(oc, oc) - radius * radius;
    let disc = h * h - a * c;
    let s = ceil_sqrt(disc);
    if a == 0 || disc < 0 {
        None
    } else if h <= 0 && c >= 0 && within_far_clip(max0(-h - s), a) {
        Some(max0(-h - s))
    } else if (h <= 0 || c <= 0) && within_far_clip(-h + s, a) {
        Some(-h + s)
    } else {
        None
    }
}

/// What a sphere of `radius` centred at `center` reports for `ray`.
pub open spec fn sphere_hit(ray: Ray, center: Vec3, radius: int, material: Material) -> Option<Hit> {
    match sphere_root(ray, center, radius) {
        None => None,
        Some(t) => {
            let a = vdot(ray.direction, ray.direction);
            let p = vadd(vscale(ray.origin, a), vscale(ray.direction, t));
            Some(Hit {
                position: p,
                normal: vsub(p, vscale(center, a)),
                distance: t as i128,
                denom: a as i128,
                normal_denom: (a * radius) as i128,
                material,
            })
        },
    }
}

/// The magnitudes met along the intersection test of in-range geometry.
proof fn lemma_sphere_bounds(ray: Ray, center: Vec3, radius: int)
    requires
        ray.wf(),
        bounded(center, COORD_LIMIT as int),
        0 < radius <= COORD_LIMIT,
    ensures
        ({
            let oc = vsub(ray.origin, center);
            let a = vdot(ray.direction, ray.direction);
            let h = vdot(oc, ray.direction);
            let c = vdot(oc, oc) - radius * radius;
            let b = COORD_LIMIT as int;
            &&& bounded(oc, 2 * b)
            &&& oc == (Vec3 { x: (ray.origin.x - center.x) as i128, y: (ray.origin.y - center.y) as i128, z: (ray.origin.z - center.z) as i128 })
            &&& 0 <= a <= 3 * (b * b)
            &&& abs(h) <= 6 * (b * b)
            &&& 0 <= vdot(oc, oc) <= 12 * (b * b)
            &&& abs(c) <= 13 * (b * b)
            &&& abs(h * h - a * c) < 0x100_0000_0000_0000_0000_0000_0000
            &&& abs(h * h) < 0x100_0000_0000_0000_0000_0000_0000
            &&& abs(a * c) < 0x100_0000_0000_0000_0000_0000_0000
        }),
{
    let oc = vsub(ray.origin, center);
    let d = ray.direction;
    let b = COORD_LIMIT as int;
    assert(bounded(oc, 2 * b));
    lemma_dot_bound(d, d, b, b);
    lemma_dot_bound(oc, d, 2 * b, b);
    lemma_dot_bound(oc, oc, 2 * b, 2 * b);
    let a = vdot(d, d);
    let h = vdot(oc, d);
    assert(a >= 0) by (nonlinear_arith)
        requires a == d.x * d.x + d.y * d.y + d.z * d.z;
    assert(vdot(oc, oc) >= 0) by (nonlinear_arith)
        requires vdot(oc, oc) == oc.x * oc.x + oc.y * oc.y + oc.z * oc.z;
    assert(radius * radius <= b * b) by (nonlinear_arith)
        requires 0 < radius <= b;
    assert(radius * radius >= 0) by (nonlinear_arith);
    let c = vdot(oc, oc) - radius * radius;
    let bb = b * b;
    assert(bb == 0x1_0000_0000_0000);
    assert(3 * ((2 * b) * (2 * b)) == 12 * bb && 3 * ((2 * b) * b) == 6 * bb) by (nonlinear_arith)
        requires bb == b * b;
    assert(abs(c) <= 13 * bb);
    lemma_mul_bound(h, h, 6 * bb, 6 * bb);
    lemma_mul_bound(a, c, 3 * bb, 13 * bb);
    assert((6 * bb) * (6 * bb) < 0x80_0000_0000_0000_0000_0000_0000) by (nonlinear_arith)
        requires bb == 0x1_0000_0000_0000;
    assert((3 * bb) * (13 * bb) < 0x80_0000_0000_0000_0000_0000_0000) by (nonlinear_arith)
        requires bb == 0x1_0000_0000_0000;
}

/// `a * |CL|^2`, where `CL` is the shortest segment from the centre to the
/// line that carries the ray (`a = D.D`).
pub open spec fn line_distance_sq_scaled(ray: Ray, center: Vec3) -> int {
    let oc = vsub(ray.origin, center);
    let h = vdot(oc, ray.direction);
    vdot(oc, oc) * vdot(ray.direction, ray.direction) - h * h
}

/// A ray that starts `d` outside a sphere on its +x side and points along -x
/// meets it at parameter `d`, at the point `C + (r, 0, 0)`, with the outward
/// unit normal `(1, 0, 0)`.
pub proof fn lemma_axis_ray_hits_at_distance(center: Vec3, radius: int, d: int, material: Material)
    requires
        bounded(center, COORD_LIMIT as int),
        0 < radius <= COORD_LIMIT,
        0 < d,
        center.x + radius + d <= COORD_LIMIT,
    ensures
        sphere_hit(
            Ray {
                origin: Vec3 { x: (center.x + radius + d) as i128, y: center.y, z: center.z },
                direction: Vec3 { x: -1i128, y: 0, z: 0 },
            },
            center,
            radius,
            material,
        ) == Some(Hit {
            position: Vec3 { x: (center.x + radius) as i128, y: center.y, z: center.z },
            normal: Vec3 { x: radius as i128, y: 0, z: 0 },
            distance: d as i128,
            denom: 1,
            normal_denom: radius as i128,
            material,
        }),
{
    let ray = Ray {
        origin: Vec3 { x: (center.x + radius + d) as i128, y: center.y, z: center.z },
        direction: Vec3 { x: -1i128, y: 0, z: 0 },
    };
    let oc = vsub(ray.origin, center);
    assert(oc == Vec3 { x: (radius + d) as i128, y: 0, z: 0 });
    let a = vdot(ray.direction, ray.direction);
    assert(a == 1);
    let h = vdot(oc, ray.direction);
    assert(h == -(radius + d));
    let c = vdot(oc, oc) - radius * radius;
    assert(vdot(oc, oc) == (radius + d) * (radius + d));
    let disc = h * h - a * c;
    assert(disc == radius * radius) by (nonlinear_arith)
        requires disc == h * h - a * c, a == 1, h == -(radius + d), c == (radius + d) * (radius + d) - radius * radius;
    assert((radius + 1) * (radius + 1) > radius * radius) by (nonlinear_arith)
        requires radius > 0;
    lemma_isqrt_unique(disc, radius);
    assert(ceil_sqrt(disc) == radius);
    assert(c >= 0) by (nonlinear_arith)
        requires c == (radius + d) * (radius + d) - radius * radius, radius > 0, d > 0;
    assert(within_far_clip(max0(-h - radius), a));
    assert(sphere_root(ray, center, radius) == Some(d));
    assert(ray.origin.x * 1 == ray.origin.x && ray.origin.y * 1 == ray.origin.y && ray.origin.z * 1 == ray.origin.z);
    assert(vscale(ray.origin, 1) == ray.origin);
    assert(center.x * 1 == center.x && center.y * 1 == center.y && center.z * 1 == center.z);
    assert(vscale(center, 1) == center);
    assert(vscale(ray.direction, d) == Vec3 { x: (-d) as i128, y: 0, z: 0 });
}

/// A ray whose supporting line passes farther than the radius from the
/// centre meets the sphere nowhere.
pub proof fn lemma_far_line_misses(ray: Ray, center: Vec3, radius: int, material: Material)
    requires
        vdot(ray.direction, ray.direction) > 0,
        line_distance_sq_scaled(ray, center) > radius * radius * vdot(ray.direction, ray.direction),
    ensures
        sphere_hit(ray, center, radius, material) is None,
{
    let oc = vsub(ray.origin, center);
    let a = vdot(ray.direction, ray.direction);
    let h = vdot(oc, ray.direction);
    let q = vdot(oc, oc);
    let c = q - radius * radius;
    assert(h * h - a * c < 0) by (nonlinear_arith)
        requires q * a - h * h > radius * radius * a, c == q - radius * radius;
}

/// A ray whose origin lies strictly inside the sphere meets it at a
/// strictly positive parameter, at its far root.
pub proof fn lemma_inside_origin_hits(ray: Ray, center: Vec3, radius: int, material: Material)
    requires
        ray.wf(),
        bounded(center, COORD_LIMIT as int),
        0 < radius <= COORD_LIMIT,
        vdot(ray.direction, ray.direction) > 0,
        vdot(vsub(ray.origin, center), vsub(ray.origin, center)) < radius * radius,
    ensures
        sphere_hit(ray, center, radius, material) matches Some(hit) && hit.distance > 0,
{
    lemma_sphere_bounds(ray, center, radius);
    let oc = vsub(ray.origin, center);
    let a = vdot(ray.direction, ray.direction);
    let h = vdot(oc, ray.direction);
    let c = vdot(oc, oc) - radius * radius;
    let disc = h * h - a * c;
    assert(disc >= h * h + 1) by (nonlinear_arith)
        requires disc == h * h - a * c, a >= 1, c <= -1;
    assert(h * h >= 0) by (nonlinear_arith);
    lemma_ceil_sqrt(disc);
    lemma_isqrt_exists(disc);
    let s = ceil_sqrt(disc);
    assert(s > abs(h)) by (nonlinear_arith)
        requires s * s >= disc, disc >= h * h + 1, s >= 0;
    assert(isqrt(disc) < 0x10_0000_0000_0000) by (nonlinear_arith)
        requires isqrt(disc) * isqrt(disc) <= disc, disc < 0x100_0000_0000_0000_0000_0000_0000, isqrt(disc) >= 0;
    assert(T_MAX <= T_MAX * a) by (nonlinear_arith)
        requires a >= 1;
    assert(within_far_clip(-h + s, a));
}

proof fn lemma_square_of_sum(o: int, d: int, a: int, t: int)
    ensures
        (o * a + d * t) * (o * a + d * t) == a * a * (o * o) + 2 * a * t * (o * d) + t * t * (d * d),
{
    let x = o * a;
    let y = d * t;
    assert((x + y) * (x + y) == x * x + 2 * (x * y) + y * y) by (nonlinear_arith);
    assert(x * x == a * a * (o * o)) by (nonlinear_arith)
        requires x == o * a;
    assert(x * y == a * t * (o * d)) by (nonlinear_arith)
        requires x == o * a, y == d * t;
    assert(y * y == t * t * (d * d)) by (nonlinear_arith)
        requires y == d * t;
    assert(2 * a * t * (o * d) == 2 * (a * t * (o * d))) by (nonlinear_arith);
}

/// `|oc * a + D * t|^2 = a * ((t + h)^2 - disc) + (a * r)^2`.
proof fn lemma_offset_norm(
    ox: int, oy: int, oz: int, dx: int, dy: int, dz: int,
    a: int, t: int, h: int, c: int, radius: int, disc: int,
)
    requires
        a == dx * dx + dy * dy + dz * dz,
        h == ox * dx + oy * dy + oz * dz,
        c == ox * ox + oy * oy + oz * oz - radius * radius,
        disc == h * h - a * c,
    ensures
        (ox * a + dx * t) * (ox * a + dx * t) + (oy * a + dy * t) * (oy * a + dy * t)
            + (oz * a + dz * t) * (oz * a + dz * t)
            == a * ((t + h) * (t + h) - disc) + (a * radius) * (a * radius),
{
    lemma_square_of_sum(ox, dx, a, t);
    lemma_square_of_sum(oy, dy, a, t);
    lemma_square_of_sum(oz, dz, a, t);
    let q = ox * ox + oy * oy + oz * oz;
    assert(a * a * (ox * ox) + a * a * (oy * oy) + a * a * (oz * oz) == a * a * q) by (nonlinear_arith)
        requires q == ox * ox + oy * oy + oz * oz;
    assert(2 * a * t * (ox * dx) + 2 * a * t * (oy * dy) + 2 * a * t * (oz * dz) == 2 * a * t * h)
        by (nonlinear_arith)
        requires h == ox * dx + oy * dy + oz * dz;
    assert(t * t * (dx * dx) + t * t * (dy * dy) + t * t * (dz * dz) == t * t * a) by (nonlinear_arith)
        requires a == dx * dx + dy * dy + dz * dz;
    let e = (t + h) * (t + h) - disc;
    assert(e == t * t + 2 * (t * h) + a * c) by (nonlinear_arith)
        requires e == (t + h) * (t + h) - disc, disc == h * h - a * c;
    assert(a * e == a * (t * t) + 2 * (a * (t * h)) + a * (a * c)) by (nonlinear_arith)
        requires e == t * t + 2 * (t * h) + a * c;
    assert(a * a * q == a * (a * c) + (a * radius) * (a * radius)) by (nonlinear_arith)
        requires q == c + radius * radius;
    assert(2 * a * t * h == 2 * (a * (t * h))) by (nonlinear_arith);
    assert(t * t * a == a * (t * t)) by (nonlinear_arith);
}

/// The point a sphere reports is never inside it: `|P - C| >= r`, stated on
/// the fractions as `|normal|^2 >= normal_denom^2`.
pub proof fn lemma_hit_not_inside(ray: Ray, center: Vec3, radius: int, material: Material)
    requires
        ray.wf(),
        bounded(center, COORD_LIMIT as int),
        0 < radius <= COORD_LIMIT,
    ensures
        sphere_hit(ray, center, radius, material) matches Some(hit) ==>
            vdot(hit.normal, hit.normal) >= hit.normal_denom * hit.normal_denom,
{
    if let Some(t) = sphere_root(ray, center, radius) {
        lemma_sphere_bounds(ray, center, radius);
        let hit = sphere_hit(ray, center, radius, material)->0;
        let oc = vsub(ray.origin, center);
        let d = ray.direction;
        let a = vdot(d, d);
        let h = vdot(oc, d);
        let c = vdot(oc, oc) - radius * radius;
        let disc = h * h - a * c;
        let s = ceil_sqrt(disc);
        lemma_ceil_sqrt(disc);
        lemma_isqrt_exists(disc);
        let b = COORD_LIMIT as int;
        assert(isqrt(disc) < 0x10_0000_0000_0000) by (nonlinear_arith)
            requires isqrt(disc) * isqrt(disc) <= disc, disc < 0x100_0000_0000_0000_0000_0000_0000, isqrt(disc) >= 0;
        assert(b * b == 0x1_0000_0000_0000);
        if c <= 0 {
            assert(s >= abs(h)) by (nonlinear_arith)
                requires c <= 0, a >= 0, disc == h * h - a * c, s * s >= disc, s >= 0;
        }
        assert(0 <= t < 0x20_0000_0000_0000);
        assert((t + h) * (t + h) >= disc) by {
            if t == -h + s || t == -h - s {
                assert((t + h) * (t + h) == s * s) by (nonlinear_arith)
                    requires t == -h + s || t == -h - s;
            } else {
                assert(t == 0 && c >= 0);
                assert(a * c >= 0) by (nonlinear_arith) requires a >= 0, c >= 0;
            }
        };
        let (ox, oy, oz) = (oc.x as int, oc.y as int, oc.z as int);
        let (dx, dy, dz) = (d.x as int, d.y as int, d.z as int);
        lemma_mul_bound(ray.origin.x as int, a, b, 3 * (b * b));
        lemma_mul_bound(ray.origin.y as int, a, b, 3 * (b * b));
        lemma_mul_bound(ray.origin.z as int, a, b, 3 * (b * b));
        lemma_mul_bound(center.x as int, a, b, 3 * (b * b));
        lemma_mul_bound(center.y as int, a, b, 3 * (b * b));
        lemma_mul_bound(center.z as int, a, b, 3 * (b * b));
        lemma_mul_bound(dx, t, b, 0x20_0000_0000_0000);
        lemma_mul_bound(dy, t, b, 0x20_0000_0000_0000);
        lemma_mul_bound(dz, t, b, 0x20_0000_0000_0000);
        lemma_mul_bound(a, radius, 3 * (b * b), b);
        assert(ray.origin.x * a - center.x * a == ox * a) by (nonlinear_arith)
            requires ox == ray.origin.x - center.x;
        assert(ray.origin.y * a - center.y * a == oy * a) by (nonlinear_arith)
            requires oy == ray.origin.y - center.y;
        assert(ray.origin.z * a - center.z * a == oz * a) by (nonlinear_arith)
            requires oz == ray.origin.z - center.z;
        let (nx, ny, nz) = (ox * a + dx * t, oy * a + dy * t, oz * a + dz * t);
        assert(hit.normal.x == nx && hit.normal.y == ny && hit.normal.z == nz);
        let q = ox * ox + oy * oy + oz * oz;
        lemma_offset_norm(ox, oy, oz, dx, dy, dz, a, t, h, c, radius, disc);
        assert(vdot(hit.normal, hit.normal) == nx * nx + ny * ny + nz * nz);
        assert(a * ((t + h) * (t + h) - disc) >= 0) by (nonlinear_arith)
            requires a >= 0, (t + h) * (t + h) - disc >= 0;
    }
}

/// A sphere, placed by the transform of the entity that holds it.
#[derive(Clone, Copy, Debug, PartialEq, Eq, Structural)]
pub struct Sphere {
    pub radius: i128,
}

impl Sphere {
    /// A sphere of positive radius; `None` for a radius that is not positive
    /// or exceeds [COORD_LIMIT].
    pub fn new(radius: i128) -> (s: Option<Sphere>)
        ensures
            s is Some <==> 0 < radius <= COORD_LIMIT,
            s matches Some(sp) ==> sp.radius == radius,
    {
        if 0 < radius && radius <= COORD_LIMIT {
            Some(Sphere { radius })
        } else {
            None
        }
    }

    pub open spec fn wf(&self) -> bool {
        0 < self.radius <= COORD_LIMIT
    }

    /// Intersects `ray` with this sphere centred at the transform's position.
    pub fn hit(&self, ray: &Ray, transform: &Transform, material: Material) -> (r: Option<Hit>)
        requires
            self.wf(),
            ray.wf(),
            bounded(transform.position, COORD_LIMIT as int),
        ensures
            r == sphere_hit(*ray, transform.position, self.radius as int, material),
            r matches Some(h) ==> h.wf(),
            // the reported point is never inside the sphere
            r matches Some(h) ==> vdot(h.normal, h.normal) >= h.normal_denom * h.normal_denom,
            // from strictly inside, the ray meets the surface ahead of its origin
            vdot(ray.direction, ray.direction) > 0 && vdot(vsub(ray.origin, transform.position),
                vsub(ray.origin, transform.position)) < self.radius * self.radius
                ==> (r matches Some(h) && h.distance > 0),
    {
        let center = transform.position;
        proof {
            lemma_sphere_bounds(*ray, center, self.radius as int);
            lemma_hit_not_inside(*ray, center, self.radius as int, material);
            if vdot(ray.direction, ray.direction) > 0 && vdot(vsub(ray.origin, center), vsub(ray.origin, center))
                < self.radius * self.radius {
                lemma_inside_origin_hits(*ray, center, self.radius as int, material);
            }
        }
        let oc = ray.origin.sub(center);
        let d = ray.direction;
        let a = d.magnitude_squared();
        let h = oc.dot(&d);
        let c = oc.magnitude_squared() - self.radius * self.radius;
        let disc = h * h - a * c;
        if a == 0 || disc < 0 {
            return None;
        }
        let s = ceil_sqrt_exec(disc);
        let ghost b = COORD_LIMIT as int;
        assert(T_MAX * a <= T_MAX * (3 * (b * b))) by (nonlinear_arith)
            requires 0 <= a <= 3 * (b * b);
        let near = if -h - s < 0 { 0 } else { -h - s };
        proof {
            lemma_ceil_sqrt(disc as int);
            lemma_isqrt_exists(disc as int);
            if c <= 0 {
                assert(s >= abs(h as int)) by (nonlinear_arith)
                    requires c <= 0, a >= 0, disc == h * h - a * c, s * s >= disc, s >= 0;
            }
        }
        let root = if h <= 0 && c >= 0 && near <= T_MAX * a {
            near
        } else if (h <= 0 || c <= 0) && -h + s <= T_MAX * a {
            -h + s
        } else {
            return None;
        };
        proof {
            lemma_mul_bound(ray.origin.x as int, a as int, b, 3 * (b * b));
            lemma_mul_bound(ray.origin.y as int, a as int, b, 3 * (b * b));
            lemma_mul_bound(ray.origin.z as int, a as int, b, 3 * (b * b));
            lemma_mul_bound(d.x as int, root as int, b, 0x20_0000_0000_0000);
            lemma_mul_bound(d.y as int, root as int, b, 0x20_0000_0000_0000);
            lemma_mul_bound(d.z as int, root as int, b, 0x20_0000_0000_0000);
            lemma_mul_bound(center.x as int, a as int, b, 3 * (b * b));
            lemma_mul_bound(center.y as int, a as int, b, 3 * (b * b));
            lemma_mul_bound(center.z as int, a as int, b, 3 * (b * b));
            lemma_mul_bound(a as int, self.radius as int, 3 * (b * b), b);
        }
        let p = ray.origin.mul(a).add(d.mul(root));
        let normal = p.sub(center.mul(a));
        Some(Hit { position: p, normal, distance: root, denom: a, normal_denom: a * self.radius, material })
    }
}

/// The closed set of shapes an entity can have.
#[derive(Clone, Copy, Debug, PartialEq, Eq, Structural)]
pub enum Primitive {
    Sphere(Sphere),
}

impl Primitive {
    pub open spec fn wf(&self) -> bool {
        match self {
            Primitive::Sphere(s) => s.wf(),
        }
    }
}

/// What `primitive`, placed at `transform`, reports for `ray`.
pub open spec fn primitive_hit(primitive: Primitive, ray: Ray, transform: Transform, material: Material) -> Option<Hit> {
    match primitive {
        Primitive::Sphere(s) => sphere_hit(ray, transform.position, s.radius as int, material),
    }
}

/// A scene object: a shape, where it stands, and its surface.
#[derive(Clone, Copy, Debug, PartialEq, Eq, Structural)]
pub struct Entity {
    pub transform: Transform,
    pub material: Material,
    pub primitive: Primitive,
}

impl Entity {
    pub open spec fn wf(&self) -> bool {
        self.primitive.wf() && bounded(self.transform.position, COORD_LIMIT as int)
    }

    /// An entity; `None` when its position lies beyond [COORD_LIMIT].
    pub fn new(transform: Transform, material: Material, primitive: Primitive) -> (e: Option<Entity>)
        requires
            primitive.wf(),
        ensures
            e is Some <==> bounded(transform.position, COORD_LIMIT as int),
            e matches Some(en) ==> en == (Entity { transform, material, primitive }) && en.wf(),
    {
        let p = transform.position;
        if -COORD_LIMIT <= p.x && p.x <= COORD_LIMIT && -COORD_LIMIT <= p.y && p.y <= COORD_LIMIT
            && -COORD_LIMIT <= p.z && p.z <= COORD_LIMIT {
            Some(Entity { transform, material, primitive })
        } else {
            None
        }
    }

    pub fn hit(&self, ray: &Ray) -> (r: Option<Hit>)
        requires
            self.wf(),
            ray.wf(),
        ensures
            r == entity_hit(*self, *ray),
            r matches Some(h) ==> h.wf(),
    {
        match self.primitive {
            Primitive::Sphere(s) => s.hit(ray, &self.transform, self.material),
        }
    }
}

pub open spec fn entity_hit(e: Entity, ray: Ray) -> Option<Hit> {
    primitive_hit(e.primitive, ray, e.transform, e.material)
}

/// Keeps `best` unless `cand` is a hit strictly nearer than it.
pub open spec fn pick(best: Option<Hit>, cand: Option<Hit>) -> Option<Hit> {
    match cand {
        None => best,
        Some(h) => match best {
            None => Some(h),
            Some(b) => if closer(h, b) { Some(h) } else { Some(b) },
        },
    }
}

/// The nearest of `hits`, scanned in order; the first wins an exact tie.
pub open spec fn nearest(hits: Seq<Option<Hit>>) -> Option<Hit>
    decreases hits.len(),
{
    if hits.len() == 0 {
        None
    } else {
        pick(nearest(hits.drop_last()), hits.last())
    }
}

/// What each entity reports for `ray`, in order.
pub open spec fn entity_hits(es: Seq<Entity>, ray: Ray) -> Seq<Option<Hit>> {
    Seq::new(es.len(), |i: int| entity_hit(es[i], ray))
}

/// What a scene of entities `es` reports for `ray`.
pub open spec fn scene_hit(es: Seq<Entity>, ray: Ray) -> Option<Hit> {
    nearest(entity_hits(es, ray))
}

pub open spec fn all_wf(es: Seq<Entity>) -> bool {
    forall|i: int| 0 <= i < es.len() ==> #[trigger] es[i].wf()
}

/// Scans every entity and keeps the nearest hit; the first seen wins a tie.
pub fn nearest_hit(entities: &Vec<Entity>, ray: &Ray) -> (r: Option<Hit>)
    requires
        all_wf(entities@),
        ray.wf(),
    ensures
        r == scene_hit(entities@, *ray),
        r matches Some(h) ==> h.wf(),
{
    let mut closest: Option<Hit> = None;
    let mut i: usize = 0;
    while i < entities.len()
        invariant
            i <= entities@.len(),
            all_wf(entities@),
            ray.wf(),
            closest == nearest(entity_hits(entities@.take(i as int), *ray)),
            closest matches Some(h) ==> h.wf(),
        decreases entities@.len() - i,
    {
        let ghost prev = entity_hits(entities@.take(i as int), *ray);
        let ghost next = entity_hits(entities@.take(i + 1), *ray);
        assert(next.drop_last() =~= prev);
        assert(entities@[i as int].wf());
        match entities[i].hit(ray) {
            Some(hit) => {
                let replace = match &closest {
                    None => true,
                    Some(best) => hit.is_closer_than(best),
                };
                if replace {
                    closest = Some(hit);
                }
            },
            None => {},
        }
        i = i + 1;
    }
    assert(entities@.take(entities@.len() as int) =~= entities@);
    closest
}

proof fn lemma_closer_trans(c: Hit, b: Hit, o: Hit)
    requires
        c.denom > 0,
        b.denom > 0,
        o.denom > 0,
        closer(c, b),
        !closer(o, b),
    ensures
        closer(c, o),
{
    assert(c.distance * o.denom < o.distance * c.denom) by (nonlinear_arith)
        requires
            c.distance * b.denom < b.distance * c.denom,
            b.distance * o.denom <= o.distance * b.denom,
            c.denom > 0,
            b.denom > 0,
            o.denom > 0;
}

pub open spec fn positive_denoms(hits: Seq<Option<Hit>>) -> bool {
    forall|i: int| 0 <= i < hits.len() && (#[trigger] hits[i]) is Some ==> hits[i]->0.denom > 0
}

/// Whatever the order of the candidates, the one reported is present among
/// them, none of them lies strictly nearer, and each one before it lies
/// strictly farther; there is none only when no candidate hits.
pub proof fn lemma_nearest_is_nearest(hits: Seq<Option<Hit>>)
    requires
        positive_denoms(hits),
    ensures
        nearest(hits) is None <==> forall|j: int| 0 <= j < hits.len() ==> (#[trigger] hits[j]) is None,
        nearest(hits) matches Some(h) ==> exists|i: int| {
            &&& 0 <= i < hits.len()
            &&& hits[i] == Some(h)
            &&& forall|j: int| 0 <= j < hits.len() && (#[trigger] hits[j]) is Some ==> !closer(hits[j]->0, h)
            &&& forall|j: int| 0 <= j < i && (#[trigger] hits[j]) is Some ==> closer(h, hits[j]->0)
        },
    decreases hits.len(),
{
    if hits.len() > 0 {
        let prev = hits.drop_last();
        let n = hits.len() - 1;
        assert(positive_denoms(prev)) by {
            assert forall|i: int| 0 <= i < prev.len() && (#[trigger] prev[i]) is Some implies prev[i]->0.denom > 0 by {
                assert(prev[i] == hits[i]);
            };
        };
        lemma_nearest_is_nearest(prev);
        assert forall|j: int| 0 <= j < n implies #[trigger] hits[j] == prev[j] by {};
        match hits.last() {
            None => {
                if let Some(h) = nearest(prev) {
                    let i = choose|i: int| {
                        &&& 0 <= i < prev.len()
                        &&& prev[i] == Some(h)
                        &&& forall|j: int| 0 <= j < prev.len() && (#[trigger] prev[j]) is Some ==> !closer(prev[j]->0, h)
                        &&& forall|j: int| 0 <= j < i && (#[trigger] prev[j]) is Some ==> closer(h, prev[j]->0)
                    };
                    assert(hits[i] == Some(h));
                }
            },
            Some(c) => {
                match nearest(prev) {
                    None => {
                        assert(hits[n] == Some(c));
                        assert forall|j: int| 0 <= j < hits.len() && (#[trigger] hits[j]) is Some implies !closer(hits[j]->0, c) by {
                            if j < n {
                                assert(prev[j] is Some);
                            }
                        };
                    },
                    Some(b) => {
                        let i = choose|i: int| {
                            &&& 0 <= i < prev.len()
                            &&& prev[i] == Some(b)
                            &&& forall|j: int| 0 <= j < prev.len() && (#[trigger] prev[j]) is Some ==> !closer(prev[j]->0, b)
                            &&& forall|j: int| 0 <= j < i && (#[trigger] prev[j]) is Some ==> closer(b, prev[j]->0)
                        };
                        assert(prev[i] == Some(b));
                        assert(b.denom > 0);
                        assert(c.denom > 0) by { assert(hits[n] == Some(c)); };
                        if closer(c, b) {
                            assert(hits[n] == Some(c));
                            assert forall|j: int| 0 <= j < n && (#[trigger] hits[j]) is Some implies closer(c, hits[j]->0) by {
                                assert(prev[j] is Some);
                                lemma_closer_trans(c, b, hits[j]->0);
                            };
                            assert forall|j: int| 0 <= j < hits.len() && (#[trigger] hits[j]) is Some implies !closer(hits[j]->0, c) by {
                                if j < n {
                                    assert(closer(c, hits[j]->0));
                                }
                            };
                        } else {
                            assert(hits[i] == Some(b));
                            assert forall|j: int| 0 <= j < hits.len() && (#[trigger] hits[j]) is Some implies !closer(hits[j]->0, b) by {
                                if j < n {
                                    assert(prev[j] is Some);
                                }
                            };
                            assert forall|j: int| 0 <= j < i && (#[trigger] hits[j]) is Some implies closer(b, hits[j]->0) by {
                                assert(prev[j] is Some);
                            };
                        }
                    },
                }
            },
        }
    }
}

/// For any order of in-range entities, the hit a scene reports is one of
/// theirs, none lies strictly nearer, and each entity's hit before it in
/// order lies strictly farther; there is none only when no entity is hit.
pub proof fn lemma_scene_hit_is_nearest(es: Seq<Entity>, ray: Ray)
    requires
        all_wf(es),
        ray.wf(),
    ensures
        scene_hit(es, ray) is None <==> forall|j: int| 0 <= j < es.len() ==> (#[trigger] entity_hit(es[j], ray)) is None,
        scene_hit(es, ray) matches Some(h) ==> exists|i: int| {
            &&& 0 <= i < es.len()
            &&& entity_hit(es[i], ray) == Some(h)
            &&& forall|j: int| 0 <= j < es.len() && (#[trigger] entity_hit(es[j], ray)) is Some
                ==> !closer(entity_hit(es[j], ray)->0, h)
            &&& forall|j: int| 0 <= j < i && (#[trigger] entity_hit(es[j], ray)) is Some
                ==> closer(h, entity_hit(es[j], ray)->0)
        },
{
    let hits = entity_hits(es, ray);
    assert forall|i: int| 0 <= i < hits.len() && (#[trigger] hits[i]) is Some implies hits[i]->0.denom > 0 by {
        assert(es[i].wf());
        let Primitive::Sphere(sp) = es[i].primitive;
        lemma_sphere_bounds(ray, es[i].transform.position, sp.radius as int);
    };
    lemma_nearest_is_nearest(hits);
    assert forall|j: int| 0 <= j < es.len() implies #[trigger] entity_hit(es[j], ray) == hits[j] by {};
}

/// With two entities that both meet a ray, the strictly nearer one is
/// reported whichever of them was inserted first; at exactly equal distance
/// the one inserted first is reported.
pub proof fn lemma_nearer_entity_wins(e1: Entity, e2: Entity, ray: Ray)
    requires
        entity_hit(e1, ray) is Some,
        entity_hit(e2, ray) is Some,
    ensures
        closer(entity_hit(e1, ray)->0, entity_hit(e2, ray)->0) ==> {
            &&& scene_hit(seq![e1, e2], ray) == entity_hit(e1, ray)
            &&& scene_hit(seq![e2, e1], ray) == entity_hit(e1, ray)
        },
        same_distance(entity_hit(e1, ray)->0, entity_hit(e2, ray)->0) ==> {
            &&& scene_hit(seq![e1, e2], ray) == entity_hit(e1, ray)
            &&& scene_hit(seq![e2, e1], ray) == entity_hit(e2, ray)
        },
{
    let hs12 = entity_hits(seq![e1, e2], ray);
    let hs21 = entity_hits(seq![e2, e1], ray);
    assert(hs12.drop_last().drop_last() =~= Seq::<Option<Hit>>::empty());
    assert(hs21.drop_last().drop_last() =~= Seq::<Option<Hit>>::empty());
    assert(hs12.drop_last().last() == entity_hit(e1, ray));
    assert(hs21.drop_last().last() == entity_hit(e2, ray));
    assert(nearest(hs12.drop_last().drop_last()) == None::<Hit>);
    assert(nearest(hs21.drop_last().drop_last()) == None::<Hit>);
    assert(nearest(hs12.drop_last()) == entity_hit(e1, ray));
    assert(nearest(hs21.drop_last()) == entity_hit(e2, ray));
}

/// A sphere entity of `radius` centred at `position`, coloured `color`.
pub open spec fn sphere_entity(position: Vec3, radius: i128, color: Color) -> Entity {
    Entity {
        transform: Transform { position },
        material: Material { diffuse: color },
        primitive: Primitive::Sphere(Sphere { radius }),
    }
}

/// Entities and the camera that looks at them.
#[derive(Debug)]
pub struct Scene {
    pub entities: Vec<Entity>,
    pub camera: Camera,
}

impl Scene {
    pub open spec fn wf(&self) -> bool {
        all_wf(self.entities@) && self.camera.wf()
    }

    /// A scene of the given entities, seen by `camera`.
    pub fn from_parts(entities: Vec<Entity>, camera: Camera) -> (s: Scene)
        ensures
            s.entities@ == entities@,
            s.camera == camera,
    {
        Scene { entities, camera }
    }

    fn entity(pos: Vec3, radius: i128, color: Color) -> (e: Entity)
        requires
            bounded(pos, COORD_LIMIT as int),
            0 < radius <= COORD_LIMIT,
        ensures
            e.wf(),
            e == (Entity {
                transform: Transform { position: pos },
                material: Material { diffuse: color },
                primitive: Primitive::Sphere(Sphere { radius }),
            }),
    {
        let sphere = Sphere::new(radius).unwrap();
        Entity::new(Transform::default().with_position(pos), Material::from_diffuse(color), Primitive::Sphere(sphere)).unwrap()
    }

    /// The demonstration scene: four spheres standing on a large ground
    /// sphere, seen from `(0, 90, 360)` against a dark grey background.
    pub fn new() -> (s: Scene)
        ensures
            s.wf(),
            s.entities@ == seq![
                sphere_entity(Vec3 { x: 0, y: 90, z: 0 }, 90, Color { r: 255, g: 255, b: 255 }),
                sphere_entity(Vec3 { x: 0, y: 90, z: 90 }, 45, Color { r: 0, g: 0, b: 255 }),
                sphere_entity(Vec3 { x: 0, y: 180, z: 0 }, 45, Color { r: 0, g: 255, b: 0 }),
                sphere_entity(Vec3 { x: 90, y: 90, z: 0 }, 45, Color { r: 255, g: 0, b: 0 }),
                sphere_entity(Vec3 { x: 0, y: -9000i128, z: 0 }, 9000, Color { r: 100, g: 100, b: 100 }),
            ],
            s.camera == (Camera {
                transform: Transform { position: Vec3 { x: 0, y: 90, z: 360 } },
                clear_color: Color { r: 50, g: 50, b: 50 },
                focal_length: 90,
                width: 160,
                height: 90,
            }),
    {
        let entities = vec![
            Self::entity(Vec3::new(0, 90, 0), 90, white()),
            Self::entity(Vec3::new(0, 90, 90), 45, blue()),
            Self::entity(Vec3::new(0, 180, 0), 45, green()),
            Self::entity(Vec3::new(90, 90, 0), 45, red()),
            Self::entity(Vec3::new(0, -9000, 0), 9000, gray()),
        ];
        let camera = Camera::new().with_clear_color(dark_gray()).with_position(Vec3::new(0, 90, 360)).unwrap();
        let s = Scene { entities, camera };
        assert(s.entities@ =~= seq![
            sphere_entity(Vec3 { x: 0, y: 90, z: 0 }, 90, Color { r: 255, g: 255, b: 255 }),
            sphere_entity(Vec3 { x: 0, y: 90, z: 90 }, 45, Color { r: 0, g: 0, b: 255 }),
            sphere_entity(Vec3 { x: 0, y: 180, z: 0 }, 45, Color { r: 0, g: 255, b: 0 }),
            sphere_entity(Vec3 { x: 90, y: 90, z: 0 }, 45, Color { r: 255, g: 0, b: 0 }),
            sphere_entity(Vec3 { x: 0, y: -9000i128, z: 0 }, 9000, Color { r: 100, g: 100, b: 100 }),
        ]);
        s
    }

    pub fn camera(&self) -> (c: Camera)
        ensures
            c == self.camera,
    {
        self.camera
    }

    /// The nearest hit of `ray` among the entities; the first inserted wins
    /// an exact tie.
    pub fn hit(&self, ray: &Ray) -> (r: Option<Hit>)
        requires
            self.wf(),
            ray.wf(),
        ensures
            r == scene_hit(self.entities@, *ray),
    {
        nearest_hit(&self.entities, ray)
    }

    /// Renders the whole scene into `target` with this scene's camera,
    /// calling `progress(rows_done, total_rows)` after each row.
    pub fn render<T: RenderTarget, F: Fn(u32, u32)>(&self, target: &mut T, opts: &RenderOpts, progress: &F) -> (r: Result<(), RenderError>)
        requires
            self.wf(),
            old(target).target_wf(),
            forall|done: u32, total: u32| progress.requires((done, total)),
        ensures
            final(target).target_wf(),
            final(target).target_width() == old(target).target_width(),
            final(target).target_height() == old(target).target_height(),
            r is Err <==> (old(target).target_width() < 2 || old(target).target_height() < 2),
            r is Err ==> final(target).target_view() == old(target).target_view(),
            r is Ok ==> forall|x: int, y: int|
                0 <= x < old(target).target_width() && 0 <= y < old(target).target_height() ==>
                #[trigger] final(target).target_view()[x + y * old(target).target_width()] == pixel_color(self.camera,
                    self.entities@, opts.samples, x, y, old(target).target_width(),
                    old(target).target_height()),
    {
        self.camera.render(self, target, opts, progress)
    }

    /// Renders row `row` of `target` only, for callers that report progress
    /// between rows.
    pub fn render_row<T: RenderTarget>(&self, row: u32, target: &mut T, opts: &RenderOpts)
        requires
            self.wf(),
            old(target).target_wf(),
            2 <= old(target).target_width(),
            2 <= old(target).target_height(),
            row < old(target).target_height(),
        ensures
            final(target).target_wf(),
            final(target).target_width() == old(target).target_width(),
            final(target).target_height() == old(target).target_height(),
            forall|x: int| 0 <= x < old(target).target_width() ==>
                #[trigger] final(target).target_view()[x + row * old(target).target_width()] == pixel_color(self.camera,
                    self.entities@, opts.samples, x, row as int, old(target).target_width(),
                    old(target).target_height()),
            forall|i: int| 0 <= i < old(target).target_view().len() && (i < row * old(target).target_width()
                || i >= row * old(target).target_width() + old(target).target_width()) ==>
                #[trigger] final(target).target_view()[i] == old(target).target_view()[i],
    {
        self.camera.render_row(row, self, target, opts)
    }
}

} // verus!
