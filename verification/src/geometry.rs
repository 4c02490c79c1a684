use vstd::prelude::*;

use crate::color::Color;

verus! {

/// Largest coordinate magnitude the geometric operations accept; keeps every
/// intermediate product of the intersection math inside `i128`.
pub const COORD_BOUND: i64 = 100_000;

/// Resolution of `Vec3::unit`: the unit direction is returned in thousandths,
/// since integer coordinates cannot hold fractions.
pub const UNIT_SCALE: i64 = 1000;

/// Dot product of two integer triples.
pub open spec fn dot3(a: (int, int, int), b: (int, int, int)) -> int {
    a.0 * b.0 + a.1 * b.1 + a.2 * b.2
}

/// Squared Euclidean norm of an integer triple.
pub open spec fn norm2(a: (int, int, int)) -> int {
    dot3(a, a)
}

/// All three components within `COORD_BOUND` in magnitude.
pub open spec fn in_coord_range(a: (int, int, int)) -> bool {
    &&& -COORD_BOUND <= a.0 <= COORD_BOUND
    &&& -COORD_BOUND <= a.1 <= COORD_BOUND
    &&& -COORD_BOUND <= a.2 <= COORD_BOUND
}

/// The integer square root: the greatest `r` with `r * r <= n`, for `n >= 0`.
pub open spec fn sqrt_floor(n: int) -> int {
    choose|r: int| 0 <= r && #[trigger] (r * r) <= n && n < (r + 1) * (r + 1)
}

/// Division truncating toward zero (the semantics of `/` on Rust's signed
/// integers), defined for positive divisors.
pub open spec fn tdiv(a: int, b: int) -> int {
    if a >= 0 {
        a / b
    } else {
        -((-a) / b)
    }
}

pub proof fn lemma_mul_bound(a: int, b: int, m: int, n: int)
    by (nonlinear_arith)
    requires
        -m <= a <= m,
        -n <= b <= n,
    ensures
        -(m * n) <= a * b <= m * n,
{
}

pub proof fn lemma_sq_nonneg(a: int)
    by (nonlinear_arith)
    ensures
        a * a >= 0,
{
}

pub proof fn lemma_sq_mono(a: int, b: int)
    by (nonlinear_arith)
    requires
        0 <= a <= b,
    ensures
        a * a <= b * b,
{
}

pub proof fn lemma_sqrt_floor_exists(n: int)
    requires
        n >= 0,
    ensures
        exists|r: int| 0 <= r && #[trigger] (r * r) <= n && n < (r + 1) * (r + 1),
    decreases n,
{
    if n == 0 {
        assert(0 * 0 <= n && n < (0 + 1) * (0 + 1)) by (nonlinear_arith)
            requires
                n == 0,
        ;
    } else {
        lemma_sqrt_floor_exists(n - 1);
        let r = choose|r: int| 0 <= r && #[trigger] (r * r) <= n - 1 && n - 1 < (r + 1) * (r + 1);
        if n < (r + 1) * (r + 1) {
            assert(0 <= r && r * r <= n && n < (r + 1) * (r + 1));
        } else {
            let s = r + 1;
            assert(s * s <= n);
            assert((s + 1) * (s + 1) > s * s) by (nonlinear_arith)
                requires
                    s >= 0,
            ;
            assert(0 <= s && s * s <= n && n < (s + 1) * (s + 1));
        }
    }
}

pub proof fn lemma_sqrt_floor_props(n: int)
    requires
        n >= 0,
    ensures
        0 <= sqrt_floor(n),
        sqrt_floor(n) * sqrt_floor(n) <= n,
        n < (sqrt_floor(n) + 1) * (sqrt_floor(n) + 1),
{
    lemma_sqrt_floor_exists(n);
}

pub proof fn lemma_sqrt_floor_unique(n: int, r: int)
    requires
        n >= 0,
        0 <= r,
        r * r <= n,
        n < (r + 1) * (r + 1),
    ensures
        r == sqrt_floor(n),
{
    lemma_sqrt_floor_props(n);
    let s = sqrt_floor(n);
    if r < s {
        lemma_sq_mono(r + 1, s);
        assert(false);
    } else if s < r {
        lemma_sq_mono(s + 1, r);
        assert(false);
    }
}

pub proof fn lemma_tdiv_bounds(a: int, b: int)
    requires
        b >= 1,
    ensures
        a >= 0 ==> 0 <= tdiv(a, b) <= a,
        a < 0 ==> a <= tdiv(a, b) <= 0,
{
    if a >= 0 {
        vstd::arithmetic::div_mod::lemma_div_pos_is_pos(a, b);
        vstd::arithmetic::div_mod::lemma_div_nonincreasing(a, b);
    } else {
        vstd::arithmetic::div_mod::lemma_div_pos_is_pos(-a, b);
        vstd::arithmetic::div_mod::lemma_div_nonincreasing(-a, b);
    }
}

/// Integer square root by bisection.
pub fn isqrt_u128(n: u128) -> (r: u128)
    requires
        n < 1_000_000_000_000_000_000_000_000,
    ensures
        r == sqrt_floor(n as int),
        r * r <= n,
        n < (r + 1) * (r + 1),
        r < 1_000_000_000_000,
{
    let mut lo: u128 = 0;
    let mut hi: u128 = 1_000_000_000_000;
    while lo + 1 < hi
        invariant
            lo < hi <= 1_000_000_000_000,
            lo * lo <= n,
            n < hi * hi,
        decreases hi - lo,
    {
        let mid: u128 = lo + (hi - lo) / 2;
        proof {
            lemma_sq_mono(mid as int, 1_000_000_000_000);
        }
        let m2: u128 = mid * mid;
        if m2 <= n {
            lo = mid;
        } else {
            hi = mid;
        }
    }
    proof {
        lemma_sqrt_floor_unique(n as int, lo as int);
    }
    lo
}

/// Truncating division on `i128`, for a positive divisor.
pub fn div_trunc_i128(a: i128, b: i128) -> (q: i128)
    requires
        1 <= b,
    ensures
        q == tdiv(a as int, b as int),
        a >= 0 ==> 0 <= q <= a,
        a < 0 ==> a <= q <= 0,
{
    proof {
        lemma_tdiv_bounds(a as int, b as int);
    }
    a / b
}

/// Truncating division on `i64`, for a positive divisor.
pub fn div_trunc_i64(a: i64, b: i64) -> (q: i64)
    requires
        1 <= b,
    ensures
        q == tdiv(a as int, b as int),
        a >= 0 ==> 0 <= q <= a,
        a < 0 ==> a <= q <= 0,
{
    proof {
        lemma_tdiv_bounds(a as int, b as int);
    }
    a / b
}

/// A 3-component integer vector, used both as a point and as a direction.
#[derive(Clone, Copy, Debug, PartialEq, Eq, Structural)]
pub struct Vec3 {
    pub x: i64,
    pub y: i64,
    pub z: i64,
}

/// Points and directions share one representation.
pub type Pt = Vec3;

impl View for Vec3 {
    type V = (int, int, int);

    open spec fn view(&self) -> (int, int, int) {
        (self.x as int, self.y as int, self.z as int)
    }
}

impl Vec3 {
    pub fn new(x: i64, y: i64, z: i64) -> (v: Vec3)
        ensures
            v == (Vec3 { x, y, z }),
    {
        Vec3 { x, y, z }
    }

    pub fn zero() -> (v: Vec3)
        ensures
            v@ == (0int, 0int, 0int),
    {
        Vec3 { x: 0, y: 0, z: 0 }
    }

    /// Sentinel standing for "no intersection, at maximal distance"; not a
    /// valid coordinate vector, and rejected by the geometric operations.
    pub fn infinity() -> (v: Vec3)
        ensures
            v == (Vec3 { x: i64::MAX, y: i64::MAX, z: i64::MAX }),
    {
        Vec3 { x: i64::MAX, y: i64::MAX, z: i64::MAX }
    }

    /// Component-wise multiplication by `k`.
    pub fn scaled(&self, k: i64) -> (v: Vec3)
        requires
            i64::MIN <= self@.0 * k <= i64::MAX,
            i64::MIN <= self@.1 * k <= i64::MAX,
            i64::MIN <= self@.2 * k <= i64::MAX,
        ensures
            v@ == (self@.0 * k, self@.1 * k, self@.2 * k),
    {
        Vec3 { x: self.x * k, y: self.y * k, z: self.z * k }
    }

    /// The Euclidean norm, as an integer square root (floor).
    pub fn mag(&self) -> (m: i64)
        requires
            in_coord_range(self@),
        ensures
            m == sqrt_floor(norm2(self@)),
            0 <= m,
            m * m <= norm2(self@),
            norm2(self@) < (m + 1) * (m + 1),
    {
        proof {
            lemma_mul_bound(self@.0, self@.0, COORD_BOUND as int, COORD_BOUND as int);
            lemma_mul_bound(self@.1, self@.1, COORD_BOUND as int, COORD_BOUND as int);
            lemma_mul_bound(self@.2, self@.2, COORD_BOUND as int, COORD_BOUND as int);
            lemma_sq_nonneg(self@.0);
            lemma_sq_nonneg(self@.1);
            lemma_sq_nonneg(self@.2);
        }
        let s: i64 = self.x * self.x + self.y * self.y + self.z * self.z;
        let r: u128 = isqrt_u128(s as u128);
        r as i64
    }

    /// The direction of `self`, in thousandths (`UNIT_SCALE`): component `c`
    /// becomes `c * 1000 / |self|`, truncated toward zero. The zero vector has
    /// no direction and is excluded.
    pub fn unit(&self) -> (u: Vec3)
        requires
            in_coord_range(self@),
            norm2(self@) > 0,
        ensures
            u@.0 == tdiv(self@.0 * UNIT_SCALE, sqrt_floor(norm2(self@))),
            u@.1 == tdiv(self@.1 * UNIT_SCALE, sqrt_floor(norm2(self@))),
            u@.2 == tdiv(self@.2 * UNIT_SCALE, sqrt_floor(norm2(self@))),
    {
        let m: i64 = self.mag();
        proof {
            if m == 0 {
                assert(norm2(self@) < (0 + 1) * (0 + 1));
            }
        }
        let ux: i64 = div_trunc_i64(self.x * UNIT_SCALE, m);
        let uy: i64 = div_trunc_i64(self.y * UNIT_SCALE, m);
        let uz: i64 = div_trunc_i64(self.z * UNIT_SCALE, m);
        Vec3 { x: ux, y: uy, z: uz }
    }

    /// Scalar dot product.
    pub fn dot(&self, other: &Vec3) -> (d: i64)
        requires
            in_coord_range(self@),
            in_coord_range(other@),
        ensures
            d == dot3(self@, other@),
            -30_000_000_000 <= d <= 30_000_000_000,
    {
        proof {
            lemma_mul_bound(self@.0, other@.0, COORD_BOUND as int, COORD_BOUND as int);
            lemma_mul_bound(self@.1, other@.1, COORD_BOUND as int, COORD_BOUND as int);
            lemma_mul_bound(self@.2, other@.2, COORD_BOUND as int, COORD_BOUND as int);
        }
        self.x * other.x + self.y * other.y + self.z * other.z
    }

    /// Component-wise sum.
    pub fn add(&self, other: &Vec3) -> (v: Vec3)
        requires
            i64::MIN <= self@.0 + other@.0 <= i64::MAX,
            i64::MIN <= self@.1 + other@.1 <= i64::MAX,
            i64::MIN <= self@.2 + other@.2 <= i64::MAX,
        ensures
            v@ == (self@.0 + other@.0, self@.1 + other@.1, self@.2 + other@.2),
    {
        Vec3 { x: self.x + other.x, y: self.y + other.y, z: self.z + other.z }
    }

    /// Component-wise difference.
    pub fn sub(&self, other: &Vec3) -> (v: Vec3)
        requires
            i64::MIN <= self@.0 - other@.0 <= i64::MAX,
            i64::MIN <= self@.1 - other@.1 <= i64::MAX,
            i64::MIN <= self@.2 - other@.2 <= i64::MAX,
        ensures
            v@ == (self@.0 - other@.0, self@.1 - other@.1, self@.2 - other@.2),
    {
        Vec3 { x: self.x - other.x, y: self.y - other.y, z: self.z - other.z }
    }
}

/// A ray: an origin and a direction. The intersection routines read only the
/// direction and treat the ray as emanating from the zero vector; a ray built
/// with an explicit origin keeps it, but hit tests do not incorporate it.
#[derive(Clone, Copy, Debug)]
pub struct Ray {
    pub o: Vec3,
    pub dir: Vec3,
}

/// The direction `d` reflected about the axis direction `a`:
/// `d - 2 (d . a) a`, component-wise over the integers. Geometrically exact
/// only when `a` has unit square norm; the primitive does not normalize.
pub open spec fn reflect_dir(d: (int, int, int), a: (int, int, int)) -> (int, int, int) {
    (
        d.0 - 2 * dot3(d, a) * a.0,
        d.1 - 2 * dot3(d, a) * a.1,
        d.2 - 2 * dot3(d, a) * a.2,
    )
}

impl Ray {
    pub fn new(o: Vec3, dir: Vec3) -> (r: Ray)
        ensures
            r == (Ray { o, dir }),
    {
        Ray { o, dir }
    }

    /// A ray from the world origin.
    pub fn from_origin(dir: Vec3) -> (r: Ray)
        ensures
            r.o@ == (0int, 0int, 0int),
            r.dir == dir,
    {
        Ray { o: Vec3::zero(), dir }
    }

    /// Reflect this ray's direction about `axis`: the result starts at
    /// `axis.o + axis.dir` and points along `self.dir - 2 (self.dir . axis.dir)
    /// axis.dir`.
    pub fn reflected(&self, axis: &Ray) -> (r: Ray)
        requires
            in_coord_range(self.dir@),
            in_coord_range(axis.dir@),
            in_coord_range(axis.o@),
        ensures
            r.o@ == (axis.o@.0 + axis.dir@.0, axis.o@.1 + axis.dir@.1, axis.o@.2 + axis.dir@.2),
            r.dir@ == reflect_dir(self.dir@, axis.dir@),
    {
        let k: i64 = self.dir.dot(&axis.dir);
        proof {
            lemma_mul_bound(axis.dir@.0, k as int, COORD_BOUND as int, 30_000_000_000);
            lemma_mul_bound(axis.dir@.1, k as int, COORD_BOUND as int, 30_000_000_000);
            lemma_mul_bound(axis.dir@.2, k as int, COORD_BOUND as int, 30_000_000_000);
        }
        let proj: Vec3 = axis.dir.scaled(k);
        let proj2: Vec3 = proj.scaled(2);
        let dir: Vec3 = self.dir.sub(&proj2);
        let o: Vec3 = axis.o.add(&axis.dir);
        proof {
            let kk = dot3(self.dir@, axis.dir@);
            assert(axis.dir@.0 * kk * 2 == 2 * kk * axis.dir@.0) by (nonlinear_arith);
            assert(axis.dir@.1 * kk * 2 == 2 * kk * axis.dir@.1) by (nonlinear_arith);
            assert(axis.dir@.2 * kk * 2 == 2 * kk * axis.dir@.2) by (nonlinear_arith);
        }
        Ray { o, dir }
    }
}

/// Largest component magnitude an intersection point can have, given
/// `COORD_BOUND`-bounded inputs.
pub const PT_BOUND: i64 = 10_000_000_000_000_000;

/// All three components within `PT_BOUND` in magnitude.
pub open spec fn in_pt_range(p: (int, int, int)) -> bool {
    &&& -PT_BOUND <= p.0 <= PT_BOUND
    &&& -PT_BOUND <= p.1 <= PT_BOUND
    &&& -PT_BOUND <= p.2 <= PT_BOUND
}

/// The hit test for a sphere with center `c` and radius `r` against the ray
/// `t * d` from the origin: the ray touches or passes through the sphere iff
/// `r^2 |d|^2 >= |c|^2 |d|^2 - (d . c)^2`.
pub open spec fn sphere_intersects(c: (int, int, int), r: int, d: (int, int, int)) -> bool {
    r * r * norm2(d) >= norm2(c) * norm2(d) - dot3(d, c) * dot3(d, c)
}

/// Discriminant of the intersection quadratic
/// `t^2 |d|^2 - 2 t (d . c) + (|c|^2 - r^2) = 0`.
pub open spec fn sphere_disc(c: (int, int, int), r: int, d: (int, int, int)) -> int {
    dot3(d, c) * dot3(d, c) - norm2(d) * (norm2(c) - r * r)
}

/// `d` scaled by the ratio `num / den`, truncated toward zero component-wise.
pub open spec fn pt_scaled(d: (int, int, int), num: int, den: int) -> (int, int, int) {
    (tdiv(d.0 * num, den), tdiv(d.1 * num, den), tdiv(d.2 * num, den))
}

/// The intersection points of the ray `t * d` with the sphere `(c, r)`,
/// nearest root first. A negative discriminant gives no point; a zero
/// discriminant gives the single point scaled by the component sum
/// `(d.0 + d.1 + d.2) / |d|^2`; a positive discriminant gives the two points
/// scaled by `((d . c) -/+ sqrt_floor(disc)) / |d|^2`.
pub open spec fn sphere_hit_points(c: (int, int, int), r: int, d: (int, int, int)) -> Seq<
    (int, int, int),
> {
    let s = norm2(d);
    let b = dot3(d, c);
    let disc = sphere_disc(c, r, d);
    if disc < 0 {
        Seq::empty()
    } else if disc == 0 {
        seq![pt_scaled(d, d.0 + d.1 + d.2, s)]
    } else {
        seq![pt_scaled(d, b - sqrt_floor(disc), s), pt_scaled(d, b + sqrt_floor(disc), s)]
    }
}

/// The boolean hit test and the hit-point computation agree: a sphere
/// intersects a ray exactly when the list of intersection points is
/// non-empty, for every sphere and every ray direction with positive square
/// norm.
pub proof fn lemma_intersects_iff_hit_points(c: (int, int, int), r: int, d: (int, int, int))
    requires
        norm2(d) > 0,
    ensures
        sphere_intersects(c, r, d) <==> sphere_hit_points(c, r, d).len() > 0,
{
    assert(norm2(d) * (norm2(c) - r * r) == norm2(c) * norm2(d) - r * r * norm2(d))
        by (nonlinear_arith);
}

/// Dot product of two coordinate vectors, computed in `i128`.
fn dot3_i128(a: &Vec3, b: &Vec3) -> (d: i128)
    requires
        in_coord_range(a@),
        in_coord_range(b@),
    ensures
        d == dot3(a@, b@),
        -30_000_000_000 <= d <= 30_000_000_000,
{
    proof {
        lemma_mul_bound(a@.0, b@.0, COORD_BOUND as int, COORD_BOUND as int);
        lemma_mul_bound(a@.1, b@.1, COORD_BOUND as int, COORD_BOUND as int);
        lemma_mul_bound(a@.2, b@.2, COORD_BOUND as int, COORD_BOUND as int);
    }
    (a.x as i128) * (b.x as i128) + (a.y as i128) * (b.y as i128) + (a.z as i128) * (b.z as i128)
}

/// `d` scaled by `num / den`, truncated toward zero component-wise.
fn scale_dir(d: &Vec3, num: i128, den: i128) -> (p: Vec3)
    requires
        in_coord_range(d@),
        1 <= den,
        -100_000_000_000 <= num <= 100_000_000_000,
    ensures
        p@ == pt_scaled(d@, num as int, den as int),
        in_pt_range(p@),
{
    proof {
        lemma_mul_bound(d@.0, num as int, COORD_BOUND as int, 100_000_000_000);
        lemma_mul_bound(d@.1, num as int, COORD_BOUND as int, 100_000_000_000);
        lemma_mul_bound(d@.2, num as int, COORD_BOUND as int, 100_000_000_000);
    }
    let px: i128 = div_trunc_i128((d.x as i128) * num, den);
    let py: i128 = div_trunc_i128((d.y as i128) * num, den);
    let pz: i128 = div_trunc_i128((d.z as i128) * num, den);
    Vec3 { x: px as i64, y: py as i64, z: pz as i64 }
}

/// A sphere: center, radius, and shading attributes. Only the luminosity
/// affects the rendered image; color and the reflectances are carried for
/// forward extensibility.
#[derive(Clone, Copy, Debug)]
pub struct Sphere {
    pub c: Vec3,
    pub r: i64,
    pub color: Color,
    pub lum: u8,
    pub specular: u8,
    pub diffuse: u8,
}

impl Sphere {
    /// Valid geometry: a bounded center and a non-negative bounded radius.
    pub open spec fn wf(self) -> bool {
        in_coord_range(self.c@) && 0 <= self.r <= COORD_BOUND
    }

    /// A sphere with the default shading attributes: white, luminosity 10,
    /// full specular and diffuse reflectance.
    pub fn new(c: Vec3, r: i64) -> (s: Sphere)
        requires
            in_coord_range(c@),
            0 <= r <= COORD_BOUND,
        ensures
            s == (Sphere {
                c,
                r,
                color: Color { r: 255u8, g: 255u8, b: 255u8 },
                lum: 10u8,
                specular: 255u8,
                diffuse: 255u8,
            }),
            s.wf(),
    {
        Sphere {
            c,
            r,
            color: Color { r: 255, g: 255, b: 255 },
            lum: 10,
            specular: 255,
            diffuse: 255,
        }
    }

    pub fn set_color(&mut self, color: Color)
        ensures
            *final(self) == (Sphere { color, ..*old(self) }),
    {
        self.color = color;
    }

    pub fn set_lum(&mut self, lum: u8)
        ensures
            *final(self) == (Sphere { lum, ..*old(self) }),
    {
        self.lum = lum;
    }

    pub fn set_spec(&mut self, spec_refl: u8)
        ensures
            *final(self) == (Sphere { specular: spec_refl, ..*old(self) }),
    {
        self.specular = spec_refl;
    }

    pub fn set_diff(&mut self, diff: u8)
        ensures
            *final(self) == (Sphere { diffuse: diff, ..*old(self) }),
    {
        self.diffuse = diff;
    }

    pub fn get_luminosity(&self) -> (l: u8)
        ensures
            l == self.lum,
    {
        self.lum
    }

    /// Whether the ray `t * ray.dir` from the origin touches or passes
    /// through this sphere.
    pub fn intersects(&self, ray: &Ray) -> (hit: bool)
        requires
            self.wf(),
            in_coord_range(ray.dir@),
        ensures
            hit == sphere_intersects(self.c@, self.r as int, ray.dir@),
    {
        let s128: i128 = dot3_i128(&ray.dir, &ray.dir);
        let n128: i128 = dot3_i128(&self.c, &self.c);
        let b128: i128 = dot3_i128(&ray.dir, &self.c);
        proof {
            lemma_mul_bound(self.r as int, self.r as int, COORD_BOUND as int, COORD_BOUND as int);
        }
        let r2: i128 = (self.r as i128) * (self.r as i128);
        proof {
            lemma_mul_bound(r2 as int, s128 as int, 10_000_000_000, 30_000_000_000);
            lemma_mul_bound(n128 as int, s128 as int, 30_000_000_000, 30_000_000_000);
            lemma_mul_bound(b128 as int, b128 as int, 30_000_000_000, 30_000_000_000);
        }
        let lhs: i128 = r2 * s128;
        let rhs: i128 = n128 * s128 - b128 * b128;
        lhs >= rhs
    }

    /// The intersection points of the ray `t * ray.dir` with this sphere,
    /// nearest root first, as `sphere_hit_points` states them.
    pub fn intersects_at(&self, ray: &Ray) -> (pts: Vec<Vec3>)
        requires
            self.wf(),
            in_coord_range(ray.dir@),
            norm2(ray.dir@) > 0,
        ensures
            pts@.map_values(|p: Vec3| p@) == sphere_hit_points(self.c@, self.r as int, ray.dir@),
            forall|i: int| 0 <= i < pts@.len() ==> in_pt_range(#[trigger] pts@[i]@),
    {
        let ghost cd = self.c@;
        let ghost rd = ray.dir@;
        let ghost rr = self.r as int;
        let s128: i128 = dot3_i128(&ray.dir, &ray.dir);
        let n128: i128 = dot3_i128(&self.c, &self.c);
        let b128: i128 = dot3_i128(&ray.dir, &self.c);
        proof {
            lemma_mul_bound(self.r as int, self.r as int, COORD_BOUND as int, COORD_BOUND as int);
        }
        let r2: i128 = (self.r as i128) * (self.r as i128);
        proof {
            lemma_mul_bound(b128 as int, b128 as int, 30_000_000_000, 30_000_000_000);
            lemma_mul_bound(s128 as int, n128 as int - r2 as int, 30_000_000_000, 40_000_000_000);
        }
        let disc: i128 = b128 * b128 - s128 * (n128 - r2);
        proof {
            assert(disc == sphere_disc(cd, rr, rd));
        }
        if disc < 0 {
            let pts: Vec<Vec3> = Vec::new();
            proof {
                assert(pts@.map_values(|p: Vec3| p@) =~= sphere_hit_points(cd, rr, rd));
            }
            return pts;
        }
        if disc == 0 {
            let numsum: i64 = ray.dir.x + ray.dir.y + ray.dir.z;
            let p: Vec3 = scale_dir(&ray.dir, numsum as i128, s128);
            let mut pts: Vec<Vec3> = Vec::new();
            pts.push(p);
            proof {
                assert(pts@.map_values(|p: Vec3| p@) =~= sphere_hit_points(cd, rr, rd));
            }
            return pts;
        }
        let sd_u: u128 = isqrt_u128(disc as u128);
        let sd: i128 = sd_u as i128;
        proof {
            assert(50_000_000_001int * 50_000_000_001int == 2_500_000_000_100_000_000_001int);
            if sd_u > 50_000_000_000 {
                lemma_sq_mono(50_000_000_001, sd_u as int);
                assert(false);
            }
        }
        let num1: i128 = b128 - sd;
        let num2: i128 = b128 + sd;
        let p1: Vec3 = scale_dir(&ray.dir, num1, s128);
        let p2: Vec3 = scale_dir(&ray.dir, num2, s128);
        let mut pts: Vec<Vec3> = Vec::new();
        pts.push(p1);
        pts.push(p2);
        proof {
            assert(pts@.map_values(|p: Vec3| p@) =~= sphere_hit_points(cd, rr, rd));
        }
        pts
    }
}

/// Anything a ray can strike: a closed set of render primitives. Each
/// variant answers the hit test, the hit-point computation, and a luminosity.
#[derive(Clone, Copy, Debug)]
pub enum Renderable {
    Sphere(Sphere),
}

impl Renderable {
    pub open spec fn wf(self) -> bool {
        match self {
            Renderable::Sphere(s) => s.wf(),
        }
    }

    pub open spec fn spec_luminosity(self) -> u8 {
        match self {
            Renderable::Sphere(s) => s.lum,
        }
    }

    pub open spec fn spec_intersects(self, d: (int, int, int)) -> bool {
        match self {
            Renderable::Sphere(s) => sphere_intersects(s.c@, s.r as int, d),
        }
    }

    pub open spec fn spec_hit_points(self, d: (int, int, int)) -> Seq<(int, int, int)> {
        match self {
            Renderable::Sphere(s) => sphere_hit_points(s.c@, s.r as int, d),
        }
    }

    pub fn intersects(&self, ray: &Ray) -> (hit: bool)
        requires
            self.wf(),
            in_coord_range(ray.dir@),
        ensures
            hit == self.spec_intersects(ray.dir@),
    {
        match self {
            Renderable::Sphere(s) => s.intersects(ray),
        }
    }

    pub fn intersects_at(&self, ray: &Ray) -> (pts: Vec<Vec3>)
        requires
            self.wf(),
            in_coord_range(ray.dir@),
            norm2(ray.dir@) > 0,
        ensures
            pts@.map_values(|p: Vec3| p@) == self.spec_hit_points(ray.dir@),
            forall|i: int| 0 <= i < pts@.len() ==> in_pt_range(#[trigger] pts@[i]@),
    {
        match self {
            Renderable::Sphere(s) => s.intersects_at(ray),
        }
    }

    pub fn get_luminosity(&self) -> (l: u8)
        ensures
            l == self.spec_luminosity(),
    {
        match self {
            Renderable::Sphere(s) => s.get_luminosity(),
        }
    }
}

/// `lemma_intersects_iff_hit_points` lifted to renderables: for any object
/// and any direction with positive square norm, the hit test is true exactly
/// when the list of hit points is non-empty.
pub proof fn lemma_renderable_hit_symmetry(o: Renderable, d: (int, int, int))
    requires
        norm2(d) > 0,
    ensures
        o.spec_intersects(d) <==> o.spec_hit_points(d).len() > 0,
{
    match o {
        Renderable::Sphere(s) => lemma_intersects_iff_hit_points(s.c@, s.r as int, d),
    }
}

} // verus!
