use vstd::prelude::*;

use crate::color::Color;
use crate::color::spec_black;
use crate::color::spec_gray;
use crate::geometry::PT_BOUND;
use crate::geometry::Ray;
use crate::geometry::Renderable;
use crate::geometry::Vec3;
use crate::geometry::in_coord_range;
use crate::geometry::lemma_mul_bound;
use crate::geometry::lemma_sq_nonneg;
use crate::geometry::norm2;

verus! {

/// Distance at which a ray first strikes `o`: the squared norm of the first
/// reported intersection point, or `None` when the ray misses.
pub open spec fn first_hit_dist(o: Renderable, d: (int, int, int)) -> Option<int> {
    let pts = o.spec_hit_points(d);
    if pts.len() == 0 {
        None
    } else {
        Some(norm2(pts[0]))
    }
}

/// Fold one object into the running nearest hit `(distance, luminosity)`:
/// a later object displaces the current best only with a strictly smaller
/// distance, so the first object encountered wins ties.
pub open spec fn combine_closest(
    acc: Option<(int, u8)>,
    o: Renderable,
    d: (int, int, int),
) -> Option<(int, u8)> {
    match first_hit_dist(o, d) {
        None => acc,
        Some(dist) => match acc {
            None => Some((dist, o.spec_luminosity())),
            Some(best) => if dist < best.0 {
                Some((dist, o.spec_luminosity()))
            } else {
                acc
            },
        },
    }
}

/// The nearest hit among the first `n` objects, scanned in insertion order.
pub open spec fn closest_hit_prefix(
    objs: Seq<Renderable>,
    n: int,
    d: (int, int, int),
) -> Option<(int, u8)>
    decreases n,
{
    if n <= 0 {
        None
    } else {
        combine_closest(closest_hit_prefix(objs, n - 1, d), objs[n - 1], d)
    }
}

/// The nearest hit among all objects.
pub open spec fn closest_hit(objs: Seq<Renderable>, d: (int, int, int)) -> Option<(int, u8)> {
    closest_hit_prefix(objs, objs.len() as int, d)
}

/// The color a ray with direction `d` produces: the luminosity of the nearest
/// object it strikes as a gray triple, or black when it strikes none.
pub open spec fn pixel_color(objs: Seq<Renderable>, d: (int, int, int)) -> Color {
    match closest_hit(objs, d) {
        None => spec_black(),
        Some(best) => spec_gray(best.1),
    }
}

/// The ray direction for pixel `(x, y)` of a `w` by `h` viewport at distance
/// `vd`: `(x - w/2, y - h/2, vd)`, doubled so that the half-pixel offsets of
/// odd dimensions stay exact integers.
pub open spec fn view_dir(x: int, y: int, w: int, h: int, vd: int) -> (int, int, int) {
    (2 * x - w, 2 * y - h, 2 * vd)
}

/// An ordered collection of renderable objects, scanned per pixel during
/// capture; insertion order breaks distance ties.
pub struct Scene {
    pub objs: Vec<Renderable>,
}

impl Scene {
    /// All objects hold valid geometry.
    pub open spec fn wf(self) -> bool {
        forall|i: int| 0 <= i < self.objs@.len() ==> (#[trigger] self.objs@[i]).wf()
    }

    pub fn new() -> (s: Scene)
        ensures
            s.objs@.len() == 0,
            s.wf(),
    {
        Scene { objs: Vec::new() }
    }

    /// Append an object; nothing is ever removed.
    pub fn add_obj(&mut self, obj: Renderable)
        requires
            old(self).wf(),
            obj.wf(),
        ensures
            final(self).objs@ == old(self).objs@.push(obj),
            final(self).wf(),
    {
        self.objs.push(obj);
    }

    /// Render the scene: cast one ray per pixel from the origin through the
    /// viewport and paint the luminosity of the nearest object hit, leaving
    /// missed pixels black.
    pub fn capture(&self, width: usize, height: usize, viewport_distance: i64) -> (cap: Capture)
        requires
            self.wf(),
            1 <= width <= 50_000,
            1 <= height <= 50_000,
            1 <= viewport_distance <= 50_000,
        ensures
            cap.wf(),
            cap.width == width,
            cap.height == height,
            forall|xx: int, yy: int|
                0 <= xx < width && 0 <= yy < height ==> #[trigger] cap@[yy][xx] == pixel_color(
                    self.objs@,
                    view_dir(xx, yy, width as int, height as int, viewport_distance as int),
                ),
    {
        let mut pixels: Vec<Vec<Color>> = Vec::new();
        let mut yy: usize = 0;
        while yy < height
            invariant
                self.wf(),
                1 <= width <= 50_000,
                1 <= height <= 50_000,
                1 <= viewport_distance <= 50_000,
                yy <= height,
                pixels@.len() == yy as int,
                forall|j: int| 0 <= j < yy ==> (#[trigger] pixels@[j])@.len() == width as int,
                forall|i: int, j: int|
                    0 <= i < width && 0 <= j < yy ==> #[trigger] pixels@[j]@[i] == pixel_color(
                        self.objs@,
                        view_dir(i, j, width as int, height as int, viewport_distance as int),
                    ),
            decreases height - yy,
        {
            let mut row: Vec<Color> = Vec::new();
            let mut xx: usize = 0;
            while xx < width
                invariant
                    self.wf(),
                    1 <= width <= 50_000,
                    1 <= height <= 50_000,
                    1 <= viewport_distance <= 50_000,
                    yy < height,
                    xx <= width,
                    row@.len() == xx as int,
                    forall|i: int|
                        0 <= i < xx ==> #[trigger] row@[i] == pixel_color(
                            self.objs@,
                            view_dir(
                                i,
                                yy as int,
                                width as int,
                                height as int,
                                viewport_distance as int,
                            ),
                        ),
                decreases width - xx,
            {
                let dx: i64 = 2 * (xx as i64) - (width as i64);
                let dy: i64 = 2 * (yy as i64) - (height as i64);
                let dz: i64 = 2 * viewport_distance;
                let dir: Vec3 = Vec3::new(dx, dy, dz);
                proof {
                    lemma_sq_nonneg(dir@.0);
                    lemma_sq_nonneg(dir@.1);
                    assert(dir@.2 * dir@.2 > 0) by (nonlinear_arith)
                        requires
                            dir@.2 >= 2,
                    ;
                }
                let col: Color = compute_pixel(&self.objs, dir);
                row.push(col);
                xx += 1;
            }
            pixels.push(row);
            yy += 1;
        }
        Capture { width, height, pixels }
    }
}

/// Scan all objects and return the color for the ray along `dir`.
fn compute_pixel(objs: &Vec<Renderable>, dir: Vec3) -> (col: Color)
    requires
        forall|i: int| 0 <= i < objs@.len() ==> (#[trigger] objs@[i]).wf(),
        in_coord_range(dir@),
        norm2(dir@) > 0,
    ensures
        col == pixel_color(objs@, dir@),
{
    let ray: Ray = Ray::from_origin(dir);
    let mut best: Option<(i128, u8)> = None;
    let mut i: usize = 0;
    while i < objs.len()
        invariant
            forall|k: int| 0 <= k < objs@.len() ==> (#[trigger] objs@[k]).wf(),
            in_coord_range(dir@),
            norm2(dir@) > 0,
            ray.dir == dir,
            i <= objs@.len(),
            match (best, closest_hit_prefix(objs@, i as int, dir@)) {
                (None, None) => true,
                (Some(e), Some(g)) => e.0 == g.0 && e.1 == g.1,
                _ => false,
            },
        decreases objs@.len() - i,
    {
        let ghost prev = closest_hit_prefix(objs@, i as int, dir@);
        let pts: Vec<Vec3> = objs[i].intersects_at(&ray);
        let ghost sp = objs@[i as int].spec_hit_points(dir@);
        proof {
            assert(sp == pts@.map_values(|p: Vec3| p@));
            assert(sp.len() == pts@.len());
        }
        if pts.len() > 0 {
            let p: Vec3 = pts[0];
            proof {
                assert(sp[0] == pts@[0]@);
                lemma_mul_bound(p@.0, p@.0, PT_BOUND as int, PT_BOUND as int);
                lemma_mul_bound(p@.1, p@.1, PT_BOUND as int, PT_BOUND as int);
                lemma_mul_bound(p@.2, p@.2, PT_BOUND as int, PT_BOUND as int);
            }
            let px: i128 = p.x as i128;
            let py: i128 = p.y as i128;
            let pz: i128 = p.z as i128;
            let dist: i128 = px * px + py * py + pz * pz;
            proof {
                assert(dist == norm2(sp[0]));
                assert(first_hit_dist(objs@[i as int], dir@) == Some(dist as int));
            }
            let lum: u8 = objs[i].get_luminosity();
            match best {
                None => { best = Some((dist, lum)); },
                Some((bd, _)) => {
                    if dist < bd {
                        best = Some((dist, lum));
                    }
                },
            }
        } else {
            proof {
                assert(first_hit_dist(objs@[i as int], dir@) is None);
            }
        }
        proof {
            assert(closest_hit_prefix(objs@, i as int + 1, dir@) == combine_closest(
                prev,
                objs@[i as int],
                dir@,
            ));
        }
        i += 1;
    }
    match best {
        None => Color::black(),
        Some((_, l)) => Color::gray(l),
    }
}

/// A dense grid of RGB pixels: the rendered image. Rows are indexed by `y`,
/// columns by `x`; the view is the sequence of rows.
pub struct Capture {
    pub width: usize,
    pub height: usize,
    pub pixels: Vec<Vec<Color>>,
}

impl View for Capture {
    type V = Seq<Seq<Color>>;

    open spec fn view(&self) -> Seq<Seq<Color>> {
        self.pixels@.map_values(|row: Vec<Color>| row@)
    }
}

impl Capture {
    /// A `height` by `width` rectangular grid.
    pub open spec fn wf(self) -> bool {
        &&& self@.len() == self.height
        &&& forall|j: int| 0 <= j < self@.len() ==> (#[trigger] self@[j]).len() == self.width
    }

    /// A grid of the given `(width, height)`, initialized to black.
    pub fn new(dims: (usize, usize)) -> (cap: Capture)
        ensures
            cap.wf(),
            cap.width == dims.0,
            cap.height == dims.1,
            forall|xx: int, yy: int|
                0 <= xx < dims.0 && 0 <= yy < dims.1 ==> #[trigger] cap@[yy][xx] == spec_black(),
    {
        let mut pixels: Vec<Vec<Color>> = Vec::new();
        let mut yy: usize = 0;
        while yy < dims.1
            invariant
                yy <= dims.1,
                pixels@.len() == yy as int,
                forall|j: int| 0 <= j < yy ==> (#[trigger] pixels@[j])@.len() == dims.0 as int,
                forall|i: int, j: int|
                    0 <= i < dims.0 && 0 <= j < yy ==> #[trigger] pixels@[j]@[i] == spec_black(),
            decreases dims.1 - yy,
        {
            let mut row: Vec<Color> = Vec::new();
            let mut xx: usize = 0;
            while xx < dims.0
                invariant
                    xx <= dims.0,
                    row@.len() == xx as int,
                    forall|i: int| 0 <= i < xx ==> #[trigger] row@[i] == spec_black(),
                decreases dims.0 - xx,
            {
                row.push(Color::black());
                xx += 1;
            }
            pixels.push(row);
            yy += 1;
        }
        Capture { width: dims.0, height: dims.1, pixels }
    }

    /// Write one pixel. Out-of-range coordinates are rejected: the grid is
    /// unchanged and `false` comes back.
    pub fn set_pixel(&mut self, coords: (usize, usize), color: Color) -> (ok: bool)
        requires
            old(self).wf(),
        ensures
            final(self).wf(),
            final(self).width == old(self).width,
            final(self).height == old(self).height,
            ok == (coords.0 < old(self).width && coords.1 < old(self).height),
            ok ==> final(self)@ == old(self)@.update(
                coords.1 as int,
                old(self)@[coords.1 as int].update(coords.0 as int, color),
            ),
            !ok ==> final(self)@ == old(self)@,
    {
        if coords.0 < self.width && coords.1 < self.height {
            proof {
                assert(self@.len() == self.pixels@.len());
                assert(self@[coords.1 as int] == self.pixels@[coords.1 as int]@);
            }
            self.pixels[coords.1][coords.0] = color;
            proof {
                assert(final(self)@ =~~= old(self)@.update(
                    coords.1 as int,
                    old(self)@[coords.1 as int].update(coords.0 as int, color),
                ));
            }
            true
        } else {
            false
        }
    }

    /// Read one pixel; out-of-range coordinates give `None`.
    pub fn get_pixel(&self, coords: (usize, usize)) -> (p: Option<Color>)
        requires
            self.wf(),
        ensures
            coords.0 < self.width && coords.1 < self.height ==> p == Some(
                self@[coords.1 as int][coords.0 as int],
            ),
            !(coords.0 < self.width && coords.1 < self.height) ==> p is None,
    {
        if coords.0 < self.width && coords.1 < self.height {
            proof {
                assert(self@.len() == self.pixels@.len());
                assert(self@[coords.1 as int] == self.pixels@[coords.1 as int]@);
            }
            Some(self.pixels[coords.1][coords.0])
        } else {
            None
        }
    }
}

/// Occlusion: when a ray strikes two objects and `a`'s first hit is strictly
/// nearer than `b`'s, the ray's pixel is `a`'s luminosity, whichever order
/// the two were added in.
pub proof fn lemma_occlusion_order_independent(
    a: Renderable,
    b: Renderable,
    d: (int, int, int),
    da: int,
    db: int,
)
    requires
        first_hit_dist(a, d) == Some(da),
        first_hit_dist(b, d) == Some(db),
        da < db,
    ensures
        pixel_color(seq![a, b], d) == spec_gray(a.spec_luminosity()),
        pixel_color(seq![b, a], d) == spec_gray(a.spec_luminosity()),
{
    let sab = seq![a, b];
    let sba = seq![b, a];
    assert(closest_hit_prefix(sab, 0, d) == None::<(int, u8)>);
    assert(closest_hit_prefix(sab, 1, d) == combine_closest(None, a, d));
    assert(closest_hit_prefix(sab, 2, d) == combine_closest(
        closest_hit_prefix(sab, 1, d),
        b,
        d,
    ));
    assert(closest_hit_prefix(sba, 0, d) == None::<(int, u8)>);
    assert(closest_hit_prefix(sba, 1, d) == combine_closest(None, b, d));
    assert(closest_hit_prefix(sba, 2, d) == combine_closest(
        closest_hit_prefix(sba, 1, d),
        a,
        d,
    ));
}

/// Capturing an unchanged scene twice with the same dimensions and viewport
/// distance yields identical grids: the capture contract pins every pixel, so
/// any two results agree everywhere.
pub proof fn lemma_capture_deterministic(
    s: &Scene,
    width: usize,
    height: usize,
    viewport_distance: i64,
    c1: &Capture,
    c2: &Capture,
)
    requires
        c1.wf(),
        c1.width == width,
        c1.height == height,
        forall|xx: int, yy: int|
            0 <= xx < width && 0 <= yy < height ==> #[trigger] c1@[yy][xx] == pixel_color(
                s.objs@,
                view_dir(xx, yy, width as int, height as int, viewport_distance as int),
            ),
        c2.wf(),
        c2.width == width,
        c2.height == height,
        forall|xx: int, yy: int|
            0 <= xx < width && 0 <= yy < height ==> #[trigger] c2@[yy][xx] == pixel_color(
                s.objs@,
                view_dir(xx, yy, width as int, height as int, viewport_distance as int),
            ),
    ensures
        c1@ == c2@,
{
    assert forall|yy: int| 0 <= yy < height implies c1@[yy] =~= c2@[yy] by {
        assert(c1@[yy].len() == width);
        assert(c2@[yy].len() == width);
        assert forall|xx: int| 0 <= xx < width implies c1@[yy][xx] == c2@[yy][xx] by {
            assert(c1@[yy][xx] == pixel_color(
                s.objs@,
                view_dir(xx, yy, width as int, height as int, viewport_distance as int),
            ));
            assert(c2@[yy][xx] == pixel_color(
                s.objs@,
                view_dir(xx, yy, width as int, height as int, viewport_distance as int),
            ));
        }
    }
    assert(c1@ =~~= c2@);
}

} // verus!
