use vstd::prelude::*;
use crate::canvas::{image_pixels, lemma_painted_union};
use crate::color::Color;
use crate::line::{Line, line_seq};
use crate::point::{Point, coord_ok};
use crate::shape::Drawable;

verus! {

/// The largest radius the pentagon accepts; it keeps the fourth powers in
/// the vertex derivation inside `u128`.
pub const PENTAGON_RADIUS_LIMIT: i32 = 0x10_0000;

/// A regular pentagon: a center and a radius. Its five vertices are derived
/// analytically and its edges drawn as line segments.
#[derive(Debug, Clone, Copy, PartialEq, Eq, Structural)]
pub struct Pentagon {
    pub center: Point,
    pub radius: i32,
}

/// The integer square root: the largest `s` with `s * s <= n` (0 for
/// negative input).
pub open spec fn sqrt_floor(n: int) -> int
    decreases n,
{
    if n < 1 {
        0
    } else {
        let s = sqrt_floor(n - 1);
        if (s + 1) * (s + 1) <= n {
            s + 1
        } else {
            s
        }
    }
}

pub proof fn lemma_sqrt_floor_props(n: int)
    requires
        n >= 0,
    ensures
        sqrt_floor(n) >= 0,
        sqrt_floor(n) * sqrt_floor(n) <= n,
        n < (sqrt_floor(n) + 1) * (sqrt_floor(n) + 1),
    decreases n,
{
    if n == 0 {
    } else {
        lemma_sqrt_floor_props(n - 1);
        let s = sqrt_floor(n - 1);
        if (s + 1) * (s + 1) <= n {
            assert(n - 1 < (s + 1) * (s + 1));
            assert(n == (s + 1) * (s + 1));
            assert((s + 2) * (s + 2) > (s + 1) * (s + 1)) by (nonlinear_arith)
                requires
                    s >= 0,
            ;
        }
    }
}

/// The square-root floor is the unique `s` with `s*s <= n < (s+1)*(s+1)`.
pub proof fn lemma_sqrt_floor_unique(n: int, s: int)
    requires
        n >= 0,
        s >= 0,
        s * s <= n,
        n < (s + 1) * (s + 1),
    ensures
        s == sqrt_floor(n),
{
    lemma_sqrt_floor_props(n);
    let f = sqrt_floor(n);
    if s < f {
        assert((s + 1) * (s + 1) <= f * f) by (nonlinear_arith)
            requires
                0 <= s + 1 <= f,
        ;
        assert(false);
    }
    if s > f {
        assert((f + 1) * (f + 1) <= s * s) by (nonlinear_arith)
            requires
                0 <= f + 1 <= s,
        ;
        assert(false);
    }
}

/// `floor(sqrt(5) * r)`: the scaled cosine magnitude shared by the four
/// slanted vertices, since `cos 72 = (sqrt(5) - 1) / 4` and
/// `cos 144 = -(sqrt(5) + 1) / 4`.
pub open spec fn pent_scaled_cos(r: int) -> int {
    sqrt_floor(5 * r * r)
}

/// `floor(sqrt(10 + 2 sqrt 5) * r)`: the scaled `sin 72`, computed through
/// nested integer square roots; the floor survives both nestings because no
/// integer square can fall inside the sub-unit gap.
pub open spec fn pent_scaled_sin72(r: int) -> int {
    sqrt_floor(10 * r * r + sqrt_floor(20 * r * r * r * r))
}

/// `floor(sqrt(10 - 2 sqrt 5) * r)`: the scaled `sin 36`. Here the inner
/// root is subtracted, so when the remainder is a perfect square and the
/// inner root was not exact, the true value lies just below it and the floor
/// steps back by one.
pub open spec fn pent_scaled_sin36(r: int) -> int {
    let u = sqrt_floor(20 * r * r * r * r);
    let c0 = 10 * r * r - u;
    let s = sqrt_floor(c0);
    if s * s == c0 && u * u != 20 * r * r * r * r {
        s - 1
    } else {
        s
    }
}

/// Vertex `k` of the pentagon: `center + radius * (cos, sin)(2*pi*k/5)`,
/// each real coordinate truncated toward zero.
pub open spec fn pentagon_vertex(c: Point, r: int, k: int) -> (int, int) {
    let cx = c.x as int;
    let cy = c.y as int;
    let x1 = (pent_scaled_cos(r) - r) / 4;
    let x2 = (pent_scaled_cos(r) + r) / 4;
    let y1 = pent_scaled_sin72(r) / 4;
    let y2 = pent_scaled_sin36(r) / 4;
    if k == 0 {
        (cx + r, cy)
    } else if k == 1 {
        (cx + x1, cy + y1)
    } else if k == 2 {
        (cx - x2, cy + y2)
    } else if k == 3 {
        (cx - x2, cy - y2)
    } else if k == 4 {
        (cx + x1, cy - y1)
    } else {
        (cx, cy)
    }
}

/// Vertex `k` as a point value.
pub open spec fn pentagon_vertex_pt(c: Point, r: int, k: int) -> Point {
    let v = pentagon_vertex(c, r, k);
    Point { x: v.0 as i32, y: v.1 as i32 }
}

/// Edge `k` of the pentagon: vertex `k` to vertex `(k + 1) mod 5`.
pub open spec fn pentagon_edge(c: Point, r: int, k: int) -> (Point, Point) {
    (pentagon_vertex_pt(c, r, k), pentagon_vertex_pt(c, r, if k == 4 { 0 } else { k + 1 }))
}

/// The five edges form a closed loop: edge `k` ends exactly where edge
/// `(k + 1) mod 5` begins.
pub proof fn lemma_pentagon_closed(c: Point, r: int)
    ensures
        forall|k: int|
            0 <= k < 5 ==> (#[trigger] pentagon_edge(c, r, k)).1 == pentagon_edge(
                c,
                r,
                if k == 4 { 0int } else { k + 1 },
            ).0,
{
}

/// Binary-search integer square root.
fn isqrt(n: u128) -> (s: u128)
    requires
        (n as int) < 0x40_0000_0000_0000_0000_0000,
    ensures
        s as int == sqrt_floor(n as int),
        s as int * s as int <= n as int,
        (n as int) < (s as int + 1) * (s as int + 1),
{
    let mut lo: u128 = 0;
    let mut hi: u128 = 0x800_0000_0000;
    proof {
        assert((0x800_0000_0000 as int) * (0x800_0000_0000 as int) == 0x40_0000_0000_0000_0000_0000)
            by (nonlinear_arith);
    }
    while lo + 1 < hi
        invariant
            lo < hi <= 0x800_0000_0000,
            lo as int * lo as int <= n as int,
            (n as int) < hi as int * hi as int,
        decreases hi - lo,
    {
        let mid = lo + (hi - lo) / 2;
        proof {
            assert((mid as int) * (mid as int) < 0x40_0000_0000_0000_0000_0000int)
                by (nonlinear_arith)
                requires
                    0 <= mid as int && (mid as int) < 0x800_0000_0000,
            ;
        }
        if mid * mid <= n {
            lo = mid;
        } else {
            hi = mid;
        }
    }
    proof {
        lemma_sqrt_floor_unique(n as int, lo as int);
    }
    lo
}

impl Pentagon {
    /// The radius is non-negative and within the derivation's limit, and the
    /// whole pentagon stays inside the rasterizers' working range.
    pub open spec fn fits_spec(&self) -> bool {
        &&& 0 <= self.radius <= PENTAGON_RADIUS_LIMIT
        &&& -crate::point::COORD_LIMIT <= self.center.x - self.radius
        &&& self.center.x + self.radius <= crate::point::COORD_LIMIT
        &&& -crate::point::COORD_LIMIT <= self.center.y - self.radius
        &&& self.center.y + self.radius <= crate::point::COORD_LIMIT
    }

    pub fn new(center: Point, radius: i32) -> (p: Pentagon)
        ensures
            p == (Pentagon { center, radius }),
    {
        Pentagon { center, radius }
    }

    /// A pentagon with a uniformly random center on a canvas of the given
    /// dimensions and a random radius.
    pub fn random(width: i32, height: i32) -> (p: Pentagon)
        requires
            0 < width,
            0 < height,
        ensures
            0 <= p.center.x < width,
            0 <= p.center.y < height,
            30 <= p.radius < 100,
    {
        let mut rng = crate::rng::fresh_rng();
        Pentagon {
            center: Point::random(width, height),
            radius: crate::rng::rand_range(&mut rng, 30, 100),
        }
    }

    /// Derive the five vertices analytically, in integer arithmetic alone.
    pub fn get_vertices(&self) -> (v: Vec<Point>)
        requires
            self.fits_spec(),
        ensures
            v@.len() == 5,
            forall|k: int|
                0 <= k < 5 ==> #[trigger] v@[k] == pentagon_vertex_pt(
                    self.center,
                    self.radius as int,
                    k,
                ),
            forall|k: int| 0 <= k < 5 ==> coord_ok(#[trigger] v@[k]),
    {
        let cx = self.center.x;
        let cy = self.center.y;
        let r = self.radius;
        let ghost ri = r as int;
        let r128 = r as u128;
        proof {
            assert(0 <= ri * ri && 5 * ri * ri <= 10 * ri * ri && 10 * ri * ri + 5 * ri * ri
                == 15 * ri * ri && 5 * ri * ri < 0x40_0000_0000_0000_0000_0000 && 10 * ri * ri
                < 0x40_0000_0000_0000_0000_0000 && 20 * ri * ri
                < 0x40_0000_0000_0000_0000_0000 && 20 * ri * ri * ri
                < 0x40_0000_0000_0000_0000_0000 && 20 * ri * ri * ri * ri
                < 0x40_0000_0000_0000_0000_0000 && 10 * ri * ri + 5 * ri * ri
                < 0x40_0000_0000_0000_0000_0000) by (nonlinear_arith)
                requires
                    0 <= ri <= 0x10_0000,
            ;
        }
        let five_r2 = 5 * r128 * r128;
        let twenty_r4 = 20 * r128 * r128 * r128 * r128;
        let ten_r2 = 10 * r128 * r128;
        proof {
            assert(r128 as int == ri);
            assert(five_r2 as int == 5 * ri * ri);
            assert(twenty_r4 as int == 20 * ri * ri * ri * ri);
            assert(ten_r2 as int == 10 * ri * ri);
        }
        let s5 = isqrt(five_r2);
        let u20 = isqrt(twenty_r4);
        proof {
            // the inner root stays below 5 r^2, so the subtraction is safe
            assert(u20 as int <= 5 * ri * ri) by (nonlinear_arith)
                requires
                    0 <= ri,
                    u20 as int >= 0,
                    u20 as int * u20 as int <= 20 * ri * ri * ri * ri,
            ;
            // the scaled cosine is at least r
            assert(s5 as int >= ri) by (nonlinear_arith)
                requires
                    0 <= ri,
                    s5 as int >= 0,
                    (5 * ri * ri) < (s5 as int + 1) * (s5 as int + 1),
            ;
            // the scaled cosine is at most 3 r, so it fits far inside i32
            assert(s5 as int <= 3 * ri) by (nonlinear_arith)
                requires
                    ri >= 0,
                    s5 as int >= 0,
                    s5 as int * s5 as int <= 5 * ri * ri,
            ;
        }
        proof {
            assert(ri * ri >= 0) by (nonlinear_arith);
        }
        let a1 = ten_r2 + u20;
        let t1 = isqrt(a1);
        let c0 = ten_r2 - u20;
        let sq = isqrt(c0);
        proof {
            assert(t1 as int * t1 as int <= 15 * ri * ri);
            assert(sq as int * sq as int <= 10 * ri * ri);
        }
        proof {
            // both scaled sines are at most 4 r, so they fit far inside i32
            assert(t1 as int <= 4 * ri) by (nonlinear_arith)
                requires
                    ri >= 0,
                    t1 as int >= 0,
                    t1 as int * t1 as int <= 15 * ri * ri,
            ;
            assert(sq as int <= 4 * ri) by (nonlinear_arith)
                requires
                    ri >= 0,
                    sq as int >= 0,
                    sq as int * sq as int <= 10 * ri * ri,
            ;
        }
        let t2 = if sq * sq == c0 && u20 * u20 != twenty_r4 {
            proof {
                // the stepped-back root only arises away from zero
                if c0 == 0 {
                    assert(10 * ri * ri == u20 as int);
                    assert(ri == 0) by (nonlinear_arith)
                        requires
                            ri >= 0,
                            (10 * ri * ri) * (10 * ri * ri) <= 20 * ri * ri * ri * ri,
                    ;
                    assert(false);
                }
                assert(sq as int >= 1) by (nonlinear_arith)
                    requires
                        sq as int >= 0,
                        sq as int * sq as int == c0 as int,
                        c0 as int >= 1,
                ;
            }
            sq - 1
        } else {
            sq
        };
        let x1 = ((s5 - r128) / 4) as i32;
        let x2 = ((s5 + r128) / 4) as i32;
        let y1 = (t1 / 4) as i32;
        let y2 = (t2 / 4) as i32;
        let mut v: Vec<Point> = Vec::new();
        v.push(Point { x: cx + r, y: cy });
        v.push(Point { x: cx + x1, y: cy + y1 });
        v.push(Point { x: cx - x2, y: cy + y2 });
        v.push(Point { x: cx - x2, y: cy - y2 });
        v.push(Point { x: cx + x1, y: cy - y1 });
        proof {
            assert(s5 as int == pent_scaled_cos(ri));
            assert(t1 as int == pent_scaled_sin72(ri));
            assert(t2 as int == pent_scaled_sin36(ri));
            assert(v@[0] == pentagon_vertex_pt(self.center, ri, 0));
            assert(v@[1] == pentagon_vertex_pt(self.center, ri, 1));
            assert(v@[2] == pentagon_vertex_pt(self.center, ri, 2));
            assert(v@[3] == pentagon_vertex_pt(self.center, ri, 3));
            assert(v@[4] == pentagon_vertex_pt(self.center, ri, 4));
        }
        v
    }
}

impl Drawable for Pentagon {
    /// The five edges, vertex `k` to vertex `(k + 1) mod 5`.
    open spec fn pix_set(&self) -> Set<(int, int)> {
        let c = self.center;
        let r = self.radius as int;
        line_seq(pentagon_vertex_pt(c, r, 0), pentagon_vertex_pt(c, r, 1)).to_set().union(
            line_seq(pentagon_vertex_pt(c, r, 1), pentagon_vertex_pt(c, r, 2)).to_set(),
        ).union(line_seq(pentagon_vertex_pt(c, r, 2), pentagon_vertex_pt(c, r, 3)).to_set()).union(
            line_seq(pentagon_vertex_pt(c, r, 3), pentagon_vertex_pt(c, r, 4)).to_set(),
        ).union(line_seq(pentagon_vertex_pt(c, r, 4), pentagon_vertex_pt(c, r, 0)).to_set())
    }

    open spec fn fits(&self) -> bool {
        self.fits_spec()
    }

    fn draw(&self, img: &mut raster::Image, color: Color) {
        let ghost c = self.center;
        let ghost r = self.radius as int;
        let v = self.get_vertices();
        let ghost m0 = image_pixels(*img);
        let ghost e0 = line_seq(pentagon_vertex_pt(c, r, 0), pentagon_vertex_pt(c, r, 1)).to_set();
        let ghost e1 = line_seq(pentagon_vertex_pt(c, r, 1), pentagon_vertex_pt(c, r, 2)).to_set();
        let ghost e2 = line_seq(pentagon_vertex_pt(c, r, 2), pentagon_vertex_pt(c, r, 3)).to_set();
        let ghost e3 = line_seq(pentagon_vertex_pt(c, r, 3), pentagon_vertex_pt(c, r, 4)).to_set();
        let ghost e4 = line_seq(pentagon_vertex_pt(c, r, 4), pentagon_vertex_pt(c, r, 0)).to_set();
        Line::new(&v[0], &v[1]).draw(img, color);
        proof {
            lemma_painted_union(m0, e0, e1, color);
        }
        Line::new(&v[1], &v[2]).draw(img, color);
        proof {
            lemma_painted_union(m0, e0.union(e1), e2, color);
        }
        Line::new(&v[2], &v[3]).draw(img, color);
        proof {
            lemma_painted_union(m0, e0.union(e1).union(e2), e3, color);
        }
        Line::new(&v[3], &v[4]).draw(img, color);
        proof {
            lemma_painted_union(m0, e0.union(e1).union(e2).union(e3), e4, color);
        }
        Line::new(&v[4], &v[0]).draw(img, color);
    }
}

} // verus!
