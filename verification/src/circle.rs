use vstd::prelude::*;
use crate::canvas::paint_points;
use crate::color::Color;
use crate::point::{Point, coord_ok, pix_of, lemma_pts_set_matches};
use crate::shape::Drawable;

verus! {

/// The largest radius the circle rasterizer accepts; it keeps the error
/// accumulator, which tracks a quadratic form of the radius, inside `i64`.
pub const RADIUS_LIMIT: i32 = 0x100_0000;

/// A circle outline: a center and a non-negative radius. `radius == 0`
/// rasterizes the single center pixel.
#[derive(Debug, Clone, Copy, PartialEq, Eq, Structural)]
pub struct Circle {
    pub center: Point,
    pub radius: i32,
}

/// The eight octant mirrors of the offset (x, y) around the center, in
/// emission order.
pub open spec fn octet(cx: int, cy: int, x: int, y: int) -> Seq<(int, int)> {
    seq![
        (cx + x, cy + y),
        (cx + y, cy + x),
        (cx - y, cy + x),
        (cx - x, cy + y),
        (cx - x, cy - y),
        (cx - y, cy - x),
        (cx + y, cy - x),
        (cx + x, cy - y),
    ]
}

/// The pixels midpoint stepping emits from offset state (x, y) with error
/// accumulator `err`: eight mirrored points per step, `y` rising and `x`
/// falling when the accumulated error says the midpoint crossed the circle
/// boundary, until `x < y`.
pub open spec fn circle_rec(cx: int, cy: int, x: int, y: int, err: int) -> Seq<(int, int)>
    decreases x + 2 - y,
{
    if x < y {
        Seq::empty()
    } else {
        let y1 = y + 1;
        let e1 = err + 1 + 2 * y1;
        if 2 * (e1 - x) + 1 > 0 {
            octet(cx, cy, x, y) + circle_rec(cx, cy, x - 1, y1, e1 + 1 - 2 * (x - 1))
        } else {
            octet(cx, cy, x, y) + circle_rec(cx, cy, x, y1, e1)
        }
    }
}

/// The full pixel run of a circle outline.
pub open spec fn circle_seq(c: Point, r: int) -> Seq<(int, int)> {
    circle_rec(c.x as int, c.y as int, r, 0, 0)
}

/// The image of `q` under one of the eight sign/swap transformations of its
/// offset from the center (cx, cy).
pub open spec fn oct_image(cx: int, cy: int, q: (int, int), k: int) -> (int, int) {
    let dx = q.0 - cx;
    let dy = q.1 - cy;
    if k == 0 {
        (cx + dx, cy + dy)
    } else if k == 1 {
        (cx + dy, cy + dx)
    } else if k == 2 {
        (cx - dy, cy + dx)
    } else if k == 3 {
        (cx - dx, cy + dy)
    } else if k == 4 {
        (cx - dx, cy - dy)
    } else if k == 5 {
        (cx - dy, cy - dx)
    } else if k == 6 {
        (cx + dy, cy - dx)
    } else {
        (cx + dx, cy - dy)
    }
}

/// Every emitted octet is closed under the eight transformations, so the
/// whole run is.
proof fn lemma_circle_rec_sym(cx: int, cy: int, x: int, y: int, err: int, q: (int, int), k: int)
    requires
        0 <= k < 8,
        circle_rec(cx, cy, x, y, err).contains(q),
    ensures
        circle_rec(cx, cy, x, y, err).contains(oct_image(cx, cy, q, k)),
    decreases x + 2 - y,
{
    let s = circle_rec(cx, cy, x, y, err);
    let im = oct_image(cx, cy, q, k);
    if x < y {
        assert(false);
    } else {
        let oc = octet(cx, cy, x, y);
        let y1 = y + 1;
        let e1 = err + 1 + 2 * y1;
        let rest = if 2 * (e1 - x) + 1 > 0 {
            circle_rec(cx, cy, x - 1, y1, e1 + 1 - 2 * (x - 1))
        } else {
            circle_rec(cx, cy, x, y1, e1)
        };
        assert(s == oc + rest);
        let i = choose|i: int| 0 <= i < s.len() && s[i] == q;
        if i < 8 {
            assert(q == oc[i]);
            assert(q == oc[0] || q == oc[1] || q == oc[2] || q == oc[3] || q == oc[4] || q == oc[5]
                || q == oc[6] || q == oc[7]);
            assert(im == oc[0] || im == oc[1] || im == oc[2] || im == oc[3] || im == oc[4] || im
                == oc[5] || im == oc[6] || im == oc[7]);
            assert(s.contains(im)) by {
                if im == oc[0] {
                    assert(s[0] == im);
                } else if im == oc[1] {
                    assert(s[1] == im);
                } else if im == oc[2] {
                    assert(s[2] == im);
                } else if im == oc[3] {
                    assert(s[3] == im);
                } else if im == oc[4] {
                    assert(s[4] == im);
                } else if im == oc[5] {
                    assert(s[5] == im);
                } else if im == oc[6] {
                    assert(s[6] == im);
                } else {
                    assert(s[7] == im);
                }
            }
        } else {
            assert(rest[i - 8] == q);
            assert(rest.contains(q));
            if 2 * (e1 - x) + 1 > 0 {
                lemma_circle_rec_sym(cx, cy, x - 1, y1, e1 + 1 - 2 * (x - 1), q, k);
            } else {
                lemma_circle_rec_sym(cx, cy, x, y1, e1, q, k);
            }
            let j = choose|j: int| 0 <= j < rest.len() && rest[j] == im;
            assert(s[8 + j] == im);
        }
    }
}

/// The circle's pixel set is symmetric under the eight sign/swap
/// transformations of the offset from the center.
pub proof fn lemma_circle_symmetry(c: Point, r: int, q: (int, int), k: int)
    requires
        0 <= k < 8,
        circle_seq(c, r).to_set().contains(q),
    ensures
        circle_seq(c, r).to_set().contains(oct_image(c.x as int, c.y as int, q, k)),
{
    lemma_circle_rec_sym(c.x as int, c.y as int, r, 0, 0, q, k);
}

/// A circle of radius zero emits exactly its center pixel.
pub proof fn lemma_circle_zero_radius(c: Point)
    ensures
        circle_seq(c, 0).to_set() == Set::new(|q: (int, int)| q == pix_of(c)),
{
    let cx = c.x as int;
    let cy = c.y as int;
    reveal_with_fuel(circle_rec, 3);
    assert(circle_seq(c, 0) == octet(cx, cy, 0, 0) + Seq::<(int, int)>::empty());
    let s = circle_seq(c, 0);
    assert(s.len() == 8);
    assert forall|q: (int, int)| s.to_set().contains(q) implies q == pix_of(c) by {
        let i = choose|i: int| 0 <= i < s.len() && s[i] == q;
        assert(q == (cx, cy));
    }
    assert(s[0] == (cx, cy));
    assert(s.contains((cx, cy)));
    assert(s.to_set() =~= Set::new(|q: (int, int)| q == pix_of(c)));
}

impl Circle {
    /// The circle's pixel run, as spec-level coordinates.
    pub open spec fn seq_spec(&self) -> Seq<(int, int)> {
        circle_seq(self.center, self.radius as int)
    }

    /// The center is in the working range and the radius within the
    /// rasterizer's limit.
    pub open spec fn fits_spec(&self) -> bool {
        coord_ok(self.center) && 0 <= self.radius <= RADIUS_LIMIT
    }

    pub fn new(center: &Point, radius: i32) -> (c: Circle)
        ensures
            c == (Circle { center: *center, radius }),
    {
        Circle { center: *center, radius }
    }

    /// A circle with a uniformly random center on a canvas of the given
    /// dimensions and a random radius.
    pub fn random(width: i32, height: i32) -> (c: Circle)
        requires
            0 < width,
            0 < height,
        ensures
            0 <= c.center.x < width,
            0 <= c.center.y < height,
            50 <= c.radius < 150,
    {
        let mut rng = crate::rng::fresh_rng();
        Circle {
            center: Point::random(width, height),
            radius: crate::rng::rand_range(&mut rng, 50, 150),
        }
    }

    /// Rasterize the outline: the returned pixels are exactly the midpoint
    /// stepping run, eight mirrored points per step.
    pub fn pixels(&self) -> (v: Vec<Point>)
        requires
            self.fits_spec(),
        ensures
            v@.len() == self.seq_spec().len(),
            forall|i: int| 0 <= i < v@.len() ==> pix_of(#[trigger] v@[i]) == self.seq_spec()[i],
    {
        let cx = self.center.x;
        let cy = self.center.y;
        let r = self.radius;
        let ghost gs = circle_seq(self.center, r as int);
        let mut x: i32 = r;
        let mut y: i32 = 0;
        let mut err: i64 = 0;
        let mut v: Vec<Point> = Vec::new();
        proof {
            assert(gs.subrange(0, gs.len() as int) =~= gs);
        }
        while x >= y
            invariant
                0 <= r <= 0x100_0000,
                -0x1000_0000 <= cx <= 0x1000_0000,
                -0x1000_0000 <= cy <= 0x1000_0000,
                -1 <= x <= r,
                0 <= y <= x + 2,
                err == x as int * x as int - 2 * x as int + y as int * y as int + 2 * y as int + 2
                    * r as int - r as int * r as int,
                gs == circle_seq(self.center, r as int),
                self.center.x == cx && self.center.y == cy,
                v@.len() <= gs.len(),
                forall|i: int| 0 <= i < v@.len() ==> pix_of(#[trigger] v@[i]) == gs[i],
                gs.subrange(v@.len() as int, gs.len() as int) == circle_rec(
                    cx as int,
                    cy as int,
                    x as int,
                    y as int,
                    err as int,
                ),
            decreases x + 2 - y,
        {
            let ghost len = v@.len() as int;
            let ghost glen = gs.len() as int;
            let ghost oc = octet(cx as int, cy as int, x as int, y as int);
            let ghost cur = circle_rec(cx as int, cy as int, x as int, y as int, err as int);
            v.push(Point { x: cx + x, y: cy + y });
            v.push(Point { x: cx + y, y: cy + x });
            v.push(Point { x: cx - y, y: cy + x });
            v.push(Point { x: cx - x, y: cy + y });
            v.push(Point { x: cx - x, y: cy - y });
            v.push(Point { x: cx - y, y: cy - x });
            v.push(Point { x: cx + y, y: cy - x });
            v.push(Point { x: cx + x, y: cy - y });
            proof {
                let y1 = y as int + 1;
                let e1 = err as int + 1 + 2 * y1;
                let rest = if 2 * (e1 - x as int) + 1 > 0 {
                    circle_rec(cx as int, cy as int, x as int - 1, y1, e1 + 1 - 2 * (x as int - 1))
                } else {
                    circle_rec(cx as int, cy as int, x as int, y1, e1)
                };
                assert(cur == oc + rest);
                assert(cur.len() == 8 + rest.len());
                assert forall|j: int| 0 <= j < 8 implies gs[len + j] == oc[j] by {
                    assert(gs.subrange(len, glen)[j] == gs[len + j]);
                }
                assert(pix_of(v@[len + 0]) == oc[0]);
                assert(pix_of(v@[len + 1]) == oc[1]);
                assert(pix_of(v@[len + 2]) == oc[2]);
                assert(pix_of(v@[len + 3]) == oc[3]);
                assert(pix_of(v@[len + 4]) == oc[4]);
                assert(pix_of(v@[len + 5]) == oc[5]);
                assert(pix_of(v@[len + 6]) == oc[6]);
                assert(pix_of(v@[len + 7]) == oc[7]);
                assert forall|k: int| 0 <= k < glen - len - 8 implies gs.subrange(len + 8, glen)[k]
                    == rest[k] by {
                    assert(gs.subrange(len + 8, glen)[k] == gs[len + 8 + k]);
                    assert(gs.subrange(len, glen)[k + 8] == gs[len + 8 + k]);
                    assert(cur[k + 8] == rest[k]);
                }
                assert(gs.subrange(len + 8, glen) =~= rest);
            }
            y = y + 1;
            proof {
                assert((y as int) * (y as int) == (y as int - 1) * (y as int - 1) + 2 * (y as int
                    - 1) + 1) by (nonlinear_arith);
                assert(err + 1 + 2 * (y as int) <= 0x20_0000_0000_0000) by (nonlinear_arith)
                    requires
                        err == x as int * x as int - 2 * x as int + (y as int - 1) * (y as int - 1)
                            + 2 * (y as int - 1) + 2 * r as int - r as int * r as int,
                        -1 <= x as int <= r as int,
                        0 <= y as int <= x as int + 3,
                        0 <= r as int <= 0x100_0000,
                ;
                assert(err + 1 + 2 * (y as int) >= -0x20_0000_0000_0000) by (nonlinear_arith)
                    requires
                        err == x as int * x as int - 2 * x as int + (y as int - 1) * (y as int - 1)
                            + 2 * (y as int - 1) + 2 * r as int - r as int * r as int,
                        -1 <= x as int <= r as int,
                        0 <= y as int <= x as int + 3,
                        0 <= r as int <= 0x100_0000,
                ;
            }
            err = err + 1 + 2 * (y as i64);
            if 2 * (err - x as i64) + 1 > 0 {
                x = x - 1;
                proof {
                    assert((x as int) * (x as int) == (x as int + 1) * (x as int + 1) - 2 * (
                    x as int + 1) + 1) by (nonlinear_arith);
                }
                err = err + 1 - 2 * (x as i64);
            }
        }
        proof {
            assert(circle_rec(cx as int, cy as int, x as int, y as int, err as int)
                == Seq::<(int, int)>::empty());
            assert(gs.subrange(v@.len() as int, gs.len() as int).len() == 0);
        }
        v
    }
}

impl Drawable for Circle {
    open spec fn pix_set(&self) -> Set<(int, int)> {
        self.seq_spec().to_set()
    }

    open spec fn fits(&self) -> bool {
        self.fits_spec()
    }

    fn draw(&self, img: &mut raster::Image, color: Color) {
        let v = self.pixels();
        proof {
            lemma_pts_set_matches(v@, self.seq_spec());
        }
        paint_points(img, &v, color);
    }
}

} // verus!
