use vstd::prelude::*;
use crate::canvas::paint_points;
use crate::color::Color;
use crate::shape::Drawable;

verus! {

/// Coordinates this far from the origin (in either axis) are accepted by
/// every rasterizer; the bound keeps all intermediate `i32` arithmetic,
/// including the error accumulators, free of overflow.
pub const COORD_LIMIT: i32 = 0x1000_0000;

/// A point with integer pixel coordinates. Immutable value type; equality is
/// coordinate equality.
#[derive(Debug, Clone, Copy, PartialEq, Eq, Structural)]
pub struct Point {
    pub x: i32,
    pub y: i32,
}

/// Whether both coordinates are within the rasterizers' working range.
pub open spec fn coord_ok(p: Point) -> bool {
    -COORD_LIMIT <= p.x <= COORD_LIMIT && -COORD_LIMIT <= p.y <= COORD_LIMIT
}

/// The sign of a coordinate delta: the unit step on that axis.
pub open spec fn sgn(d: int) -> int {
    if d > 0 {
        1
    } else if d < 0 {
        -1
    } else {
        0
    }
}

/// Absolute value.
pub open spec fn iabs(d: int) -> int {
    if d >= 0 {
        d
    } else {
        -d
    }
}

/// The larger of two integers.
pub open spec fn imax(a: int, b: int) -> int {
    if a >= b {
        a
    } else {
        b
    }
}

/// The pixel coordinate a point stands for.
pub open spec fn pix_of(p: Point) -> (int, int) {
    (p.x as int, p.y as int)
}

/// The coordinates covered by a sequence of points.
pub open spec fn pts_set(s: Seq<Point>) -> Set<(int, int)> {
    Set::new(|q: (int, int)| exists|i: int| 0 <= i < s.len() && pix_of(s[i]) == q)
}

/// A point run that matches a coordinate sequence pointwise covers exactly
/// that sequence's coordinate set.
pub proof fn lemma_pts_set_matches(v: Seq<Point>, s: Seq<(int, int)>)
    requires
        v.len() == s.len(),
        forall|i: int| 0 <= i < v.len() ==> pix_of(#[trigger] v[i]) == s[i],
    ensures
        pts_set(v) == s.to_set(),
{
    assert forall|q: (int, int)| #[trigger] pts_set(v).contains(q) implies s.to_set().contains(
        q,
    ) by {
        let i = choose|i: int| 0 <= i < v.len() && #[trigger] pix_of(v[i]) == q;
        assert(s[i] == q);
    }
    assert forall|q: (int, int)| s.to_set().contains(q) implies #[trigger] pts_set(v).contains(
        q,
    ) by {
        let i = choose|i: int| 0 <= i < s.len() && #[trigger] s[i] == q;
        assert(pix_of(v[i]) == q);
    }
    assert(pts_set(v) =~= s.to_set());
}

/// The pixel run a point draws: its own pixel and the eight neighbors, a
/// 3-by-3 neighborhood.
pub open spec fn point_seq(p: Point) -> Seq<(int, int)> {
    let x = p.x as int;
    let y = p.y as int;
    seq![
        (x - 1, y - 1),
        (x - 1, y),
        (x - 1, y + 1),
        (x, y - 1),
        (x, y),
        (x, y + 1),
        (x + 1, y - 1),
        (x + 1, y),
        (x + 1, y + 1),
    ]
}

impl Point {
    pub fn new(x: i32, y: i32) -> (p: Point)
        ensures
            p == (Point { x, y }),
    {
        Point { x, y }
    }

    /// A uniformly random point on a canvas of the given dimensions.
    pub fn random(width: i32, height: i32) -> (p: Point)
        requires
            0 < width,
            0 < height,
        ensures
            0 <= p.x < width,
            0 <= p.y < height,
    {
        let mut rng = crate::rng::fresh_rng();
        Point {
            x: crate::rng::rand_range(&mut rng, 0, width),
            y: crate::rng::rand_range(&mut rng, 0, height),
        }
    }

    /// The point's own pixel and its eight neighbors, in emission order.
    pub fn pixels(&self) -> (v: Vec<Point>)
        requires
            coord_ok(*self),
        ensures
            v@.len() == point_seq(*self).len(),
            forall|i: int| 0 <= i < v@.len() ==> pix_of(#[trigger] v@[i]) == point_seq(*self)[i],
    {
        let x = self.x;
        let y = self.y;
        let mut v: Vec<Point> = Vec::new();
        v.push(Point { x: x - 1, y: y - 1 });
        v.push(Point { x: x - 1, y });
        v.push(Point { x: x - 1, y: y + 1 });
        v.push(Point { x, y: y - 1 });
        v.push(Point { x, y });
        v.push(Point { x, y: y + 1 });
        v.push(Point { x: x + 1, y: y - 1 });
        v.push(Point { x: x + 1, y });
        v.push(Point { x: x + 1, y: y + 1 });
        proof {
            assert(pix_of(v@[0]) == point_seq(*self)[0]);
            assert(pix_of(v@[1]) == point_seq(*self)[1]);
            assert(pix_of(v@[2]) == point_seq(*self)[2]);
            assert(pix_of(v@[3]) == point_seq(*self)[3]);
            assert(pix_of(v@[4]) == point_seq(*self)[4]);
            assert(pix_of(v@[5]) == point_seq(*self)[5]);
            assert(pix_of(v@[6]) == point_seq(*self)[6]);
            assert(pix_of(v@[7]) == point_seq(*self)[7]);
            assert(pix_of(v@[8]) == point_seq(*self)[8]);
        }
        v
    }
}

impl Drawable for Point {
    open spec fn pix_set(&self) -> Set<(int, int)> {
        point_seq(*self).to_set()
    }

    open spec fn fits(&self) -> bool {
        coord_ok(*self)
    }

    fn draw(&self, img: &mut raster::Image, color: Color) {
        let v = self.pixels();
        proof {
            lemma_pts_set_matches(v@, point_seq(*self));
        }
        paint_points(img, &v, color);
    }
}

} // verus!
