use vstd::prelude::*;
use crate::canvas::paint_points;
use crate::color::Color;
use crate::point::{Point, coord_ok, sgn, iabs, imax, pix_of, lemma_pts_set_matches};
use crate::shape::Drawable;

verus! {

/// A straight segment between two points. It may be degenerate
/// (`start == end`) and still rasterizes at least one pixel.
#[derive(Debug, Clone, Copy, PartialEq, Eq, Structural)]
pub struct Line {
    pub start: Point,
    pub end: Point,
}

/// The pixels the error-accumulation (Bresenham) stepping emits from state
/// (x, y) with accumulator `err`, walking toward (ex, ey). `dx`, `dy` are the
/// absolute coordinate deltas of the whole segment, `sx`, `sy` the unit
/// steps. The fuel bounds the recursion; on a reachable state it equals the
/// number of steps left.
pub open spec fn bres_seq(
    x: int,
    y: int,
    ex: int,
    ey: int,
    dx: int,
    dy: int,
    sx: int,
    sy: int,
    err: int,
    fuel: nat,
) -> Seq<(int, int)>
    decreases fuel,
{
    if (x == ex && y == ey) || fuel == 0 {
        seq![(x, y)]
    } else {
        let e2 = 2 * err;
        let nx = if e2 > -dy { x + sx } else { x };
        let erra = if e2 > -dy { err - dy } else { err };
        let ny = if e2 < dx { y + sy } else { y };
        let errb = if e2 < dx { erra + dx } else { erra };
        seq![(x, y)] + bres_seq(nx, ny, ex, ey, dx, dy, sx, sy, errb, (fuel - 1) as nat)
    }
}

/// The full pixel run of a segment, start to end inclusive.
pub open spec fn line_seq(a: Point, b: Point) -> Seq<(int, int)> {
    let dx = iabs(b.x - a.x);
    let dy = iabs(b.y - a.y);
    bres_seq(
        a.x as int,
        a.y as int,
        b.x as int,
        b.y as int,
        dx,
        dy,
        sgn(b.x - a.x),
        sgn(b.y - a.y),
        dx - dy,
        imax(dx, dy) as nat,
    )
}

/// The stepping invariant: `rx`, `ry` are the remaining absolute distances
/// to the endpoint; the scaled deviation from the ideal line stays within
/// half a step of it.
pub open spec fn step_inv(dx: int, dy: int, rx: int, ry: int) -> bool {
    &&& 0 <= rx <= dx
    &&& 0 <= ry <= dy
    &&& -imax(dx, dy) <= 2 * (dy * rx - dx * ry) <= imax(dx, dy)
    &&& (dx == dy ==> rx == ry)
}

/// How a coordinate relates to its endpoint: `r` away against the unit step.
pub open spec fn pos_ok(x: int, ex: int, sx: int, r: int) -> bool {
    ||| (sx == 1 && ex - x == r)
    ||| (sx == -1 && x - ex == r)
    ||| (sx == 0 && x == ex && r == 0)
}

/// One Bresenham step from a state that satisfies the invariant and has not
/// reached the endpoint: at least one axis advances, an axis only advances
/// when it still has distance to cover, the invariant is maintained, and the
/// larger remaining distance drops by exactly one.
proof fn lemma_bres_step(dx: int, dy: int, rx: int, ry: int)
    requires
        step_inv(dx, dy, rx, ry),
        rx > 0 || ry > 0,
    ensures
        ({
            let err = dx - dy + (dy * rx - dx * ry);
            let e2 = 2 * err;
            let rx1 = if e2 > -dy { rx - 1 } else { rx };
            let ry1 = if e2 < dx { ry - 1 } else { ry };
            &&& (e2 > -dy ==> rx >= 1)
            &&& (e2 < dx ==> ry >= 1)
            &&& (e2 > -dy || e2 < dx)
            &&& step_inv(dx, dy, rx1, ry1)
            &&& imax(rx1, ry1) == imax(rx, ry) - 1
        }),
{
    let err = dx - dy + (dy * rx - dx * ry);
    let e2 = 2 * err;
    if dx == dy {
        assert(rx == ry);
        assert(rx >= 1);
        assert(dx >= 1);
        assert(dy * rx - dx * ry == 0) by (nonlinear_arith)
            requires
                dx == dy,
                rx == ry,
        ;
        assert(e2 == 0);
        assert(e2 > -dy && e2 < dx);
        assert(dy * (rx - 1) - dx * (ry - 1) == 0) by (nonlinear_arith)
            requires
                dx == dy,
                rx == ry,
        ;
    } else if dx > dy {
        assert(imax(dx, dy) == dx);
        // the x axis always advances
        assert(e2 > -dy);
        // and it still has distance to cover
        if rx == 0 {
            assert(ry >= 1);
            assert(2 * (dy * rx - dx * ry) < -dx) by (nonlinear_arith)
                requires
                    rx == 0,
                    dx > 0,
                    ry >= 1,
            ;
            assert(false);
        }
        // the remaining x distance stays the larger one
        if ry > rx {
            assert(2 * (dy * rx - dx * ry) < -dx) by (nonlinear_arith)
                requires
                    dx > dy,
                    dy >= 0,
                    rx >= 0,
                    ry >= rx + 1,
            ;
            assert(false);
        }
        if e2 < dx {
            if ry == 0 {
                assert(2 * (dy * rx - dx * ry) >= 2 * dy) by (nonlinear_arith)
                    requires
                        ry == 0,
                        rx >= 1,
                        dy >= 0,
                ;
                assert(false);
            }
            assert(dy * (rx - 1) - dx * (ry - 1) == (dy * rx - dx * ry) - dy + dx)
                by (nonlinear_arith);
        } else {
            if ry == rx {
                assert(2 * (dy * rx - dx * rx) <= 2 * dy - 2 * dx) by (nonlinear_arith)
                    requires
                        rx >= 1,
                        dx > dy,
                ;
                assert(false);
            }
            assert(dy * (rx - 1) - dx * ry == (dy * rx - dx * ry) - dy) by (nonlinear_arith);
        }
    } else {
        assert(imax(dx, dy) == dy);
        // the y axis always advances
        assert(e2 < dx);
        if ry == 0 {
            assert(rx >= 1);
            assert(2 * (dy * rx - dx * ry) > dy) by (nonlinear_arith)
                requires
                    ry == 0,
                    dy > 0,
                    rx >= 1,
            ;
            assert(false);
        }
        if rx > ry {
            assert(2 * (dy * rx - dx * ry) > dy) by (nonlinear_arith)
                requires
                    dy > dx,
                    dx >= 0,
                    ry >= 0,
                    rx >= ry + 1,
            ;
            assert(false);
        }
        if e2 > -dy {
            if rx == 0 {
                assert(2 * (dy * rx - dx * ry) <= -2 * dx) by (nonlinear_arith)
                    requires
                        rx == 0,
                        ry >= 1,
                        dx >= 0,
                ;
                assert(false);
            }
            assert(dy * (rx - 1) - dx * (ry - 1) == (dy * rx - dx * ry) - dy + dx)
                by (nonlinear_arith);
        } else {
            if rx == ry {
                assert(2 * (dy * ry - dx * ry) >= 2 * dy - 2 * dx) by (nonlinear_arith)
                    requires
                        ry >= 1,
                        dy > dx,
                ;
                assert(false);
            }
            assert(dy * rx - dx * (ry - 1) == (dy * rx - dx * ry) + dx) by (nonlinear_arith);
        }
    }
}

/// The Bresenham run from any reachable state: it emits exactly
/// `max(rx, ry) + 1` pixels, the first is the current point, the last is the
/// endpoint, the Chebyshev distance to the endpoint falls by one per pixel
/// (so all pixels are distinct), and consecutive pixels differ by at most
/// one unit per axis.
proof fn lemma_bres_run(
    x: int,
    y: int,
    ex: int,
    ey: int,
    dx: int,
    dy: int,
    sx: int,
    sy: int,
    rx: int,
    ry: int,
)
    requires
        step_inv(dx, dy, rx, ry),
        pos_ok(x, ex, sx, rx),
        pos_ok(y, ey, sy, ry),
    ensures
        ({
            let m = imax(rx, ry);
            let err = dx - dy + (dy * rx - dx * ry);
            let s = bres_seq(x, y, ex, ey, dx, dy, sx, sy, err, m as nat);
            &&& s.len() == m + 1
            &&& s[0] == (x, y)
            &&& s[m] == (ex, ey)
            &&& forall|i: int|
                0 <= i <= m ==> imax(iabs(ex - (#[trigger] s[i]).0), iabs(ey - s[i].1)) == m - i
            &&& forall|i: int|
                0 <= i < m ==> iabs((#[trigger] s[i + 1]).0 - s[i].0) <= 1 && iabs(
                    s[i + 1].1 - s[i].1,
                ) <= 1
        }),
    decreases imax(rx, ry),
{
    let m = imax(rx, ry);
    let err = dx - dy + (dy * rx - dx * ry);
    let e2 = 2 * err;
    let s = bres_seq(x, y, ex, ey, dx, dy, sx, sy, err, m as nat);
    if rx == 0 && ry == 0 {
        assert(x == ex && y == ey);
        assert(s == seq![(x, y)]);
        assert(s[0] == (x, y));
    } else {
        lemma_bres_step(dx, dy, rx, ry);
        let rx1 = if e2 > -dy { rx - 1 } else { rx };
        let ry1 = if e2 < dx { ry - 1 } else { ry };
        let nx = if e2 > -dy { x + sx } else { x };
        let ny = if e2 < dx { y + sy } else { y };
        let err1 = dx - dy + (dy * rx1 - dx * ry1);
        // the state has not reached the endpoint
        if rx >= 1 {
            assert(x != ex);
        } else {
            assert(ry >= 1);
            assert(y != ey);
        }
        assert(pos_ok(nx, ex, sx, rx1));
        assert(pos_ok(ny, ey, sy, ry1));
        // the executable error update lands on the closed form for the new state
        let erra = if e2 > -dy { err - dy } else { err };
        let errb = if e2 < dx { erra + dx } else { erra };
        if e2 > -dy {
            if e2 < dx {
                assert(dy * (rx - 1) - dx * (ry - 1) == (dy * rx - dx * ry) - dy + dx)
                    by (nonlinear_arith);
            } else {
                assert(dy * (rx - 1) - dx * ry == (dy * rx - dx * ry) - dy) by (nonlinear_arith);
            }
        } else {
            if e2 < dx {
                assert(dy * rx - dx * (ry - 1) == (dy * rx - dx * ry) + dx) by (nonlinear_arith);
            }
        }
        assert(errb == err1);
        lemma_bres_run(nx, ny, ex, ey, dx, dy, sx, sy, rx1, ry1);
        let s1 = bres_seq(nx, ny, ex, ey, dx, dy, sx, sy, err1, (m - 1) as nat);
        assert(s == seq![(x, y)] + s1);
        assert(s.len() == m + 1);
        assert(s[m] == s1[m - 1]);
        assert(iabs(ex - x) == rx && iabs(ey - y) == ry);
        assert forall|i: int| 0 <= i <= m implies imax(
            iabs(ex - (#[trigger] s[i]).0),
            iabs(ey - s[i].1),
        ) == m - i by {
            if i == 0 {
                assert(s[0] == (x, y));
            } else {
                assert(s[i] == s1[i - 1]);
            }
        }
        assert forall|i: int| 0 <= i < m implies iabs((#[trigger] s[i + 1]).0 - s[i].0) <= 1
            && iabs(s[i + 1].1 - s[i].1) <= 1 by {
            if i == 0 {
                assert(s[0] == (x, y));
                assert(s[1] == s1[0]);
                assert(s1[0] == (nx, ny));
                assert(iabs(nx - x) <= 1);
                assert(iabs(ny - y) <= 1);
            } else {
                let j = i - 1;
                assert(s[i] == s1[j]);
                assert(s[i + 1] == s1[j + 1]);
                assert(iabs(s1[j + 1].0 - s1[j].0) <= 1 && iabs(s1[j + 1].1 - s1[j].1) <= 1);
            }
        }
    }
}

/// The full pixel run of a segment emits exactly
/// `max(|b.x - a.x|, |b.y - a.y|) + 1` pixels, starts at `a`, ends at `b`,
/// never repeats a pixel, and every two consecutive pixels are at most one
/// unit apart in each axis (8-connectivity).
pub proof fn lemma_line_seq_props(a: Point, b: Point)
    ensures
        ({
            let m = imax(iabs(b.x - a.x), iabs(b.y - a.y));
            let s = line_seq(a, b);
            &&& s.len() == m + 1
            &&& s[0] == (a.x as int, a.y as int)
            &&& s[m] == (b.x as int, b.y as int)
            &&& forall|i: int, j: int| 0 <= i < j <= m ==> #[trigger] s[i] != #[trigger] s[j]
            &&& forall|i: int|
                0 <= i < m ==> iabs((#[trigger] s[i + 1]).0 - s[i].0) <= 1 && iabs(
                    s[i + 1].1 - s[i].1,
                ) <= 1
        }),
{
    let dx = iabs(b.x - a.x);
    let dy = iabs(b.y - a.y);
    let m = imax(dx, dy);
    assert(dy * dx - dx * dy == 0) by (nonlinear_arith);
    lemma_bres_run(
        a.x as int,
        a.y as int,
        b.x as int,
        b.y as int,
        dx,
        dy,
        sgn(b.x - a.x),
        sgn(b.y - a.y),
        dx,
        dy,
    );
    let s = line_seq(a, b);
    assert forall|i: int, j: int| 0 <= i < j <= m implies #[trigger] s[i] != #[trigger] s[j] by {
        assert(imax(iabs(b.x - s[i].0), iabs(b.y - s[i].1)) == m - i);
        assert(imax(iabs(b.x - s[j].0), iabs(b.y - s[j].1)) == m - j);
    }
}

/// A degenerate segment emits exactly one pixel: its single point.
pub proof fn lemma_line_seq_degenerate(p: Point)
    ensures
        line_seq(p, p) == seq![(p.x as int, p.y as int)],
{
}

/// `i` steps of a unit step `s` in {-1, 0, 1}.
pub open spec fn unit_steps(s: int, i: int) -> int {
    if s == 1 {
        i
    } else if s == -1 {
        -i
    } else {
        0
    }
}

/// On a horizontal, vertical or exactly diagonal segment the stepping is
/// deterministic: pixel `i` lies `i` unit steps along each axis.
proof fn lemma_bres_special(
    x: int,
    y: int,
    ex: int,
    ey: int,
    dx: int,
    dy: int,
    sx: int,
    sy: int,
    rx: int,
    ry: int,
)
    requires
        step_inv(dx, dy, rx, ry),
        pos_ok(x, ex, sx, rx),
        pos_ok(y, ey, sy, ry),
        dx == 0 ==> sx == 0,
        dy == 0 ==> sy == 0,
        dx == 0 || dy == 0 || dx == dy,
    ensures
        ({
            let m = imax(rx, ry);
            let err = dx - dy + (dy * rx - dx * ry);
            let s = bres_seq(x, y, ex, ey, dx, dy, sx, sy, err, m as nat);
            &&& s.len() == m + 1
            &&& forall|i: int|
                0 <= i <= m ==> #[trigger] s[i] == (x + unit_steps(sx, i), y + unit_steps(sy, i))
        }),
    decreases imax(rx, ry),
{
    let m = imax(rx, ry);
    let err = dx - dy + (dy * rx - dx * ry);
    let e2 = 2 * err;
    let s = bres_seq(x, y, ex, ey, dx, dy, sx, sy, err, m as nat);
    if rx == 0 && ry == 0 {
        assert(x == ex && y == ey);
        assert(s == seq![(x, y)]);
    } else {
        lemma_bres_step(dx, dy, rx, ry);
        let rx1 = if e2 > -dy { rx - 1 } else { rx };
        let ry1 = if e2 < dx { ry - 1 } else { ry };
        let nx = if e2 > -dy { x + sx } else { x };
        let ny = if e2 < dx { y + sy } else { y };
        let err1 = dx - dy + (dy * rx1 - dx * ry1);
        if dx == dy {
            // both axes advance every step: advancing only one would break
            // the rx == ry invariant the step maintains
            assert(e2 > -dy && e2 < dx);
        }
        if rx >= 1 {
            assert(x != ex);
        } else {
            assert(ry >= 1);
            assert(y != ey);
        }
        assert(pos_ok(nx, ex, sx, rx1));
        assert(pos_ok(ny, ey, sy, ry1));
        let erra = if e2 > -dy { err - dy } else { err };
        let errb = if e2 < dx { erra + dx } else { erra };
        if e2 > -dy {
            if e2 < dx {
                assert(dy * (rx - 1) - dx * (ry - 1) == (dy * rx - dx * ry) - dy + dx)
                    by (nonlinear_arith);
            } else {
                assert(dy * (rx - 1) - dx * ry == (dy * rx - dx * ry) - dy) by (nonlinear_arith);
            }
        } else {
            if e2 < dx {
                assert(dy * rx - dx * (ry - 1) == (dy * rx - dx * ry) + dx) by (nonlinear_arith);
            }
        }
        assert(errb == err1);
        lemma_bres_special(nx, ny, ex, ey, dx, dy, sx, sy, rx1, ry1);
        let s1 = bres_seq(nx, ny, ex, ey, dx, dy, sx, sy, err1, (m - 1) as nat);
        assert(s == seq![(x, y)] + s1);
        // an axis that advances took a real unit step; one that does not has
        // a zero step throughout this class
        assert(nx == x + unit_steps(sx, 1));
        assert(ny == y + unit_steps(sy, 1));
        assert forall|i: int| 0 <= i <= m implies #[trigger] s[i] == (
            x + unit_steps(sx, i),
            y + unit_steps(sy, i),
        ) by {
            if i == 0 {
                assert(s[0] == (x, y));
            } else {
                let j = i - 1;
                assert(s[i] == s1[j]);
                assert(s1[j] == (nx + unit_steps(sx, j), ny + unit_steps(sy, j)));
            }
        }
    }
}

/// On a horizontal, vertical or exactly diagonal segment, the two drawing
/// directions emit the same pixel set (in opposite orders). On other
/// segments the error-accumulation tie-breaking may choose different
/// intermediate pixels in the two directions.
pub proof fn lemma_line_seq_reverse(a: Point, b: Point)
    requires
        iabs(b.x - a.x) == 0 || iabs(b.y - a.y) == 0 || iabs(b.x - a.x) == iabs(b.y - a.y),
    ensures
        line_seq(a, b).to_set() == line_seq(b, a).to_set(),
{
    let dx = iabs(b.x - a.x);
    let dy = iabs(b.y - a.y);
    let m = imax(dx, dy);
    let sxf = sgn(b.x - a.x);
    let syf = sgn(b.y - a.y);
    let sxr = sgn(a.x - b.x);
    let syr = sgn(a.y - b.y);
    assert(dy * dx - dx * dy == 0) by (nonlinear_arith);
    lemma_bres_special(a.x as int, a.y as int, b.x as int, b.y as int, dx, dy, sxf, syf, dx, dy);
    lemma_bres_special(b.x as int, b.y as int, a.x as int, a.y as int, dx, dy, sxr, syr, dx, dy);
    let sf = line_seq(a, b);
    let sr = line_seq(b, a);
    assert forall|q: (int, int)| sf.to_set().contains(q) implies sr.to_set().contains(q) by {
        let i = choose|i: int| 0 <= i < sf.len() && #[trigger] sf[i] == q;
        assert(sr[m - i] == (b.x + unit_steps(sxr, m - i), b.y + unit_steps(syr, m - i)));
        assert(b.x as int == a.x as int + unit_steps(sxf, m) || dx < m);
        assert(sr[m - i] == q);
        assert(sr.contains(q));
    }
    assert forall|q: (int, int)| sr.to_set().contains(q) implies sf.to_set().contains(q) by {
        let i = choose|i: int| 0 <= i < sr.len() && #[trigger] sr[i] == q;
        assert(sf[m - i] == (a.x + unit_steps(sxf, m - i), a.y + unit_steps(syf, m - i)));
        assert(sf[m - i] == q);
        assert(sf.contains(q));
    }
    assert(sf.to_set() =~= sr.to_set());
}

impl Line {
    /// The segment's pixel run, as spec-level coordinates.
    pub open spec fn seq_spec(&self) -> Seq<(int, int)> {
        line_seq(self.start, self.end)
    }

    /// Both endpoints are within the rasterizer's working range.
    pub open spec fn fits_spec(&self) -> bool {
        coord_ok(self.start) && coord_ok(self.end)
    }

    pub fn new(p1: &Point, p2: &Point) -> (l: Line)
        ensures
            l == (Line { start: *p1, end: *p2 }),
    {
        Line { start: *p1, end: *p2 }
    }

    /// A segment with uniformly random endpoints on a canvas of the given
    /// dimensions.
    pub fn random(width: i32, height: i32) -> (l: Line)
        requires
            0 < width,
            0 < height,
        ensures
            0 <= l.start.x < width && 0 <= l.start.y < height,
            0 <= l.end.x < width && 0 <= l.end.y < height,
    {
        Line { start: Point::random(width, height), end: Point::random(width, height) }
    }

    pub fn from_points(p1: &Point, p2: &Point) -> (l: Line)
        ensures
            l == (Line { start: *p1, end: *p2 }),
    {
        Line { start: *p1, end: *p2 }
    }

    /// Rasterize the segment: the returned pixels are exactly the
    /// error-accumulation run from start to end.
    pub fn pixels(&self) -> (v: Vec<Point>)
        requires
            self.fits_spec(),
        ensures
            v@.len() == self.seq_spec().len(),
            forall|i: int| 0 <= i < v@.len() ==> pix_of(#[trigger] v@[i]) == self.seq_spec()[i],
    {
        let a = self.start;
        let b = self.end;
        let ghost gs = line_seq(a, b);
        let ex = b.x;
        let ey = b.y;
        let dx: i32 = if b.x >= a.x { b.x - a.x } else { a.x - b.x };
        let dy: i32 = if b.y >= a.y { b.y - a.y } else { a.y - b.y };
        let sx: i32 = if a.x < b.x { 1 } else if a.x > b.x { -1 } else { 0 };
        let sy: i32 = if a.y < b.y { 1 } else if a.y > b.y { -1 } else { 0 };
        let mut x = a.x;
        let mut y = a.y;
        let mut err: i32 = dx - dy;
        let mut v: Vec<Point> = Vec::new();
        let ghost mut rx: int = dx as int;
        let ghost mut ry: int = dy as int;
        let mut done = false;
        proof {
            assert(dy as int * dx as int - dx as int * dy as int == 0) by (nonlinear_arith);
            lemma_line_seq_props(a, b);
            assert(gs.subrange(0, gs.len() as int) =~= gs);
        }
        while !done
            invariant
                0 <= dx <= 0x2000_0000,
                0 <= dy <= 0x2000_0000,
                dx as int == iabs(b.x - a.x),
                dy as int == iabs(b.y - a.y),
                sx as int == sgn(b.x - a.x),
                sy as int == sgn(b.y - a.y),
                -0x1000_0000 <= a.x <= 0x1000_0000,
                -0x1000_0000 <= a.y <= 0x1000_0000,
                -0x1000_0000 <= ex <= 0x1000_0000,
                -0x1000_0000 <= ey <= 0x1000_0000,
                ex == b.x,
                ey == b.y,
                gs == line_seq(a, b),
                gs.len() == imax(dx as int, dy as int) + 1,
                step_inv(dx as int, dy as int, rx, ry),
                pos_ok(x as int, ex as int, sx as int, rx),
                pos_ok(y as int, ey as int, sy as int, ry),
                err as int == dx as int - dy as int + (dy as int * rx - dx as int * ry),
                v@.len() <= gs.len(),
                forall|i: int| 0 <= i < v@.len() ==> pix_of(#[trigger] v@[i]) == gs[i],
                !done ==> v@.len() + imax(rx, ry) + 1 == gs.len(),
                !done ==> gs.subrange(v@.len() as int, gs.len() as int) == bres_seq(
                    x as int,
                    y as int,
                    ex as int,
                    ey as int,
                    dx as int,
                    dy as int,
                    sx as int,
                    sy as int,
                    err as int,
                    imax(rx, ry) as nat,
                ),
                done ==> v@.len() == gs.len(),
            decreases imax(rx, ry) + (if done { 1int } else { 2int }),
        {
            let ghost len = v@.len() as int;
            let ghost glen = gs.len() as int;
            let ghost m = imax(rx, ry);
            let ghost cur = bres_seq(
                x as int,
                y as int,
                ex as int,
                ey as int,
                dx as int,
                dy as int,
                sx as int,
                sy as int,
                err as int,
                m as nat,
            );
            proof {
                assert(gs.subrange(len, glen)[0] == gs[len]);
                assert(cur[0] == (x as int, y as int));
            }
            v.push(Point { x, y });
            if x == ex && y == ey {
                proof {
                    assert(rx == 0 && ry == 0);
                    assert(cur == seq![(x as int, y as int)]);
                }
                done = true;
            } else {
                proof {
                    assert(rx >= 1 || ry >= 1);
                    lemma_bres_step(dx as int, dy as int, rx, ry);
                }
                let e2: i32 = 2 * err;
                let ghost rx1: int = if e2 > -dy { rx - 1 } else { rx };
                let ghost ry1: int = if e2 < dx { ry - 1 } else { ry };
                proof {
                    if e2 > -dy {
                        if e2 < dx {
                            assert(dy as int * (rx - 1) - dx as int * (ry - 1) == (dy as int * rx
                                - dx as int * ry) - dy + dx) by (nonlinear_arith);
                        } else {
                            assert(dy as int * (rx - 1) - dx as int * ry == (dy as int * rx
                                - dx as int * ry) - dy) by (nonlinear_arith);
                        }
                    } else {
                        if e2 < dx {
                            assert(dy as int * rx - dx as int * (ry - 1) == (dy as int * rx
                                - dx as int * ry) + dx) by (nonlinear_arith);
                        }
                    }
                    let s1 = bres_seq(
                        if e2 > -dy { x as int + sx as int } else { x as int },
                        if e2 < dx { y as int + sy as int } else { y as int },
                        ex as int,
                        ey as int,
                        dx as int,
                        dy as int,
                        sx as int,
                        sy as int,
                        dx as int - dy as int + (dy as int * rx1 - dx as int * ry1),
                        (m - 1) as nat,
                    );
                    assert(cur == seq![(x as int, y as int)] + s1);
                    assert forall|k: int| 0 <= k < glen - len - 1 implies gs.subrange(
                        len + 1,
                        glen,
                    )[k] == s1[k] by {
                        assert(gs.subrange(len + 1, glen)[k] == gs[len + 1 + k]);
                        assert(gs.subrange(len, glen)[k + 1] == gs[len + 1 + k]);
                        assert(cur[k + 1] == s1[k]);
                    }
                    assert(gs.subrange(len + 1, glen) =~= s1);
                }
                if e2 > -dy {
                    err = err - dy;
                    x = x + sx;
                    proof {
                        rx = rx - 1;
                    }
                }
                if e2 < dx {
                    err = err + dx;
                    y = y + sy;
                    proof {
                        ry = ry - 1;
                    }
                }
            }
        }
        v
    }
}


impl Drawable for Line {
    open spec fn pix_set(&self) -> Set<(int, int)> {
        self.seq_spec().to_set()
    }

    open spec fn fits(&self) -> bool {
        self.fits_spec()
    }

    fn draw(&self, img: &mut raster::Image, color: Color) {
        let v = self.pixels();
        proof {
            lemma_pts_set_matches(v@, self.seq_spec());
        }
        paint_points(img, &v, color);
    }
}

} // verus!
