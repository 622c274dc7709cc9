use vstd::prelude::*;
use crate::canvas::{image_pixels, lemma_painted_union};
use crate::color::Color;
use crate::line::{Line, line_seq};
use crate::point::{Point, coord_ok};
use crate::shape::Drawable;

verus! {

/// An axis-aligned rectangle outline, stored as its two normalized corners:
/// `top_left` has the smaller coordinates, `bottom_right` the larger ones,
/// whatever order the corners were given in.
#[derive(Debug, Clone, Copy, PartialEq, Eq, Structural)]
pub struct Rectangle {
    pub top_left: Point,
    pub bottom_right: Point,
}

/// The rectangle two opposite corners describe, orientation-independent.
pub open spec fn rect_from(p1: Point, p2: Point) -> Rectangle {
    Rectangle {
        top_left: Point {
            x: if p1.x <= p2.x { p1.x } else { p2.x },
            y: if p1.y <= p2.y { p1.y } else { p2.y },
        },
        bottom_right: Point {
            x: if p1.x >= p2.x { p1.x } else { p2.x },
            y: if p1.y >= p2.y { p1.y } else { p2.y },
        },
    }
}

/// All four orderings of two opposite corners build the same rectangle, so
/// they rasterize the same pixel set.
pub proof fn lemma_rectangle_orientation(p1: Point, p2: Point)
    ensures
        rect_from(p1, p2) == rect_from(p2, p1),
        rect_from(p1, p2) == rect_from(Point { x: p1.x, y: p2.y }, Point { x: p2.x, y: p1.y }),
        rect_from(p1, p2) == rect_from(Point { x: p2.x, y: p1.y }, Point { x: p1.x, y: p2.y }),
        rect_from(p1, p2).pix_set() == rect_from(p2, p1).pix_set(),
        rect_from(p1, p2).pix_set() == rect_from(
            Point { x: p1.x, y: p2.y },
            Point { x: p2.x, y: p1.y },
        ).pix_set(),
        rect_from(p1, p2).pix_set() == rect_from(
            Point { x: p2.x, y: p1.y },
            Point { x: p1.x, y: p2.y },
        ).pix_set(),
{
}

impl Rectangle {
    /// The rectangle's other two derived corners.
    pub open spec fn top_right(&self) -> Point {
        Point { x: self.bottom_right.x, y: self.top_left.y }
    }

    pub open spec fn bottom_left(&self) -> Point {
        Point { x: self.top_left.x, y: self.bottom_right.y }
    }

    pub open spec fn fits_spec(&self) -> bool {
        coord_ok(self.top_left) && coord_ok(self.bottom_right)
    }

    /// Build the rectangle from two opposite corners, in any order; the
    /// stored corners are normalized.
    pub fn new(p1: &Point, p2: &Point) -> (r: Rectangle)
        ensures
            r == rect_from(*p1, *p2),
    {
        Rectangle {
            top_left: Point {
                x: if p1.x <= p2.x { p1.x } else { p2.x },
                y: if p1.y <= p2.y { p1.y } else { p2.y },
            },
            bottom_right: Point {
                x: if p1.x >= p2.x { p1.x } else { p2.x },
                y: if p1.y >= p2.y { p1.y } else { p2.y },
            },
        }
    }
}

impl Drawable for Rectangle {
    /// The four edges, top-left to top-right to bottom-right to bottom-left
    /// and back.
    open spec fn pix_set(&self) -> Set<(int, int)> {
        line_seq(self.top_left, self.top_right()).to_set().union(
            line_seq(self.top_right(), self.bottom_right).to_set(),
        ).union(line_seq(self.bottom_right, self.bottom_left()).to_set()).union(
            line_seq(self.bottom_left(), self.top_left).to_set(),
        )
    }

    open spec fn fits(&self) -> bool {
        self.fits_spec()
    }

    fn draw(&self, img: &mut raster::Image, color: Color) {
        let tl = self.top_left;
        let br = self.bottom_right;
        let tr = Point { x: br.x, y: tl.y };
        let bl = Point { x: tl.x, y: br.y };
        let ghost m0 = image_pixels(*img);
        let ghost ea = line_seq(tl, tr).to_set();
        let ghost eb = line_seq(tr, br).to_set();
        let ghost ec = line_seq(br, bl).to_set();
        let ghost ed = line_seq(bl, tl).to_set();
        Line::new(&tl, &tr).draw(img, color);
        proof {
            lemma_painted_union(m0, ea, eb, color);
        }
        Line::new(&tr, &br).draw(img, color);
        proof {
            lemma_painted_union(m0, ea.union(eb), ec, color);
        }
        Line::new(&br, &bl).draw(img, color);
        proof {
            lemma_painted_union(m0, ea.union(eb).union(ec), ed, color);
        }
        Line::new(&bl, &tl).draw(img, color);
    }
}

} // verus!
