use vstd::prelude::*;
use crate::canvas::{image_pixels, lemma_painted_union};
use crate::color::Color;
use crate::line::{Line, line_seq};
use crate::point::{Point, coord_ok};
use crate::shape::Drawable;

verus! {

/// A triangle outline: three points taken in the order supplied, closing
/// back to the first. Collinear or repeated points are legal and degrade to
/// overlapping segments.
#[derive(Debug, Clone, Copy, PartialEq, Eq, Structural)]
pub struct Triangle {
    pub a: Point,
    pub b: Point,
    pub c: Point,
}

impl Triangle {
    pub open spec fn fits_spec(&self) -> bool {
        coord_ok(self.a) && coord_ok(self.b) && coord_ok(self.c)
    }

    pub fn new(a: &Point, b: &Point, c: &Point) -> (t: Triangle)
        ensures
            t == (Triangle { a: *a, b: *b, c: *c }),
    {
        Triangle { a: *a, b: *b, c: *c }
    }
}

impl Drawable for Triangle {
    /// The three edges, in the order the points were supplied.
    open spec fn pix_set(&self) -> Set<(int, int)> {
        line_seq(self.a, self.b).to_set().union(line_seq(self.b, self.c).to_set()).union(
            line_seq(self.c, self.a).to_set(),
        )
    }

    open spec fn fits(&self) -> bool {
        self.fits_spec()
    }

    fn draw(&self, img: &mut raster::Image, color: Color) {
        let ghost m0 = image_pixels(*img);
        let ghost ea = line_seq(self.a, self.b).to_set();
        let ghost eb = line_seq(self.b, self.c).to_set();
        let ghost ec = line_seq(self.c, self.a).to_set();
        Line::new(&self.a, &self.b).draw(img, color);
        proof {
            lemma_painted_union(m0, ea, eb, color);
        }
        Line::new(&self.b, &self.c).draw(img, color);
        proof {
            lemma_painted_union(m0, ea.union(eb), ec, color);
        }
        Line::new(&self.c, &self.a).draw(img, color);
    }
}

} // verus!
