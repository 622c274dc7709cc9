use vstd::prelude::*;
use crate::canvas::{canvas_ok, image_height, image_pixels, image_width, painted};
use crate::color::Color;

verus! {

/// The shared drawing contract: a shape affects exactly the pixels computed
/// from its stored data, in the caller-supplied color, going through the
/// bounded pixel write that silently discards out-of-range coordinates; it
/// never errors, whatever the coordinates.
pub trait Drawable {
    /// The coordinates the shape's rasterization covers.
    spec fn pix_set(&self) -> Set<(int, int)>;

    /// The shape's data is within the rasterizers' working range.
    spec fn fits(&self) -> bool;

    /// Write the shape onto the canvas in the given color.
    fn draw(&self, img: &mut raster::Image, color: Color)
        requires
            self.fits(),
            canvas_ok(*old(img)),
        ensures
            canvas_ok(*final(img)),
            image_width(*final(img)) == image_width(*old(img)),
            image_height(*final(img)) == image_height(*old(img)),
            image_pixels(*final(img)) == painted(
                image_pixels(*old(img)),
                self.pix_set(),
                color,
            ),
    ;
}

/// The closed set of shapes, one variant per primitive or composite, with a
/// single `draw` matched over the variant.
#[derive(Debug, Clone, Copy, PartialEq, Eq, Structural)]
pub enum Shape {
    Point(crate::point::Point),
    Line(crate::line::Line),
    Rectangle(crate::rectangle::Rectangle),
    Triangle(crate::triangle::Triangle),
    Circle(crate::circle::Circle),
    Pentagon(crate::pentagon::Pentagon),
}

impl Drawable for Shape {
    open spec fn pix_set(&self) -> Set<(int, int)> {
        match self {
            Shape::Point(p) => p.pix_set(),
            Shape::Line(l) => l.pix_set(),
            Shape::Rectangle(r) => r.pix_set(),
            Shape::Triangle(t) => t.pix_set(),
            Shape::Circle(c) => c.pix_set(),
            Shape::Pentagon(p) => p.pix_set(),
        }
    }

    open spec fn fits(&self) -> bool {
        match self {
            Shape::Point(p) => p.fits(),
            Shape::Line(l) => l.fits(),
            Shape::Rectangle(r) => r.fits(),
            Shape::Triangle(t) => t.fits(),
            Shape::Circle(c) => c.fits(),
            Shape::Pentagon(p) => p.fits(),
        }
    }

    fn draw(&self, img: &mut raster::Image, color: Color) {
        match self {
            Shape::Point(p) => p.draw(img, color),
            Shape::Line(l) => l.draw(img, color),
            Shape::Rectangle(r) => r.draw(img, color),
            Shape::Triangle(t) => t.draw(img, color),
            Shape::Circle(c) => c.draw(img, color),
            Shape::Pentagon(p) => p.draw(img, color),
        }
    }
}

} // verus!
