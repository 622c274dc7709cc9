use vstd::prelude::*;
use crate::color::Color;
use crate::point::{Point, pix_of, pts_set};

verus! {

#[verifier::external_type_specification]
#[verifier::external_body]
pub struct ExImage(raster::Image);

/// The color stored at each in-range coordinate of the image (alpha ignored).
pub uninterp spec fn image_pixels(img: raster::Image) -> Map<(int, int), Color>;

/// The image's fixed width in pixels.
pub uninterp spec fn image_width(img: raster::Image) -> int;

/// The image's fixed height in pixels.
pub uninterp spec fn image_height(img: raster::Image) -> int;

/// Whether the image's byte buffer holds exactly width * height RGBA pixels
/// as `raster::Image::blank` lays it out, with dimensions small enough that
/// every byte offset stays in range.
pub uninterp spec fn image_wf(img: raster::Image) -> bool;

/// The coordinates that lie on a canvas of the given dimensions.
pub open spec fn grid(w: int, h: int) -> Set<(int, int)> {
    Set::new(|q: (int, int)| 0 <= q.0 < w && 0 <= q.1 < h)
}

/// A canvas the rasterizers can write to: a well-formed buffer whose pixel
/// map covers exactly the in-range coordinates.
pub open spec fn canvas_ok(img: raster::Image) -> bool {
    &&& image_wf(img)
    &&& image_pixels(img).dom() == grid(image_width(img), image_height(img))
}

/// The pixel map after writing color `c` to every coordinate of `pts` that
/// the canvas holds; everything else keeps its old color.
pub open spec fn painted(
    m: Map<(int, int), Color>,
    pts: Set<(int, int)>,
    c: Color,
) -> Map<(int, int), Color> {
    Map::new(
        |q: (int, int)| m.dom().contains(q),
        |q: (int, int)| if pts.contains(q) { c } else { m[q] },
    )
}

/// Painting nothing changes nothing.
pub proof fn lemma_painted_empty(m: Map<(int, int), Color>, c: Color)
    ensures
        painted(m, Set::empty(), c) == m,
{
    assert(painted(m, Set::empty(), c) =~= m);
}

/// Consecutive paints with one color merge into a paint of the union.
pub proof fn lemma_painted_union(
    m: Map<(int, int), Color>,
    a: Set<(int, int)>,
    b: Set<(int, int)>,
    c: Color,
)
    ensures
        painted(painted(m, a, c), b, c) == painted(m, a.union(b), c),
{
    assert(painted(painted(m, a, c), b, c) =~= painted(m, a.union(b), c));
}

/// Relies on raster::Image::blank: it builds an image of the given
/// dimensions whose byte buffer holds width * height RGBA pixels, every one
/// of them opaque black.
#[verifier::external_body]
fn blank_image(w: i32, h: i32) -> (img: raster::Image)
    requires
        1 <= w <= 0x4000,
        1 <= h <= 0x4000,
    ensures
        image_wf(img),
        image_width(img) == w,
        image_height(img) == h,
        image_pixels(img) == Map::new(
            |q: (int, int)| 0 <= q.0 < w && 0 <= q.1 < h,
            |q: (int, int)| (Color { r: 0, g: 0, b: 0 }),
        ),
{
    raster::Image::blank(w, h)
}

/// Relies on raster::Image::set_pixel: on a well-formed image and in-range
/// coordinates it overwrites exactly the four RGBA bytes of pixel (x, y) and
/// returns Ok.
#[verifier::external_body]
fn set_pixel_raw(img: &mut raster::Image, x: i32, y: i32, color: Color)
    requires
        image_wf(*old(img)),
        0 <= x < image_width(*old(img)),
        0 <= y < image_height(*old(img)),
    ensures
        image_wf(*final(img)),
        image_width(*final(img)) == image_width(*old(img)),
        image_height(*final(img)) == image_height(*old(img)),
        image_pixels(*final(img)) == image_pixels(*old(img)).insert(
            (x as int, y as int),
            color,
        ),
{
    let _ = img.set_pixel(x, y, raster::Color::rgba(color.r, color.g, color.b, 255));
}

/// Relies on the public `width` field of raster::Image.
#[verifier::external_body]
fn width_of(img: &raster::Image) -> (w: i32)
    ensures
        w as int == image_width(*img),
{
    img.width
}

/// Relies on the public `height` field of raster::Image.
#[verifier::external_body]
fn height_of(img: &raster::Image) -> (h: i32)
    ensures
        h as int == image_height(*img),
{
    img.height
}

/// A fresh all-black canvas of the given dimensions.
pub fn new_canvas(w: i32, h: i32) -> (img: raster::Image)
    requires
        1 <= w <= 0x4000,
        1 <= h <= 0x4000,
    ensures
        canvas_ok(img),
        image_width(img) == w,
        image_height(img) == h,
        forall|q: (int, int)|
            grid(w as int, h as int).contains(q) ==> image_pixels(img)[q] == (Color {
                r: 0,
                g: 0,
                b: 0,
            }),
{
    let img = blank_image(w, h);
    proof {
        assert(image_pixels(img).dom() =~= grid(w as int, h as int));
    }
    img
}

/// The single bounded pixel write every shape draws through: stores the
/// color at (x, y) when the coordinates are in range, and silently leaves
/// the canvas untouched when they are not.
pub fn put_pixel(img: &mut raster::Image, x: i32, y: i32, color: Color)
    requires
        canvas_ok(*old(img)),
    ensures
        canvas_ok(*final(img)),
        image_width(*final(img)) == image_width(*old(img)),
        image_height(*final(img)) == image_height(*old(img)),
        image_pixels(*final(img)) == painted(
            image_pixels(*old(img)),
            Set::new(|q: (int, int)| q == (x as int, y as int)),
            color,
        ),
{
    let ghost m0 = image_pixels(*img);
    let ghost pts = Set::new(|q: (int, int)| q == (x as int, y as int));
    let w = width_of(img);
    let h = height_of(img);
    if 0 <= x && x < w && 0 <= y && y < h {
        set_pixel_raw(img, x, y, color);
        proof {
            assert(m0.dom().contains((x as int, y as int)));
            assert(image_pixels(*img).dom() =~= m0.dom());
            assert(image_pixels(*img) =~= painted(m0, pts, color));
        }
    } else {
        proof {
            assert(!m0.dom().contains((x as int, y as int)));
            assert(image_pixels(*img) =~= painted(m0, pts, color));
        }
    }
}

/// Write every point of the run in the given color, one bounded pixel write
/// each; out-of-range points fall away silently.
pub fn paint_points(img: &mut raster::Image, pts: &Vec<Point>, color: Color)
    requires
        canvas_ok(*old(img)),
    ensures
        canvas_ok(*final(img)),
        image_width(*final(img)) == image_width(*old(img)),
        image_height(*final(img)) == image_height(*old(img)),
        image_pixels(*final(img)) == painted(image_pixels(*old(img)), pts_set(pts@), color),
{
    let ghost m0 = image_pixels(*img);
    proof {
        assert(pts_set(pts@.take(0)) =~= Set::<(int, int)>::empty());
        lemma_painted_empty(m0, color);
    }
    let n = pts.len();
    let mut i: usize = 0;
    while i < n
        invariant
            n == pts@.len(),
            i <= n,
            canvas_ok(*img),
            image_width(*img) == image_width(*old(img)),
            image_height(*img) == image_height(*old(img)),
            m0 == image_pixels(*old(img)),
            canvas_ok(*old(img)),
            image_pixels(*img) == painted(m0, pts_set(pts@.take(i as int)), color),
        decreases n - i,
    {
        let ghost before = image_pixels(*img);
        let ghost si = pts_set(pts@.take(i as int));
        let p = pts[i];
        put_pixel(img, p.x, p.y, color);
        proof {
            let q = pix_of(p);
            let one = Set::new(|r: (int, int)| r == q);
            assert(image_pixels(*img) == painted(before, one, color));
            lemma_painted_union(m0, si, one, color);
            assert forall|r: (int, int)| #[trigger] pts_set(pts@.take(i + 1)).contains(r) implies si.union(
                one,
            ).contains(r) by {
                let j = choose|j: int| 0 <= j < i + 1 && #[trigger] pix_of(pts@.take(i + 1)[j]) == r;
                if j < i {
                    assert(pix_of(pts@.take(i as int)[j]) == r);
                }
            }
            assert forall|r: (int, int)| si.union(one).contains(r) implies #[trigger] pts_set(
                pts@.take(i + 1),
            ).contains(r) by {
                if si.contains(r) {
                    let j = choose|j: int| 0 <= j < i && #[trigger] pix_of(pts@.take(i as int)[j]) == r;
                    assert(pix_of(pts@.take(i + 1)[j]) == r);
                } else {
                    assert(pix_of(pts@.take(i + 1)[i as int]) == r);
                }
            }
            assert(pts_set(pts@.take(i + 1)) =~= si.union(one));
        }
        i = i + 1;
    }
    proof {
        assert(pts@.take(n as int) =~= pts@);
    }
}

} // verus!
