use drawing::canvas::{new_canvas, put_pixel};
use drawing::circle::Circle;
use drawing::color::Color;
use drawing::line::Line;
use drawing::pentagon::Pentagon;
use drawing::point::Point;
use drawing::rectangle::Rectangle;
use drawing::shape::{Drawable, Shape};
use drawing::triangle::Triangle;

fn pix(img: &raster::Image, x: i32, y: i32) -> (u8, u8, u8) {
    let c = img.get_pixel(x, y).unwrap();
    (c.r, c.g, c.b)
}

const RED: Color = Color { r: 200, g: 10, b: 10 };

#[test]
fn line_pixel_count_endpoints_connectivity() {
    let cases = [
        ((0, 0), (4, 2)),
        ((3, 7), (-10, 2)),
        ((5, 5), (5, -9)),
        ((-4, 1), (12, 1)),
        ((2, 3), (9, 10)),
        ((0, 0), (1, 8)),
    ];
    for &((x0, y0), (x1, y1)) in cases.iter() {
        let l = Line::new(&Point::new(x0, y0), &Point::new(x1, y1));
        let v = l.pixels();
        let m = (x1 - x0).abs().max((y1 - y0).abs());
        assert_eq!(v.len() as i32, m + 1);
        assert_eq!((v[0].x, v[0].y), (x0, y0));
        assert_eq!((v[v.len() - 1].x, v[v.len() - 1].y), (x1, y1));
        for w in v.windows(2) {
            assert!((w[1].x - w[0].x).abs() <= 1);
            assert!((w[1].y - w[0].y).abs() <= 1);
        }
        for i in 0..v.len() {
            for j in (i + 1)..v.len() {
                assert!((v[i].x, v[i].y) != (v[j].x, v[j].y));
            }
        }
    }
}

#[test]
fn degenerate_line_emits_one_pixel() {
    let p = Point::new(7, -3);
    let v = Line::new(&p, &p).pixels();
    assert_eq!(v.len(), 1);
    assert_eq!((v[0].x, v[0].y), (7, -3));
}

#[test]
fn line_reverse_same_set_on_straight_and_diagonal() {
    let cases = [
        ((2, 3), (2, 11)),
        ((-5, 4), (9, 4)),
        ((1, 1), (6, 6)),
        ((4, -2), (-3, 5)),
        ((0, 0), (0, 0)),
    ];
    for &(a, b) in cases.iter() {
        let fwd = Line::new(&Point::new(a.0, a.1), &Point::new(b.0, b.1)).pixels();
        let rev = Line::new(&Point::new(b.0, b.1), &Point::new(a.0, a.1)).pixels();
        let mut fs: Vec<(i32, i32)> = fwd.iter().map(|p| (p.x, p.y)).collect();
        let mut rs: Vec<(i32, i32)> = rev.iter().map(|p| (p.x, p.y)).collect();
        fs.sort();
        rs.sort();
        assert_eq!(fs, rs);
    }
}

#[test]
fn line_reverse_differs_on_shallow_slopes() {
    // on slopes strictly between the straight and diagonal classes the
    // error tie-breaking picks different intermediate pixels in the two
    // directions, so the pixel sets differ there
    let fwd = Line::new(&Point::new(0, 0), &Point::new(4, 2)).pixels();
    let rev = Line::new(&Point::new(4, 2), &Point::new(0, 0)).pixels();
    let mut fs: Vec<(i32, i32)> = fwd.iter().map(|p| (p.x, p.y)).collect();
    let mut rs: Vec<(i32, i32)> = rev.iter().map(|p| (p.x, p.y)).collect();
    fs.sort();
    rs.sort();
    assert_ne!(fs, rs);
    assert!(fs.contains(&(1, 0)) && rs.contains(&(1, 1)));
}

#[test]
fn line_scenario_exact_pixels() {
    // re-derived from the error-update rule: dx=4, dy=2, err starts at 2
    let v = Line::new(&Point::new(0, 0), &Point::new(4, 2)).pixels();
    let got: Vec<(i32, i32)> = v.iter().map(|p| (p.x, p.y)).collect();
    assert_eq!(got, vec![(0, 0), (1, 0), (2, 1), (3, 1), (4, 2)]);
}

#[test]
fn circle_radius_five_exact_set() {
    let c = Circle::new(&Point::new(10, 10), 5);
    let v = c.pixels();
    let mut got: Vec<(i32, i32)> = v.iter().map(|p| (p.x - 10, p.y - 10)).collect();
    got.sort();
    got.dedup();
    let mut expected: Vec<(i32, i32)> = Vec::new();
    for &(x, y) in [(5, 0), (5, 1), (4, 2), (3, 3)].iter() {
        for &(dx, dy) in [
            (x, y),
            (y, x),
            (-y, x),
            (-x, y),
            (-x, -y),
            (-y, -x),
            (y, -x),
            (x, -y),
        ]
        .iter()
        {
            expected.push((dx, dy));
        }
    }
    expected.sort();
    expected.dedup();
    assert_eq!(got, expected);
    // the first step (y = 0) contributes the four cardinal points
    for &p in [(15, 10), (10, 15), (5, 10), (10, 5)].iter() {
        assert!(v.iter().any(|q| (q.x, q.y) == p));
    }
}

#[test]
fn circle_set_symmetric_under_eight_transforms() {
    for r in [0, 1, 3, 5, 8, 13] {
        let v = Circle::new(&Point::new(0, 0), r).pixels();
        let set: Vec<(i32, i32)> = v.iter().map(|p| (p.x, p.y)).collect();
        for &(x, y) in set.iter() {
            for m in [
                (x, y),
                (y, x),
                (-y, x),
                (-x, y),
                (-x, -y),
                (-y, -x),
                (y, -x),
                (x, -y),
            ] {
                assert!(set.contains(&m), "missing mirror {:?} of {:?} at r={}", m, (x, y), r);
            }
        }
    }
}

#[test]
fn circle_zero_radius_emits_center_only() {
    let v = Circle::new(&Point::new(4, -7), 0).pixels();
    assert!(!v.is_empty());
    for p in v.iter() {
        assert_eq!((p.x, p.y), (4, -7));
    }
}

#[test]
fn rectangle_corner_orderings_identical() {
    let a = Point::new(12, 3);
    let b = Point::new(-2, 9);
    let r1 = Rectangle::new(&a, &b);
    let r2 = Rectangle::new(&b, &a);
    let r3 = Rectangle::new(&Point::new(a.x, b.y), &Point::new(b.x, a.y));
    let r4 = Rectangle::new(&Point::new(b.x, a.y), &Point::new(a.x, b.y));
    assert_eq!(r1, r2);
    assert_eq!(r1, r3);
    assert_eq!(r1, r4);
    assert_eq!((r1.top_left.x, r1.top_left.y), (-2, 3));
    assert_eq!((r1.bottom_right.x, r1.bottom_right.y), (12, 9));
    // and the four orderings paint byte-identical images
    let mut imgs: Vec<raster::Image> = Vec::new();
    for r in [r1, r2, r3, r4] {
        let mut img = new_canvas(20, 20);
        r.draw(&mut img, RED);
        imgs.push(img);
    }
    assert_eq!(imgs[0].bytes, imgs[1].bytes);
    assert_eq!(imgs[0].bytes, imgs[2].bytes);
    assert_eq!(imgs[0].bytes, imgs[3].bytes);
}

#[test]
fn pentagon_vertices_closed_loop_and_values() {
    let p = Pentagon::new(Point::new(0, 0), 100);
    let v = p.get_vertices();
    assert_eq!(v.len(), 5);
    let got: Vec<(i32, i32)> = v.iter().map(|q| (q.x, q.y)).collect();
    assert_eq!(got, vec![(100, 0), (30, 95), (-80, 58), (-80, -58), (30, -95)]);
    // edge k ends where edge (k + 1) mod 5 begins
    for k in 0..5 {
        let edge_k = (v[k], v[(k + 1) % 5]);
        let edge_next = (v[(k + 1) % 5], v[(k + 2) % 5]);
        assert_eq!((edge_k.1.x, edge_k.1.y), (edge_next.0.x, edge_next.0.y));
    }
}

#[test]
fn pentagon_vertices_match_float_truncation() {
    for r in 0..300 {
        let p = Pentagon::new(Point::new(7, -11), r);
        let v = p.get_vertices();
        for k in 0..5 {
            let angle = 2.0 * std::f64::consts::PI * k as f64 / 5.0;
            let ex = 7 + (r as f64 * angle.cos()) as i32;
            let ey = -11 + (r as f64 * angle.sin()) as i32;
            assert_eq!((v[k].x, v[k].y), (ex, ey), "r={} k={}", r, k);
        }
    }
}

#[test]
fn canvas_discards_out_of_bounds_writes() {
    let mut img = new_canvas(10, 8);
    let before = img.bytes.clone();
    for &(x, y) in [
        (-1, 0),
        (0, -1),
        (10, 0),
        (0, 8),
        (-100, -100),
        (1000, 3),
        (i32::MIN, i32::MAX),
    ]
    .iter()
    {
        put_pixel(&mut img, x, y, RED);
    }
    assert_eq!(img.bytes, before);
    // an in-range write changes exactly that pixel
    put_pixel(&mut img, 3, 4, RED);
    for y in 0..8 {
        for x in 0..10 {
            if (x, y) == (3, 4) {
                assert_eq!(pix(&img, x, y), (200, 10, 10));
            } else {
                assert_eq!(pix(&img, x, y), (0, 0, 0));
            }
        }
    }
}

#[test]
fn point_draws_three_by_three_neighborhood() {
    let mut img = new_canvas(12, 12);
    Point::new(5, 6).draw(&mut img, RED);
    for y in 0..12 {
        for x in 0..12 {
            let expect = (4..=6).contains(&x) && (5..=7).contains(&y);
            let is_red = pix(&img, x, y) == (200, 10, 10);
            assert_eq!(is_red, expect, "pixel {:?}", (x, y));
        }
    }
}

#[test]
fn line_draw_writes_its_pixels_and_nothing_else() {
    let mut img = new_canvas(8, 8);
    let l = Line::new(&Point::new(0, 0), &Point::new(4, 2));
    l.draw(&mut img, RED);
    let expected = [(0, 0), (1, 0), (2, 1), (3, 1), (4, 2)];
    for y in 0..8 {
        for x in 0..8 {
            let expect = expected.contains(&(x, y));
            assert_eq!(pix(&img, x, y) == (200, 10, 10), expect, "pixel {:?}", (x, y));
        }
    }
}

#[test]
fn line_clipped_at_canvas_edge_draws_rest() {
    let mut img = new_canvas(4, 4);
    // runs from off-canvas through the canvas; no panic, in-range part drawn
    Line::new(&Point::new(-3, 1), &Point::new(3, 1)).draw(&mut img, RED);
    for x in 0..4 {
        assert_eq!(pix(&img, x, 1), (200, 10, 10));
    }
    assert_eq!(pix(&img, 0, 0), (0, 0, 0));
}

#[test]
fn triangle_draws_its_three_edges() {
    let mut img = new_canvas(16, 16);
    let t = Triangle::new(&Point::new(1, 1), &Point::new(9, 1), &Point::new(5, 9));
    t.draw(&mut img, RED);
    // corners lie on the outline
    for &(x, y) in [(1, 1), (9, 1), (5, 9)].iter() {
        assert_eq!(pix(&img, x, y), (200, 10, 10));
    }
    // the base edge is a straight run
    for x in 1..=9 {
        assert_eq!(pix(&img, x, 1), (200, 10, 10));
    }
    // the interior stays untouched
    assert_eq!(pix(&img, 5, 4), (0, 0, 0));
}

#[test]
fn shape_enum_dispatches_to_the_variant() {
    let mut by_enum = new_canvas(24, 24);
    let mut direct = new_canvas(24, 24);
    let c = Circle::new(&Point::new(12, 12), 6);
    Shape::Circle(c).draw(&mut by_enum, RED);
    c.draw(&mut direct, RED);
    assert_eq!(by_enum.bytes, direct.bytes);
    let mut by_enum2 = new_canvas(24, 24);
    Shape::Pentagon(Pentagon::new(Point::new(12, 12), 8)).draw(&mut by_enum2, RED);
    assert_eq!(pix(&by_enum2, 20, 12), (200, 10, 10));
}

#[test]
fn random_shapes_respect_their_ranges() {
    for _ in 0..50 {
        let p = Point::random(100, 40);
        assert!((0..100).contains(&p.x) && (0..40).contains(&p.y));
        let l = Line::random(64, 64);
        assert!((0..64).contains(&l.start.x) && (0..64).contains(&l.start.y));
        assert!((0..64).contains(&l.end.x) && (0..64).contains(&l.end.y));
        let c = Circle::random(200, 200);
        assert!((0..200).contains(&c.center.x) && (0..200).contains(&c.center.y));
        assert!((50..150).contains(&c.radius));
        let g = Pentagon::random(300, 300);
        assert!((0..300).contains(&g.center.x) && (0..300).contains(&g.center.y));
        assert!((30..100).contains(&g.radius));
    }
}

#[test]
fn color_channels_kept() {
    let c = Color::rgb(1, 2, 3);
    assert_eq!((c.r, c.g, c.b), (1, 2, 3));
}
