use geometrical_shapes::canvas::{Displayable, PixelLog};
use geometrical_shapes::color::{Color, Pixel};
use geometrical_shapes::cube::Cube;
use geometrical_shapes::drawable::Drawable;
use geometrical_shapes::error::ShapeError;
use geometrical_shapes::line::Line;
use geometrical_shapes::pentagon::{reach, Pentagon};
use geometrical_shapes::point::Point;
use geometrical_shapes::polygon::{Rectangle, Triangle};
use geometrical_shapes::roots::integer_sqrt;

const WHITE: Color = Color { r: 255, g: 255, b: 255, a: 255 };

fn ends(lines: &[Line]) -> Vec<((i32, i32), (i32, i32))> {
    lines.iter().map(|l| ((l.start.x, l.start.y), (l.end.x, l.end.y))).collect()
}

fn trace(lines: &[Line]) -> Vec<Pixel> {
    let mut log = PixelLog::new();
    for line in lines {
        line.draw(&mut log);
    }
    log.pixels
}

#[test]
fn point_new_keeps_its_coordinates() {
    let p = Point::new(-3, 8);
    assert_eq!(p.x, -3);
    assert_eq!(p.y, 8);
}

#[test]
fn point_draw_with_writes_one_pixel() {
    let mut log = PixelLog::new();
    let colour = Color { r: 9, g: 8, b: 7, a: 6 };
    Point::new(2, 3).draw_with(&mut log, colour);
    assert_eq!(log.pixels, vec![Pixel { x: 2, y: 3, color: colour }]);
}

#[test]
fn point_draw_writes_one_opaque_pixel() {
    let mut log = PixelLog::new();
    Point::new(-2, 30).draw(&mut log);
    assert_eq!(log.pixels.len(), 1);
    assert_eq!((log.pixels[0].x, log.pixels[0].y), (-2, 30));
    assert_eq!(log.pixels[0].color.a, 255);
}

#[test]
fn point_random_stays_on_the_canvas() {
    let mut seen = [[false; 3]; 5];
    for _ in 0..500 {
        let p = Point::random(5, 3).unwrap();
        assert!(1 <= p.x && p.x < 5);
        assert!(1 <= p.y && p.y < 3);
        seen[p.x as usize][p.y as usize] = true;
    }
    // eight positions, five hundred draws
    assert!((1..5).all(|x| (1..3).all(|y| seen[x][y])));
    assert_eq!(Point::random(2, 2), Ok(Point { x: 1, y: 1 }));
}

#[test]
fn point_random_rejects_an_empty_canvas() {
    assert_eq!(Point::random(1, 5), Err(ShapeError::InvalidBounds { width: 1, height: 5 }));
    assert_eq!(Point::random(5, 1), Err(ShapeError::InvalidBounds { width: 5, height: 1 }));
    assert_eq!(Point::random(0, 0), Err(ShapeError::InvalidBounds { width: 0, height: 0 }));
    assert_eq!(
        Point::random(i32::MIN, 9),
        Err(ShapeError::InvalidBounds { width: i32::MIN, height: 9 })
    );
    assert_eq!(Line::random(1, 5), Err(ShapeError::InvalidBounds { width: 1, height: 5 }));
}

#[test]
fn sampled_colours_are_opaque_and_vary() {
    let p = Point::new(0, 0);
    let colours: Vec<Color> = (0..50).map(|_| p.color()).collect();
    assert!(colours.iter().all(|c| c.a == 255));
    assert!(colours.iter().any(|c| *c != colours[0]));
}

#[test]
fn color_rgb_is_opaque() {
    assert_eq!(Color::rgb(1, 2, 3), Color { r: 1, g: 2, b: 3, a: 255 });
}

#[test]
fn rectangle_corners() {
    let r = Rectangle::new(&Point::new(0, 0), &Point::new(10, 10));
    assert_eq!(r.point_a, Point { x: 0, y: 0 });
    assert_eq!(r.point_b, Point { x: 10, y: 10 });
    assert_eq!(r.point_c, Point { x: 0, y: 10 });
    assert_eq!(r.point_d, Point { x: 10, y: 0 });
}

#[test]
fn rectangle_edges_form_a_closed_loop() {
    let r = Rectangle::new(&Point::new(0, 0), &Point::new(10, 10));
    let edges = r.lines();
    assert_eq!(
        ends(&edges),
        vec![
            ((0, 0), (0, 10)),
            ((0, 10), (10, 10)),
            ((10, 10), (10, 0)),
            ((10, 0), (0, 0)),
        ]
    );
    assert!(edges.iter().all(|l| l.color == WHITE));
    assert!(edges.iter().all(|l| l.start.x == l.end.x || l.start.y == l.end.y));
}

#[test]
fn rectangle_draws_its_edges_in_order() {
    let r = Rectangle::new(&Point::new(2, 1), &Point::new(-1, 3));
    let mut log = PixelLog::new();
    r.draw(&mut log);
    assert_eq!(log.pixels, trace(&r.lines()));
    let at: Vec<(i32, i32)> = log.pixels.iter().map(|p| (p.x, p.y)).collect();
    assert_eq!(
        at,
        vec![
            (2, 1), (2, 2), (2, 3),
            (2, 3), (1, 3), (0, 3), (-1, 3),
            (-1, 3), (-1, 2), (-1, 1),
            (-1, 1), (0, 1), (1, 1), (2, 1),
        ]
    );
}

#[test]
fn triangle_edges_and_drawing() {
    let t = Triangle::new(&Point::new(0, 0), &Point::new(4, 0), &Point::new(0, 3));
    assert_eq!(t.point_a, Point { x: 0, y: 0 });
    assert_eq!(t.point_b, Point { x: 4, y: 0 });
    assert_eq!(t.point_c, Point { x: 0, y: 3 });
    let edges = t.lines();
    assert_eq!(ends(&edges), vec![((0, 0), (0, 3)), ((0, 3), (4, 0)), ((4, 0), (0, 0))]);
    let mut log = PixelLog::new();
    t.draw(&mut log);
    assert_eq!(log.pixels, trace(&edges));
    assert_eq!(log.pixels.len(), 4 + 5 + 5);
}

#[test]
fn triangle_on_one_line_draws_overlapping_lines() {
    let t = Triangle::new(&Point::new(0, 0), &Point::new(2, 0), &Point::new(1, 0));
    let mut log = PixelLog::new();
    t.draw(&mut log);
    let at: Vec<(i32, i32)> = log.pixels.iter().map(|p| (p.x, p.y)).collect();
    assert_eq!(at, vec![(0, 0), (1, 0), (1, 0), (2, 0), (2, 0), (1, 0), (0, 0)]);
}

#[test]
fn cube_back_face_is_shifted_by_half_the_diagonal() {
    let cube = Cube::new(&Point::new(10, 10), &Point::new(30, 50));
    assert_eq!(cube.rec_1, Rectangle::new(&Point::new(10, 10), &Point::new(30, 50)));
    // dx = (10 - 30) / 2 = -10, dy = -((10 - 50) / 2) = 20
    assert_eq!(cube.rec_2, Rectangle::new(&Point::new(0, 30), &Point::new(20, 70)));
}

#[test]
fn cube_halves_toward_zero() {
    // dx = -3 / 2 = -1, dy = -(-5 / 2) = 2
    let cube = Cube::new(&Point::new(0, 0), &Point::new(3, 5));
    assert_eq!(cube.rec_2.point_a, Point { x: -1, y: 2 });
    assert_eq!(cube.rec_2.point_b, Point { x: 2, y: 7 });
    // dx = 3 / 2 = 1, dy = -(5 / 2) = -2
    let cube = Cube::new(&Point::new(3, 5), &Point::new(0, 0));
    assert_eq!(cube.rec_2.point_a, Point { x: 4, y: 3 });
    assert_eq!(cube.rec_2.point_b, Point { x: 1, y: -2 });
}

#[test]
fn cube_has_twelve_edges() {
    let cube = Cube::new(&Point::new(0, 0), &Point::new(4, 4));
    let edges = cube.lines();
    assert_eq!(edges.len(), 12);
    assert_eq!(&edges[0..4], &cube.rec_1.lines()[..]);
    assert_eq!(&edges[4..8], &cube.rec_2.lines()[..]);
    assert_eq!(
        ends(&edges[8..12]),
        vec![
            ((0, 0), (-2, 2)),
            ((4, 4), (2, 6)),
            ((0, 4), (-2, 6)),
            ((4, 0), (2, 2)),
        ]
    );
    let mut log = PixelLog::new();
    cube.draw(&mut log);
    assert_eq!(log.pixels, trace(&edges));
}

#[test]
fn cube_that_does_not_fit() {
    assert!(Cube::can_span(&Point::new(0, 0), &Point::new(4, 4)));
    assert!(Cube::can_span(&Point::new(i32::MIN, i32::MAX), &Point::new(i32::MIN, i32::MAX)));
    assert!(!Cube::can_span(&Point::new(i32::MAX, 0), &Point::new(0, 0)));
    assert!(!Cube::can_span(&Point::new(0, 0), &Point::new(0, i32::MAX)));
    // the back face moves up by 2^30 from a front face that ends at the top
    assert!(!Cube::can_span(&Point::new(0, 0), &Point::new(i32::MAX, i32::MIN)));
    assert!(!Cube::can_span(&Point::new(0, 0), &Point::new(i32::MAX, i32::MAX)));
    assert!(Cube::can_span(&Point::new(0, i32::MAX), &Point::new(i32::MAX, 0)));
    let wide = Cube::new(&Point::new(0, i32::MAX), &Point::new(i32::MAX, 0));
    assert_eq!(wide.rec_2.point_a, Point { x: -1073741823, y: 1073741824 });
    assert_eq!(wide.rec_2.point_b, Point { x: 1073741824, y: -1073741823 });
}

#[test]
fn pentagon_of_side_ten() {
    let pentagon = Pentagon::new(&Point::new(0, 0), 10);
    assert_eq!(pentagon.lines.len(), 5);
    assert_eq!(
        ends(&pentagon.lines),
        vec![
            ((0, 0), (10, 0)),
            ((10, 0), (13, 9)),
            ((13, 9), (5, 14)),
            ((5, 14), (-3, 9)),
            ((-3, 9), (0, 0)),
        ]
    );
    assert!(pentagon.lines.iter().all(|l| l.color == WHITE));
}

#[test]
fn pentagon_edges_are_chained() {
    for side in [-25, -1, 0, 1, 7, 100, 12345] {
        let start = Point::new(50, -50);
        assert!(Pentagon::can_build(&start, side));
        let pentagon = Pentagon::new(&start, side);
        assert_eq!(pentagon.lines.len(), 5);
        assert_eq!(pentagon.lines[0].start, start);
        for k in 0..4 {
            assert_eq!(pentagon.lines[k].end, pentagon.lines[k + 1].start);
        }
    }
}

#[test]
fn pentagon_need_not_close() {
    let pentagon = Pentagon::new(&Point::new(0, 0), 7);
    // 7 cos 72 = 2.16, 7 cos 144 = -5.66: 7 + 2 - 5 - 5 + 2 = 1
    assert_eq!(pentagon.lines[4].end, Point { x: 1, y: 0 });
}

#[test]
fn pentagon_draws_its_edges_in_order() {
    let pentagon = Pentagon::new(&Point::new(3, 3), 6);
    let mut log = PixelLog::new();
    pentagon.draw(&mut log);
    assert_eq!(log.pixels, trace(&pentagon.lines));
}

#[test]
fn pentagon_that_does_not_fit() {
    assert!(!Pentagon::can_build(&Point::new(i32::MAX, 0), 1));
    assert!(!Pentagon::can_build(&Point::new(0, i32::MAX), 2));
    assert!(Pentagon::can_build(&Point::new(i32::MAX, 0), 0));
    assert!(Pentagon::can_build(&Point::new(i32::MAX, 0), -1));
    assert!(Pentagon::can_build(&Point::new(-1073741824, i32::MIN), i32::MAX));
    let huge = Pentagon::new(&Point::new(-1073741824, i32::MIN), i32::MAX);
    assert_eq!(huge.lines[0].end, Point { x: 1073741823, y: i32::MIN });
}

#[test]
fn reach_agrees_with_truncated_cosines_and_sines() {
    for side in -3000..=3000 {
        for k in 0..5usize {
            let angle = (72.0 * k as f64).to_radians();
            let x = (side as f64 * angle.cos()) as i64;
            let y = if k == 0 { 0 } else { (side as f64 * angle.sin()) as i64 };
            assert_eq!(reach(side, k), (x, y), "side {} edge {}", side, k);
        }
    }
}

#[test]
fn reach_of_the_largest_sides() {
    // 2^31 cos 72 = 663608942.37, 2^31 cos 36 = 1737350766.37,
    // 2^31 sin 72 = 2042378317.07, 2^31 sin 36 = 1262259217.83
    assert_eq!(reach(i32::MIN, 0), (-2147483648, 0));
    assert_eq!(reach(i32::MIN, 1), (-663608942, -2042378317));
    assert_eq!(reach(i32::MIN, 2), (1737350766, -1262259217));
    assert_eq!(reach(i32::MIN, 3), (1737350766, 1262259217));
    assert_eq!(reach(i32::MIN, 4), (-663608942, 2042378317));
    // (2^31 - 1) cos 36 = 1737350765.57, (2^31 - 1) sin 72 = 2042378316.12
    assert_eq!(reach(i32::MAX, 1), (663608942, 2042378316));
    assert_eq!(reach(i32::MAX, 2), (-1737350765, 1262259217));
}

#[test]
fn integer_sqrt_rounds_down() {
    assert_eq!(integer_sqrt(0), 0);
    assert_eq!(integer_sqrt(1), 1);
    assert_eq!(integer_sqrt(3), 1);
    assert_eq!(integer_sqrt(4), 2);
    assert_eq!(integer_sqrt(99), 9);
    assert_eq!(integer_sqrt(100), 10);
    assert_eq!(integer_sqrt(u128::MAX), u64::MAX);
    assert_eq!(integer_sqrt((1u128 << 64) - 1), (1u64 << 32) - 1);
    assert_eq!(integer_sqrt(1u128 << 64), 1u64 << 32);
}

#[test]
fn pixel_log_keeps_every_write() {
    let mut log = PixelLog::new();
    assert!(log.pixels.is_empty());
    log.display(1, 2, WHITE);
    log.display(1, 2, Color { r: 0, g: 0, b: 0, a: 0 });
    log.display(i32::MIN, i32::MAX, WHITE);
    assert_eq!(
        log.pixels,
        vec![
            Pixel { x: 1, y: 2, color: WHITE },
            Pixel { x: 1, y: 2, color: Color { r: 0, g: 0, b: 0, a: 0 } },
            Pixel { x: i32::MIN, y: i32::MAX, color: WHITE },
        ]
    );
}
