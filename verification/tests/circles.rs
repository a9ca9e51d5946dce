use geometrical_shapes::canvas::PixelLog;
use geometrical_shapes::circle::{closest_to_target, distance, is_nearer, Circle};
use geometrical_shapes::color::{Color, Pixel};
use geometrical_shapes::drawable::Drawable;
use geometrical_shapes::error::ShapeError;
use geometrical_shapes::point::Point;

const RED: Color = Color { r: 200, g: 10, b: 20, a: 255 };

fn drawn(cx: i32, cy: i32, radius: i32) -> Vec<(i32, i32)> {
    let circle = Circle::new(Point::new(cx, cy), radius);
    assert!(circle.can_draw());
    let mut log = PixelLog::new();
    circle.draw_with(&mut log, RED);
    assert!(log.pixels.iter().all(|p| p.color == RED));
    log.pixels.iter().map(|p| (p.x, p.y)).collect()
}

/// The same walk with the distances taken as floating-point square roots.
fn walked_with_roots(cx: i32, cy: i32, radius: i32) -> Vec<(i32, i32)> {
    let mut out = Vec::new();
    if radius == 0 {
        return vec![(cx, cy); 4];
    }
    let away = |x: i32, y: i32| (((x - cx).pow(2) + (y - cy).pow(2)) as f64).sqrt();
    let target = radius as f64;
    let mut x = cx;
    let mut y = cy - radius;
    while y <= cy {
        out.push((x, y));
        out.push((2 * cx - x, y));
        out.push((x, 2 * cy - y));
        out.push((2 * cx - x, 2 * cy - y));
        let a = away(x + 1, y);
        let b = away(x, y + 1);
        let c = away(x + 1, y + 1);
        let (da, db, dc) = ((a - target).abs(), (b - target).abs(), (c - target).abs());
        let min = if da <= db && da <= dc {
            a
        } else if db <= dc {
            b
        } else {
            c
        };
        if a == min {
            x += 1;
        } else if b == min {
            y += 1;
        } else {
            x += 1;
            y += 1;
        }
    }
    out
}

#[test]
fn circle_new_keeps_centre_and_radius() {
    let circle = Circle::new(Point::new(4, -9), 12);
    assert_eq!(circle.center, Point { x: 4, y: -9 });
    assert_eq!(circle.radius, 12);
}

#[test]
fn circle_of_radius_zero_is_its_centre() {
    let pixels = drawn(5, 6, 0);
    assert_eq!(pixels, vec![(5, 6), (5, 6), (5, 6), (5, 6)]);
}

#[test]
fn circle_of_negative_radius_is_empty() {
    assert_eq!(drawn(5, 6, -1), vec![]);
    assert_eq!(drawn(i32::MAX, i32::MIN, i32::MIN), vec![]);
}

#[test]
fn circle_of_radius_one() {
    // from the top (0, -1) the diagonal neighbour (1, 0) lies on the circle
    let pixels = drawn(10, 20, 1);
    assert_eq!(
        pixels,
        vec![(10, 19), (10, 19), (10, 21), (10, 21), (11, 20), (9, 20), (11, 20), (9, 20)]
    );
}

#[test]
fn circle_of_radius_three() {
    let pixels = drawn(0, 0, 3);
    let quadrant: Vec<(i32, i32)> = pixels.iter().step_by(4).cloned().collect();
    assert_eq!(quadrant, vec![(0, -3), (1, -3), (2, -2), (3, -1), (3, 0)]);
    assert_eq!(pixels.len(), 20);
    assert_eq!(&pixels[4..8], &[(1, -3), (-1, -3), (1, 3), (-1, 3)]);
}

#[test]
fn circle_agrees_with_the_walk_on_roots() {
    for radius in 0..=120 {
        assert_eq!(drawn(7, -11, radius), walked_with_roots(7, -11, radius), "radius {}", radius);
    }
}

#[test]
fn circle_pixels_lie_within_half_a_pixel() {
    for radius in 0..=80 {
        for (x, y) in drawn(-3, 4, radius) {
            let away = (((x + 3).pow(2) + (y - 4).pow(2)) as f64).sqrt();
            assert!((away - radius as f64).abs() <= 0.5, "radius {} at {:?}", radius, (x, y));
        }
    }
}

#[test]
fn circle_is_symmetric() {
    for radius in 0..=40 {
        let pixels = drawn(9, -2, radius);
        for &(x, y) in pixels.iter() {
            assert!(pixels.contains(&(2 * 9 - x, y)));
            assert!(pixels.contains(&(x, 2 * -2 - y)));
        }
    }
}

#[test]
fn circle_starts_at_the_top_and_ends_at_the_side() {
    let pixels = drawn(100, 100, 25);
    assert_eq!(pixels[0], (100, 75));
    assert_eq!(pixels[2], (100, 125));
    let last = pixels.len() - 4;
    assert_eq!(pixels[last], (125, 100));
    assert_eq!(pixels[last + 1], (75, 100));
}

#[test]
fn circle_at_the_edge_of_the_grid() {
    let circle = Circle::new(Point::new(i32::MAX - 2, i32::MIN + 2), 2);
    assert!(circle.can_draw());
    let mut log = PixelLog::new();
    circle.draw_with(&mut log, RED);
    assert_eq!(log.pixels[0], Pixel { x: i32::MAX - 2, y: i32::MIN, color: RED });
    assert!(log.pixels.contains(&Pixel { x: i32::MAX, y: i32::MIN + 2, color: RED }));
    assert!(!Circle::new(Point::new(i32::MAX - 2, 0), 3).can_draw());
    assert!(!Circle::new(Point::new(0, i32::MIN + 2), 3).can_draw());
    assert!(Circle::new(Point::new(0, i32::MIN + 2), -3).can_draw());
}

#[test]
fn circle_draw_uses_one_opaque_colour() {
    let circle = Circle::new(Point::new(0, 0), 6);
    let mut log = PixelLog::new();
    circle.draw(&mut log);
    let at: Vec<(i32, i32)> = log.pixels.iter().map(|p| (p.x, p.y)).collect();
    assert_eq!(at, drawn(0, 0, 6));
    let first = log.pixels[0].color;
    assert_eq!(first.a, 255);
    assert!(log.pixels.iter().all(|p| p.color == first));
}

#[test]
fn circle_random_fits_the_canvas() {
    for _ in 0..200 {
        let circle = Circle::random(9, 20).unwrap();
        assert!(1 <= circle.center.x && circle.center.x < 9);
        assert!(1 <= circle.center.y && circle.center.y < 20);
        assert!(0 <= circle.radius && circle.radius < 4);
    }
    let only = Circle::random(2, 3).unwrap();
    assert_eq!(only.center.x, 1);
    assert_eq!(only.radius, 0);
}

#[test]
fn circle_random_rejects_an_empty_canvas() {
    assert_eq!(Circle::random(1, 10), Err(ShapeError::InvalidBounds { width: 1, height: 10 }));
    assert_eq!(Circle::random(10, 0), Err(ShapeError::InvalidBounds { width: 10, height: 0 }));
    assert_eq!(Circle::random(-5, -5), Err(ShapeError::InvalidBounds { width: -5, height: -5 }));
}

#[test]
fn distance_is_squared() {
    assert_eq!(distance((0, 0), (3, 4)), 25);
    assert_eq!(distance((-1, 2), (-1, 2)), 0);
    assert_eq!(distance((5, -5), (2, -1)), 25);
    assert_eq!(distance((-4294967296, 0), (4294967296, 4294967296)), 92233720368547758080);
}

#[test]
fn nearer_on_the_same_side() {
    // radius 5: 36 and 49 lie outside, 9 and 16 inside
    assert!(is_nearer(36, 49, 5));
    assert!(!is_nearer(49, 36, 5));
    assert!(is_nearer(16, 9, 5));
    assert!(!is_nearer(9, 16, 5));
    assert!(is_nearer(25, 25, 5));
}

#[test]
fn nearer_across_the_circle() {
    // radius 5: gaps of 1 on both sides tie, a gap of 1 beats a gap of 2
    assert!(is_nearer(36, 16, 5));
    assert!(is_nearer(16, 36, 5));
    assert!(is_nearer(36, 9, 5));
    assert!(!is_nearer(9, 36, 5));
    assert!(!is_nearer(49, 16, 5));
    assert!(is_nearer(16, 49, 5));
    // sqrt(26) - 5 = 0.099 against 5 - sqrt(24) = 0.101
    assert!(is_nearer(26, 24, 5));
    assert!(!is_nearer(24, 26, 5));
}

#[test]
fn nearer_agrees_with_roots() {
    for target in 0..=12 {
        for a in 0..=200u128 {
            for b in 0..=200u128 {
                let gap_a = ((a as f64).sqrt() - target as f64).abs();
                let gap_b = ((b as f64).sqrt() - target as f64).abs();
                if (gap_a - gap_b).abs() > 1e-9 {
                    assert_eq!(is_nearer(a, b, target), gap_a < gap_b, "{} {} {}", a, b, target);
                }
            }
        }
    }
}

#[test]
fn nearer_with_a_radius_that_is_not_positive() {
    assert!(is_nearer(1, 2, 0));
    assert!(!is_nearer(2, 1, 0));
    assert!(is_nearer(1, 2, -7));
    assert!(!is_nearer(2, 1, -7));
}

#[test]
fn nearer_on_huge_distances() {
    let far = u128::MAX;
    assert!(is_nearer(0, far, i32::MAX));
    assert!(!is_nearer(far, 0, i32::MAX));
    assert!(is_nearer(far - 1, far, i32::MAX));
    let on = (i32::MAX as u128) * (i32::MAX as u128);
    assert!(is_nearer(on, on + 1, i32::MAX));
    assert!(is_nearer(on, on - 1, i32::MAX));
    assert!(!is_nearer(on - 1, on, i32::MAX));
    // one inside and one outside, at the same distance up to rounding
    assert!(is_nearer(on + 2 * (i32::MAX as u128), on - 2 * (i32::MAX as u128), i32::MAX));
}

#[test]
fn closest_to_target_prefers_the_first_on_a_tie() {
    assert_eq!(closest_to_target(36, 16, 49, 5), 36);
    assert_eq!(closest_to_target(16, 36, 49, 5), 16);
    assert_eq!(closest_to_target(49, 36, 16, 5), 36);
    assert_eq!(closest_to_target(49, 64, 36, 5), 36);
    assert_eq!(closest_to_target(49, 9, 24, 5), 24);
    assert_eq!(closest_to_target(1, 1, 2, 0), 1);
}
