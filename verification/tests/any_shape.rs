use geometrical_shapes::{
    rasterize, Circle, Color, Cube, Drawable, Line, Pentagon, Pixel, PixelLog, Point, Rectangle,
    Shape, Triangle,
};

const WHITE: Color = Color { r: 255, g: 255, b: 255, a: 255 };

fn positions(pixels: &[Pixel]) -> Vec<(i32, i32)> {
    pixels.iter().map(|p| (p.x, p.y)).collect()
}

#[test]
fn rasterize_collects_the_writes_of_a_line() {
    let pixels = rasterize(&Line::new(Point::new(0, 0), Point::new(2, 2)));
    assert_eq!(
        pixels,
        vec![
            Pixel { x: 0, y: 0, color: WHITE },
            Pixel { x: 1, y: 1, color: WHITE },
            Pixel { x: 2, y: 2, color: WHITE },
        ]
    );
}

#[test]
fn rasterize_collects_the_writes_of_a_circle() {
    let pixels = rasterize(&Circle::new(Point::new(0, 0), 1));
    assert_eq!(
        positions(&pixels),
        vec![(0, -1), (0, -1), (0, 1), (0, 1), (1, 0), (-1, 0), (1, 0), (-1, 0)]
    );
    assert_eq!(pixels[0].color.a, 255);
    assert!(pixels.iter().all(|p| p.color == pixels[0].color));
}

#[test]
fn a_shape_draws_what_it_holds() {
    let a = Point::new(1, 1);
    let b = Point::new(4, 5);
    let c = Point::new(-2, 3);
    let shapes = vec![
        (Shape::Line(Line::new(a, b)), rasterize(&Line::new(a, b))),
        (Shape::Rectangle(Rectangle::new(&a, &b)), rasterize(&Rectangle::new(&a, &b))),
        (Shape::Triangle(Triangle::new(&a, &b, &c)), rasterize(&Triangle::new(&a, &b, &c))),
        (Shape::Cube(Cube::new(&a, &b)), rasterize(&Cube::new(&a, &b))),
        (Shape::Pentagon(Pentagon::new(&a, 9)), rasterize(&Pentagon::new(&a, 9))),
    ];
    for (shape, expected) in shapes.iter() {
        let mut log = PixelLog::new();
        shape.draw(&mut log);
        assert_eq!(&log.pixels, expected);
        assert!(!expected.is_empty());
    }
}

#[test]
fn a_shape_that_samples_its_colour() {
    let point = Shape::Point(Point::new(3, 4));
    let pixels = rasterize(&point);
    assert_eq!(positions(&pixels), vec![(3, 4)]);
    assert_eq!(pixels[0].color.a, 255);
    let circle = Shape::Circle(Circle::new(Point::new(3, 4), 2));
    let pixels = rasterize(&circle);
    assert_eq!(positions(&pixels), positions(&rasterize(&Circle::new(Point::new(3, 4), 2))));
}

#[test]
fn several_shapes_on_one_canvas() {
    let shapes = vec![
        Shape::Line(Line::new(Point::new(0, 0), Point::new(1, 0))),
        Shape::Circle(Circle::new(Point::new(9, 9), 0)),
        Shape::Point(Point::new(5, 5)),
    ];
    let mut log = PixelLog::new();
    for shape in shapes.iter() {
        shape.draw(&mut log);
    }
    assert_eq!(
        positions(&log.pixels),
        vec![(0, 0), (1, 0), (9, 9), (9, 9), (9, 9), (9, 9), (5, 5)]
    );
}
