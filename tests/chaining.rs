use embedded_graphics::{
    collect_pixels, BinaryColor, Chain, Circle, Line, LineIterator, Pixel, PixelIterator, Point, Rectangle, Scan,
};

struct FakeDisplay {
    drawn: Vec<Pixel<BinaryColor>>,
}

impl FakeDisplay {
    fn draw<I: PixelIterator<BinaryColor>>(&mut self, mut item_pixels: I) {
        self.drawn.extend(collect_pixels(&mut item_pixels));
    }
}

#[test]
fn it_supports_chaining() {
    let mut disp = FakeDisplay { drawn: Vec::new() };

    let chained = Chain::new(
        Rectangle::<BinaryColor>::new(Point::new(0, 0), Point::new(1, 1)).into_iter(),
        Circle::new(Point::new(2, 2), 1).into_iter(),
    );

    disp.draw(chained);
    // Neither shape has a stroke or a fill.
    assert!(disp.drawn.is_empty());
}

fn multi() -> Chain<LineIterator<BinaryColor>, Scan<Circle<BinaryColor>>> {
    let line = Line::new(Point::new(0, 1), Point::new(2, 3)).stroke_color(Some(BinaryColor::On)).into_iter();

    let circle = Circle::new(Point::new(5, 5), 3).stroke_color(Some(BinaryColor::On)).into_iter();

    Chain::new(line, circle)
}

#[test]
fn return_from_fn() {
    let mut disp = FakeDisplay { drawn: Vec::new() };

    let chained = multi();

    disp.draw(chained);
    assert_eq!(&disp.drawn[..3], &[
        Pixel(Point::new(0, 1), BinaryColor::On),
        Pixel(Point::new(1, 2), BinaryColor::On),
        Pixel(Point::new(2, 3), BinaryColor::On),
    ]);
    assert!(disp.drawn.len() > 3);
}

#[test]
fn implicit_into_iter() {
    let mut disp = FakeDisplay { drawn: Vec::new() };

    let chained = Chain::new(
        Rectangle::<BinaryColor>::new(Point::new(0, 0), Point::new(1, 1)).into_iter(),
        Circle::new(Point::new(2, 2), 1).into_iter(),
    );

    disp.draw(chained);
    assert!(disp.drawn.is_empty());
}

#[test]
fn chain_is_first_then_second() {
    let a = Line::new(Point::new(0, 0), Point::new(3, 1)).stroke_color(Some(BinaryColor::On));
    let b = Rectangle::new(Point::new(5, 5), Point::new(7, 6))
        .stroke_color(Some(BinaryColor::Off))
        .fill_color(Some(BinaryColor::On));
    let only_a = collect_pixels(&mut a.into_iter());
    let only_b = collect_pixels(&mut b.into_iter());
    let both = collect_pixels(&mut Chain::new(a.into_iter(), b.into_iter()));
    assert_eq!(both.len(), only_a.len() + only_b.len());
    assert_eq!(&both[..only_a.len()], &only_a[..]);
    assert_eq!(&both[only_a.len()..], &only_b[..]);
}

#[test]
fn rectangle_outline_and_fill() {
    let rect = Rectangle::new(Point::new(1, 1), Point::new(3, 3))
        .stroke_color(Some(BinaryColor::On))
        .fill_color(Some(BinaryColor::Off));
    let pixels = collect_pixels(&mut rect.into_iter());
    assert_eq!(pixels.len(), 9);
    assert_eq!(pixels[4], Pixel(Point::new(2, 2), BinaryColor::Off));
    assert!(pixels.iter().filter(|p| p.1 == BinaryColor::On).count() == 8);

    let outline_only = Rectangle::new(Point::new(3, 3), Point::new(1, 1)).stroke_color(Some(BinaryColor::On));
    let pixels = collect_pixels(&mut outline_only.into_iter());
    assert_eq!(pixels.len(), 8);
    assert_eq!(pixels[0].0, Point::new(1, 1));
}

#[test]
fn circle_outline() {
    let dot = Circle::new(Point::new(4, 4), 0).stroke_color(Some(BinaryColor::On));
    assert_eq!(collect_pixels(&mut dot.into_iter()), vec![Pixel(Point::new(4, 4), BinaryColor::On)]);

    let ring = Circle::new(Point::new(0, 0), 1).stroke_color(Some(BinaryColor::On));
    let points: Vec<Point> = collect_pixels(&mut ring.into_iter()).iter().map(|p| p.0).collect();
    assert_eq!(points, vec![Point::new(0, -1), Point::new(-1, 0), Point::new(1, 0), Point::new(0, 1)]);

    let disc = Circle::new(Point::new(0, 0), 1)
        .stroke_color(Some(BinaryColor::On))
        .fill_color(Some(BinaryColor::Off));
    let pixels = collect_pixels(&mut disc.into_iter());
    assert_eq!(pixels.len(), 5);
    assert_eq!(pixels[2], Pixel(Point::new(0, 0), BinaryColor::Off));
}

#[test]
fn shapes_translate() {
    let rect = Rectangle::new(Point::new(1, 2), Point::new(3, 4)).stroke_color(Some(BinaryColor::On));
    let moved = rect.translate(Point::new(-2, 5));
    assert_eq!(moved.top_left, Point::new(-1, 7));
    assert_eq!(moved.bottom_right, Point::new(1, 9));
    let mut in_place = rect;
    in_place.translate_mut(Point::new(-2, 5));
    assert_eq!(in_place.top_left, moved.top_left);
    assert_eq!(in_place.bottom_right, moved.bottom_right);
    let shifted: Vec<Pixel<BinaryColor>> = collect_pixels(&mut rect.into_iter())
        .iter()
        .map(|p| Pixel(Point::new(p.0.x - 2, p.0.y + 5), p.1))
        .collect();
    assert_eq!(collect_pixels(&mut moved.into_iter()), shifted);

    let circle = Circle::new(Point::new(0, 0), 2).stroke_color(Some(BinaryColor::On));
    let moved = circle.translate(Point::new(10, -10));
    assert_eq!(moved.center, Point::new(10, -10));
    assert_eq!(moved.radius, 2);
    let mut in_place = circle;
    in_place.translate_mut(Point::new(10, -10));
    assert_eq!(in_place.center, Point::new(10, -10));
    let shifted: Vec<Pixel<BinaryColor>> = collect_pixels(&mut circle.into_iter())
        .iter()
        .map(|p| Pixel(Point::new(p.0.x + 10, p.0.y - 10), p.1))
        .collect();
    assert_eq!(collect_pixels(&mut moved.into_iter()), shifted);
}

#[test]
fn point_arithmetic() {
    let a = Point::new(3, -4);
    let b = Point::new(-5, 2);
    assert_eq!(a.add(b), Point::new(-2, -2));
    assert_eq!(a.sub(b), Point::new(8, -6));
    assert_eq!(a.neg(), Point::new(-3, 4));
    assert_eq!(a.add(b).sub(b), a);
}
