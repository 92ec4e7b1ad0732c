use embedded_graphics::{collect_pixels, BinaryColor, Line, Pixel, Point, Size, Style};

fn test_expected_line(start: Point, end: Point, expected: &[(i32, i32)]) {
    let line = Line::new(start, end).style(Style::stroke(BinaryColor::On));
    let pixels = collect_pixels(&mut line.into_iter());
    let points: Vec<(i32, i32)> = pixels.iter().map(|Pixel(p, _)| (p.x, p.y)).collect();
    assert_eq!(points, expected.to_vec());
}

#[test]
fn bounding_box() {
    let start = Point::new(10, 10);
    let end = Point::new(20, 20);

    let line: Line<BinaryColor> = Line::new(start, end);
    let backwards_line: Line<BinaryColor> = Line::new(end, start);

    // Sizes count both ends; the bottom-right corner lies just past the box.
    assert_eq!(line.top_left(), start);
    assert_eq!(line.bottom_right(), Point::new(21, 21));
    assert_eq!(line.size(), Size::new(11, 11));

    assert_eq!(backwards_line.top_left(), start);
    assert_eq!(backwards_line.bottom_right(), Point::new(21, 21));
    assert_eq!(backwards_line.size(), Size::new(11, 11));
}

#[test]
fn draws_no_dot() {
    // A zero-length line is a single point.
    let start = Point::new(10, 10);
    let end = Point::new(10, 10);
    let expected = [(10, 10)];
    test_expected_line(start, end, &expected);
}

#[test]
fn draws_short_correctly() {
    let start = Point::new(2, 3);
    let end = Point::new(3, 2);
    let expected = [(2, 3), (3, 2)];
    test_expected_line(start, end, &expected);
}

#[test]
fn draws_octant_1_correctly() {
    let start = Point::new(10, 10);
    let end = Point::new(15, 13);
    let expected = [(10, 10), (11, 11), (12, 11), (13, 12), (14, 12), (15, 13)];
    test_expected_line(start, end, &expected);
}

#[test]
fn draws_octant_2_correctly() {
    let start = Point::new(10, 10);
    let end = Point::new(13, 15);
    let expected = [(10, 10), (11, 11), (11, 12), (12, 13), (12, 14), (13, 15)];
    test_expected_line(start, end, &expected);
}

#[test]
fn draws_octant_3_correctly() {
    let start = Point::new(10, 10);
    let end = Point::new(7, 15);
    let expected = [(10, 10), (9, 11), (9, 12), (8, 13), (8, 14), (7, 15)];
    test_expected_line(start, end, &expected);
}

#[test]
fn draws_octant_4_correctly() {
    let start = Point::new(10, 10);
    let end = Point::new(5, 13);
    let expected = [(10, 10), (9, 11), (8, 11), (7, 12), (6, 12), (5, 13)];
    test_expected_line(start, end, &expected);
}

#[test]
fn draws_octant_5_correctly() {
    let start = Point::new(10, 10);
    let end = Point::new(5, 7);
    let expected = [(10, 10), (9, 9), (8, 9), (7, 8), (6, 8), (5, 7)];
    test_expected_line(start, end, &expected);
}

#[test]
fn draws_octant_6_correctly() {
    let start = Point::new(10, 10);
    let end = Point::new(7, 5);
    let expected = [(10, 10), (9, 9), (9, 8), (8, 7), (8, 6), (7, 5)];
    test_expected_line(start, end, &expected);
}

#[test]
fn draws_octant_7_correctly() {
    let start = Point::new(10, 10);
    let end = Point::new(13, 5);
    let expected = [(10, 10), (11, 9), (11, 8), (12, 7), (12, 6), (13, 5)];
    test_expected_line(start, end, &expected);
}

#[test]
fn draws_octant_8_correctly() {
    let start = Point::new(10, 10);
    let end = Point::new(15, 7);
    let expected = [(10, 10), (11, 9), (12, 9), (13, 8), (14, 8), (15, 7)];
    test_expected_line(start, end, &expected);
}

#[test]
fn line_without_stroke_is_empty() {
    let line: Line<BinaryColor> = Line::new(Point::new(0, 0), Point::new(5, 3));
    assert!(collect_pixels(&mut line.into_iter()).is_empty());
    let dot: Line<BinaryColor> = Line::new(Point::new(4, 4), Point::new(4, 4));
    assert!(collect_pixels(&mut dot.into_iter()).is_empty());
}

#[test]
fn line_starts_at_start_and_ends_at_end() {
    let line = Line::new(Point::new(-3, 7), Point::new(12, -4)).stroke_color(Some(BinaryColor::On));
    let pixels = collect_pixels(&mut line.into_iter());
    assert_eq!(pixels.first().unwrap().0, Point::new(-3, 7));
    assert_eq!(pixels.last().unwrap().0, Point::new(12, -4));
    assert!(pixels.iter().all(|p| p.1 == BinaryColor::On));
}

#[test]
fn reversed_line_covers_same_points() {
    let forward = Line::new(Point::new(10, 10), Point::new(15, 13)).style(Style::stroke(BinaryColor::On));
    let backward = Line::new(Point::new(15, 13), Point::new(10, 10)).style(Style::stroke(BinaryColor::On));
    let mut a: Vec<(i32, i32)> = collect_pixels(&mut forward.into_iter()).iter().map(|p| (p.0.x, p.0.y)).collect();
    let mut b: Vec<(i32, i32)> = collect_pixels(&mut backward.into_iter()).iter().map(|p| (p.0.x, p.0.y)).collect();
    a.sort();
    b.sort();
    assert_eq!(a, vec![(10, 10), (11, 11), (12, 11), (13, 12), (14, 12), (15, 13)]);
    assert_eq!(a, b);
}

#[test]
fn translated_line_is_shifted_line() {
    let line = Line::new(Point::new(5, 10), Point::new(15, 20)).stroke_color(Some(BinaryColor::On));
    let by = Point::new(-7, 3);
    let moved = line.translate(by);
    assert_eq!(moved.start, Point::new(-2, 13));
    assert_eq!(moved.end, Point::new(8, 23));
    let shifted: Vec<Pixel<BinaryColor>> = collect_pixels(&mut line.into_iter())
        .iter()
        .map(|p| Pixel(Point::new(p.0.x + by.x, p.0.y + by.y), p.1))
        .collect();
    assert_eq!(collect_pixels(&mut moved.into_iter()), shifted);

    let mut in_place = line;
    in_place.translate_mut(by);
    assert_eq!(in_place.start, moved.start);
    assert_eq!(in_place.end, moved.end);
}

#[test]
fn style_setters_keep_other_fields() {
    let line: Line<BinaryColor> = Line::new(Point::new(0, 0), Point::new(1, 1))
        .stroke_width(3)
        .fill_color(Some(BinaryColor::Off));
    assert_eq!(line.style.stroke_width, 3);
    assert_eq!(line.style.fill_color, Some(BinaryColor::Off));
    assert_eq!(line.style.stroke_color, None);
}

#[test]
fn tie_is_broken_the_same_way_in_both_directions() {
    let forward = Line::new(Point::new(0, 0), Point::new(2, 1)).style(Style::stroke(BinaryColor::On));
    let backward = Line::new(Point::new(2, 1), Point::new(0, 0)).style(Style::stroke(BinaryColor::On));
    let a: Vec<(i32, i32)> = collect_pixels(&mut forward.into_iter()).iter().map(|p| (p.0.x, p.0.y)).collect();
    let b: Vec<(i32, i32)> = collect_pixels(&mut backward.into_iter()).iter().map(|p| (p.0.x, p.0.y)).collect();
    assert_eq!(a, vec![(0, 0), (1, 0), (2, 1)]);
    assert_eq!(b, vec![(2, 1), (1, 0), (0, 0)]);
}

#[test]
fn even_major_lines_reverse_exactly() {
    let cases = [((0, 0), (4, 1)), ((3, 3), (-1, 5)), ((0, 0), (2, -6)), ((5, -2), (-3, 2))];
    for ((x0, y0), (x1, y1)) in cases {
        let forward = Line::new(Point::new(x0, y0), Point::new(x1, y1)).style(Style::stroke(BinaryColor::On));
        let backward = Line::new(Point::new(x1, y1), Point::new(x0, y0)).style(Style::stroke(BinaryColor::On));
        let mut a = collect_pixels(&mut forward.into_iter());
        let b = collect_pixels(&mut backward.into_iter());
        assert_eq!(a.first().unwrap().0, Point::new(x0, y0));
        assert_eq!(a.last().unwrap().0, Point::new(x1, y1));
        a.reverse();
        assert_eq!(a, b);
    }
}

#[test]
fn odd_major_line_reverses_exactly() {
    let forward = Line::new(Point::new(3, -2), Point::new(-4, 7)).style(Style::stroke(BinaryColor::On));
    let backward = Line::new(Point::new(-4, 7), Point::new(3, -2)).style(Style::stroke(BinaryColor::On));
    let mut a = collect_pixels(&mut forward.into_iter());
    let b = collect_pixels(&mut backward.into_iter());
    a.reverse();
    assert_eq!(a, b);
}
