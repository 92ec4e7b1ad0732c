use crate::geometry::{abs_int, add_spec, can_add, fits_i32, Point, Size};
use crate::pixel::{Pixel, PixelIterator};
use crate::style::Style;
use vstd::prelude::*;

verus! {

/// A straight segment between two points, drawn with Bresenham's algorithm.
#[derive(Clone, Copy, Debug)]
pub struct Line<C> {
    pub start: Point,
    pub end: Point,
    pub style: Style<C>,
}

/// The quadrant a walk from `start` to `end` heads into, chosen per axis by `>=`.
pub open spec fn direction(start: Point, end: Point) -> Point {
    Point { x: if start.x >= end.x { -1i32 } else { 1i32 }, y: if start.y >= end.y { -1i32 } else { 1i32 } }
}

/// Whether the walk from `start` to `end` settles an exact tie by stepping on both axes.
/// A tie is a point halfway between two pixels; the walk from the end with the smaller
/// coordinates (by x, then by y) steps on the major axis alone, the walk from the other end
/// on both, so that a segment covers the same pixels whichever end it is drawn from.
pub open spec fn tie_high(start: Point, end: Point) -> bool {
    start.x > end.x || (start.x == end.x && start.y > end.y)
}

/// Whether a walk whose error term is `err` takes its next step along x.
pub open spec fn moves_x(err: int, b: int, high: bool) -> bool {
    if high { 2 * err >= -b } else { 2 * err > -b }
}

/// Whether a walk whose error term is `err` takes its next step along y.
pub open spec fn moves_y(err: int, a: int, high: bool) -> bool {
    if high { 2 * err <= a } else { 2 * err < a }
}

/// The point after one step of the walk.
pub open spec fn step_point(pos: Point, dir: Point, a: int, b: int, err: int, high: bool) -> Point {
    Point {
        x: if moves_x(err, b, high) { (pos.x + dir.x) as i32 } else { pos.x },
        y: if moves_y(err, a, high) { (pos.y + dir.y) as i32 } else { pos.y },
    }
}

/// The error term after one step of the walk.
pub open spec fn step_err(a: int, b: int, err: int, high: bool) -> int {
    err - (if moves_x(err, b, high) { b } else { 0 }) + (if moves_y(err, a, high) { a } else { 0 })
}

/// The points a Bresenham walk visits from `pos` until it reaches `end`, over the
/// magnitudes `a = |dx|` and `b = |dy|`, cut short after `fuel` points.
pub open spec fn walk(pos: Point, end: Point, dir: Point, a: int, b: int, err: int, high: bool, fuel: nat) -> Seq<
    Point,
>
    decreases fuel,
{
    if fuel == 0 {
        Seq::empty()
    } else if pos == end {
        seq![pos]
    } else {
        seq![pos] + walk(
            step_point(pos, dir, a, b, err, high),
            end,
            dir,
            a,
            b,
            step_err(a, b, err, high),
            high,
            (fuel - 1) as nat,
        )
    }
}

/// The distance still to go along x, in the walk's direction.
pub open spec fn rest_x(pos: Point, end: Point, dir: Point) -> int {
    if dir.x > 0 { end.x - pos.x } else { pos.x - end.x }
}

/// The distance still to go along y, in the walk's direction.
pub open spec fn rest_y(pos: Point, end: Point, dir: Point) -> int {
    if dir.y > 0 { end.y - pos.y } else { pos.y - end.y }
}

/// The state invariant of a walk: it has not overshot on either axis and its error term
/// measures how far it is from the ideal segment.
pub open spec fn walk_inv(pos: Point, end: Point, dir: Point, a: int, b: int, err: int) -> bool {
    let rx = rest_x(pos, end, dir);
    let ry = rest_y(pos, end, dir);
    &&& dir.x == 1 || dir.x == -1
    &&& dir.y == 1 || dir.y == -1
    &&& 0 <= rx <= a
    &&& 0 <= ry <= b
    &&& err == a - b + b * rx - a * ry
}

/// Enough fuel for a walk to reach its end.
pub open spec fn walk_fuel(pos: Point, end: Point, dir: Point) -> nat {
    (rest_x(pos, end, dir) + rest_y(pos, end, dir) + 1) as nat
}

/// The points of the segment from `start` to `end`, both included, in drawing order.
pub open spec fn line_points(start: Point, end: Point) -> Seq<Point> {
    let a = abs_int(end.x - start.x);
    let b = abs_int(end.y - start.y);
    let dir = direction(start, end);
    walk(start, end, dir, a, b, a - b, tie_high(start, end), walk_fuel(start, end, dir))
}

/// Paints every point of `pts` with `c`.
pub open spec fn paint<C>(pts: Seq<Point>, c: C) -> Seq<Pixel<C>> {
    pts.map_values(|p: Point| Pixel(p, c))
}

/// Shifts every point of `pts` by `d`.
pub open spec fn shift(pts: Seq<Point>, d: Point) -> Seq<Point> {
    pts.map_values(|p: Point| add_spec(p, d))
}

proof fn lemma_step_arith(a: int, b: int, rx: int, ry: int, err: int, high: bool)
    requires
        0 <= rx <= a,
        0 <= ry <= b,
        rx + ry > 0,
        err == a - b + b * rx - a * ry,
    ensures
        moves_x(err, b, high) ==> rx >= 1,
        moves_y(err, a, high) ==> ry >= 1,
        moves_x(err, b, high) || moves_y(err, a, high),
        step_err(a, b, err, high) == a - b + b * (rx - (if moves_x(err, b, high) { 1int } else { 0 })) - a * (ry
            - (if moves_y(err, a, high) { 1int } else { 0 })),
{
    if moves_x(err, b, high) && rx == 0 {
        assert(b * rx == 0) by (nonlinear_arith)
            requires
                rx == 0,
        ;
        assert(a * ry >= a) by (nonlinear_arith)
            requires
                ry >= 1,
                a >= 0,
        ;
    }
    if moves_y(err, a, high) && ry == 0 {
        assert(a * ry == 0) by (nonlinear_arith)
            requires
                ry == 0,
        ;
        assert(b * rx >= b) by (nonlinear_arith)
            requires
                rx >= 1,
                b >= 0,
        ;
    }
    assert(b * (rx - 1) == b * rx - b) by (nonlinear_arith);
    assert(a * (ry - 1) == a * ry - a) by (nonlinear_arith);
}

/// One step of a walk that has not arrived keeps the invariant and gets closer.
proof fn lemma_step(pos: Point, end: Point, dir: Point, a: int, b: int, err: int, high: bool)
    requires
        walk_inv(pos, end, dir, a, b, err),
        pos != end,
    ensures
        walk_inv(step_point(pos, dir, a, b, err, high), end, dir, a, b, step_err(a, b, err, high)),
        walk_fuel(step_point(pos, dir, a, b, err, high), end, dir) < walk_fuel(pos, end, dir),
        moves_x(err, b, high) ==> rest_x(pos, end, dir) >= 1,
        moves_y(err, a, high) ==> rest_y(pos, end, dir) >= 1,
        rest_x(step_point(pos, dir, a, b, err, high), end, dir) <= rest_x(pos, end, dir),
        rest_y(step_point(pos, dir, a, b, err, high), end, dir) <= rest_y(pos, end, dir),
{
    let rx = rest_x(pos, end, dir);
    let ry = rest_y(pos, end, dir);
    lemma_step_arith(a, b, rx, ry, err, high);
}

/// The error term of a walk over 32-bit magnitudes stays far inside `i128`.
proof fn lemma_err_bound(pos: Point, end: Point, dir: Point, a: int, b: int, err: int)
    requires
        walk_inv(pos, end, dir, a, b, err),
        a <= u32::MAX,
        b <= u32::MAX,
    ensures
        -0x1_0000_0000_0000_0000_0000 <= err <= 0x1_0000_0000_0000_0000_0000,
{
    let rx = rest_x(pos, end, dir);
    let ry = rest_y(pos, end, dir);
    assert(0 <= b * rx <= 0xffff_ffff * 0xffff_ffff) by (nonlinear_arith)
        requires
            0 <= rx <= a,
            a <= 0xffff_ffff,
            0 <= b <= 0xffff_ffff,
    ;
    assert(0 <= a * ry <= 0xffff_ffff * 0xffff_ffff) by (nonlinear_arith)
        requires
            0 <= ry <= b,
            b <= 0xffff_ffff,
            0 <= a <= 0xffff_ffff,
    ;
}

/// Once a walk has enough fuel to arrive, more fuel changes nothing.
proof fn lemma_walk_fuel(pos: Point, end: Point, dir: Point, a: int, b: int, err: int, high: bool, f1: nat, f2: nat)
    requires
        walk_inv(pos, end, dir, a, b, err),
        f1 >= walk_fuel(pos, end, dir),
        f2 >= walk_fuel(pos, end, dir),
    ensures
        walk(pos, end, dir, a, b, err, high, f1) == walk(pos, end, dir, a, b, err, high, f2),
    decreases f1,
{
    if pos != end {
        lemma_step(pos, end, dir, a, b, err, high);
        lemma_walk_fuel(
            step_point(pos, dir, a, b, err, high),
            end,
            dir,
            a,
            b,
            step_err(a, b, err, high),
            high,
            (f1 - 1) as nat,
            (f2 - 1) as nat,
        );
    }
}

/// A walk with enough fuel starts at its position and ends exactly at its end.
proof fn lemma_walk_ends(pos: Point, end: Point, dir: Point, a: int, b: int, err: int, high: bool, fuel: nat)
    requires
        walk_inv(pos, end, dir, a, b, err),
        fuel >= walk_fuel(pos, end, dir),
    ensures
        walk(pos, end, dir, a, b, err, high, fuel).len() >= 1,
        walk(pos, end, dir, a, b, err, high, fuel)[0] == pos,
        walk(pos, end, dir, a, b, err, high, fuel).last() == end,
    decreases fuel,
{
    if pos != end {
        lemma_step(pos, end, dir, a, b, err, high);
        lemma_walk_ends(
            step_point(pos, dir, a, b, err, high),
            end,
            dir,
            a,
            b,
            step_err(a, b, err, high),
            high,
            (fuel - 1) as nat,
        );
    }
}

/// The invariant holds at the start of every segment.
proof fn lemma_initial(start: Point, end: Point)
    ensures
        walk_inv(
            start,
            end,
            direction(start, end),
            abs_int(end.x - start.x),
            abs_int(end.y - start.y),
            abs_int(end.x - start.x) - abs_int(end.y - start.y),
        ),
{
    let a = abs_int(end.x - start.x);
    let b = abs_int(end.y - start.y);
    assert(b * a - a * b == 0) by (nonlinear_arith);
}

/// A producer of the pixels of one line.
#[derive(Clone, Copy, Debug)]
pub struct LineIterator<C> {
    style: Style<C>,
    pos: Point,
    end: Point,
    /// The x magnitude `|dx|`.
    delta_x: i64,
    /// The negated y magnitude `-|dy|`.
    delta_y: i64,
    /// The quadrant of the walk: each component is `1` or `-1`.
    direction: Point,
    err: i128,
    /// Whether an exact tie steps on both axes (see `tie_high`).
    tie_high: bool,
    stop: bool,
}

impl<C: Copy> Line<C> {
    /// The pixels the line emits: none without a stroke colour, else its points in order.
    pub open spec fn pixels_spec(self) -> Seq<Pixel<C>> {
        match self.style.stroke_color {
            None => Seq::empty(),
            Some(c) => paint(line_points(self.start, self.end), c),
        }
    }

    /// The line moved by `by`.
    pub open spec fn translate_spec(self, by: Point) -> Line<C> {
        Line { start: add_spec(self.start, by), end: add_spec(self.end, by), style: self.style }
    }

    /// A line with the default style: no stroke, so it emits nothing.
    pub fn new(start: Point, end: Point) -> (r: Line<C>)
        ensures
            r.start == start,
            r.end == end,
            r.style == Style::<C>::new_spec(),
    {
        Line { start, end, style: Style::new() }
    }

    pub fn style(self, style: Style<C>) -> (r: Line<C>)
        ensures
            r == (Line { style, ..self }),
    {
        Line { style, ..self }
    }

    pub fn stroke_color(self, color: Option<C>) -> (r: Line<C>)
        ensures
            r == (Line { style: Style { stroke_color: color, ..self.style }, ..self }),
    {
        let mut r = self;
        r.style.stroke_color = color;
        r
    }

    pub fn stroke_width(self, width: u8) -> (r: Line<C>)
        ensures
            r == (Line { style: Style { stroke_width: width, ..self.style }, ..self }),
    {
        let mut r = self;
        r.style.stroke_width = width;
        r
    }

    pub fn fill_color(self, color: Option<C>) -> (r: Line<C>)
        ensures
            r == (Line { style: Style { fill_color: color, ..self.style }, ..self }),
    {
        let mut r = self;
        r.style.fill_color = color;
        r
    }

    /// The componentwise minimum of the two ends.
    pub fn top_left(&self) -> (r: Point)
        ensures
            r.x == if self.start.x <= self.end.x { self.start.x } else { self.end.x },
            r.y == if self.start.y <= self.end.y { self.start.y } else { self.end.y },
    {
        Point {
            x: if self.start.x <= self.end.x { self.start.x } else { self.end.x },
            y: if self.start.y <= self.end.y { self.start.y } else { self.end.y },
        }
    }

    /// The extent of the line's bounding box, both ends included.
    pub fn size(&self) -> (r: Size)
        requires
            abs_int(self.start.x - self.end.x) < u32::MAX,
            abs_int(self.start.y - self.end.y) < u32::MAX,
        ensures
            r.width == abs_int(self.start.x - self.end.x) + 1,
            r.height == abs_int(self.start.y - self.end.y) + 1,
    {
        Size::from_bounding_box(self.start, self.end)
    }

    /// The corner just past the bounding box: `top_left() + size()`.
    pub fn bottom_right(&self) -> (r: Point)
        requires
            fits_i32(if self.start.x >= self.end.x { self.start.x + 1 } else { self.end.x + 1 }),
            fits_i32(if self.start.y >= self.end.y { self.start.y + 1 } else { self.end.y + 1 }),
        ensures
            r.x == (if self.start.x >= self.end.x { self.start.x } else { self.end.x }) + 1,
            r.y == (if self.start.y >= self.end.y { self.start.y } else { self.end.y }) + 1,
    {
        let tl = self.top_left();
        let size = self.size();
        tl.add_size(size)
    }

    /// The same line moved by `by`; its style is unchanged.
    pub fn translate(&self, by: Point) -> (r: Line<C>)
        requires
            can_add(self.start, by),
            can_add(self.end, by),
        ensures
            r == self.translate_spec(by),
    {
        Line { start: self.start.add(by), end: self.end.add(by), style: self.style }
    }

    /// Moves the line by `by` in place.
    pub fn translate_mut(&mut self, by: Point)
        requires
            can_add(old(self).start, by),
            can_add(old(self).end, by),
        ensures
            *final(self) == old(self).translate_spec(by),
    {
        self.start = self.start.add(by);
        self.end = self.end.add(by);
    }

    /// A fresh producer of the line's pixels.
    pub fn into_iter(self) -> (r: LineIterator<C>)
        ensures
            r.wf(),
            r.remaining() == self.pixels_spec(),
    {
        let dx: i64 = self.end.x as i64 - self.start.x as i64;
        let dy: i64 = self.end.y as i64 - self.start.y as i64;
        let delta_x: i64 = if dx < 0 { -dx } else { dx };
        let delta_y: i64 = if dy > 0 { -dy } else { dy };
        let direction = Point {
            x: if self.start.x >= self.end.x { -1 } else { 1 },
            y: if self.start.y >= self.end.y { -1 } else { 1 },
        };
        let tie_high = self.start.x > self.end.x || (self.start.x == self.end.x && self.start.y > self.end.y);
        proof {
            lemma_initial(self.start, self.end);
        }
        LineIterator {
            style: self.style,
            pos: self.start,
            end: self.end,
            delta_x,
            delta_y,
            direction,
            err: delta_x as i128 + delta_y as i128,
            tie_high,
            stop: false,
        }
    }
}

impl<C: Copy> PixelIterator<C> for LineIterator<C> {
    closed spec fn wf(&self) -> bool {
        0 <= self.delta_x <= u32::MAX && -(u32::MAX as int) <= self.delta_y <= 0 && (self.stop || walk_inv(
            self.pos,
            self.end,
            self.direction,
            self.delta_x as int,
            -self.delta_y,
            self.err as int,
        ))
    }

    closed spec fn remaining(&self) -> Seq<Pixel<C>> {
        match self.style.stroke_color {
            None => Seq::empty(),
            Some(c) => if self.stop {
                Seq::empty()
            } else {
                paint(
                    walk(
                        self.pos,
                        self.end,
                        self.direction,
                        self.delta_x as int,
                        -self.delta_y,
                        self.err as int,
                        self.tie_high,
                        walk_fuel(self.pos, self.end, self.direction),
                    ),
                    c,
                )
            },
        }
    }

    fn next(&mut self) -> (r: Option<Pixel<C>>) {
        let color = match self.style.stroke_color {
            None => {
                return None;
            },
            Some(c) => c,
        };
        if self.stop {
            return None;
        }
        let point = self.pos;
        if point == self.end {
            self.stop = true;
            assert(paint(seq![point], color) =~= seq![Pixel(point, color)]);
            return Some(Pixel(point, color));
        }
        let ghost a = self.delta_x as int;
        let ghost b = -self.delta_y;
        let ghost e = self.err as int;
        let ghost high = self.tie_high;
        let ghost fuel = walk_fuel(point, self.end, self.direction);
        let ghost pts = walk(point, self.end, self.direction, a, b, e, high, fuel);
        proof {
            lemma_step(point, self.end, self.direction, a, b, e, high);
            lemma_err_bound(point, self.end, self.direction, a, b, e);
        }
        let err_double: i128 = 2 * self.err;
        if err_double > self.delta_y as i128 || (self.tie_high && err_double == self.delta_y as i128) {
            self.err = self.err + self.delta_y as i128;
            self.pos = Point { x: self.pos.x + self.direction.x, y: self.pos.y };
        }
        if err_double < self.delta_x as i128 || (self.tie_high && err_double == self.delta_x as i128) {
            self.err = self.err + self.delta_x as i128;
            self.pos = Point { x: self.pos.x, y: self.pos.y + self.direction.y };
        }
        proof {
            let next_fuel = walk_fuel(self.pos, self.end, self.direction);
            lemma_walk_fuel(self.pos, self.end, self.direction, a, b, self.err as int, high, (fuel - 1) as nat, next_fuel);
            assert(paint(pts, color) =~= seq![Pixel(point, color)] + paint(pts.drop_first(), color));
            assert(pts.drop_first() =~= walk(self.pos, self.end, self.direction, a, b, self.err as int, high, (fuel - 1) as nat));
            assert(paint(pts, color).drop_first() =~= paint(pts.drop_first(), color));
        }
        Some(Pixel(point, color))
    }
}

/// Shifting both the walk's position and its end shifts every point it visits.
proof fn lemma_walk_shift(pos: Point, end: Point, dir: Point, a: int, b: int, err: int, high: bool, fuel: nat, d: Point)
    requires
        walk_inv(pos, end, dir, a, b, err),
        can_add(pos, d),
        can_add(end, d),
    ensures
        walk(add_spec(pos, d), add_spec(end, d), dir, a, b, err, high, fuel) == shift(
            walk(pos, end, dir, a, b, err, high, fuel),
            d,
        ),
    decreases fuel,
{
    let pts = walk(pos, end, dir, a, b, err, high, fuel);
    if fuel == 0 {
        assert(shift(pts, d) =~= Seq::empty());
    } else if pos == end {
        assert(shift(pts, d) =~= seq![add_spec(pos, d)]);
    } else {
        lemma_step(pos, end, dir, a, b, err, high);
        let next = step_point(pos, dir, a, b, err, high);
        lemma_walk_shift(next, end, dir, a, b, step_err(a, b, err, high), high, (fuel - 1) as nat, d);
        assert(step_point(add_spec(pos, d), dir, a, b, err, high) == add_spec(next, d));
        assert(add_spec(pos, d) != add_spec(end, d));
        let rest = walk(next, end, dir, a, b, step_err(a, b, err, high), high, (fuel - 1) as nat);
        assert(shift(pts, d) =~= seq![add_spec(pos, d)] + shift(rest, d));
    }
}

/// Every point of a walk lies between its position and its end on both axes.
proof fn lemma_walk_between(pos: Point, end: Point, dir: Point, a: int, b: int, err: int, high: bool, fuel: nat)
    requires
        walk_inv(pos, end, dir, a, b, err),
    ensures
        forall|i: int|
            0 <= i < walk(pos, end, dir, a, b, err, high, fuel).len() ==> {
                let p = #[trigger] walk(pos, end, dir, a, b, err, high, fuel)[i];
                &&& 0 <= rest_x(p, end, dir) <= rest_x(pos, end, dir)
                &&& 0 <= rest_y(p, end, dir) <= rest_y(pos, end, dir)
            },
    decreases fuel,
{
    let pts = walk(pos, end, dir, a, b, err, high, fuel);
    if fuel > 0 && pos != end {
        lemma_step(pos, end, dir, a, b, err, high);
        let next = step_point(pos, dir, a, b, err, high);
        lemma_walk_between(next, end, dir, a, b, step_err(a, b, err, high), high, (fuel - 1) as nat);
        assert forall|i: int| 0 < i < pts.len() implies pts[i] == walk(next, end, dir, a, b, step_err(a, b, err, high), high, (fuel - 1) as nat)[i - 1] by {}
    }
}

/// A line never leaves the bounding box of its two ends.
pub proof fn lemma_line_within_box(start: Point, end: Point)
    ensures
        forall|i: int|
            0 <= i < line_points(start, end).len() ==> {
                let p = #[trigger] line_points(start, end)[i];
                &&& (start.x <= p.x <= end.x || end.x <= p.x <= start.x)
                &&& (start.y <= p.y <= end.y || end.y <= p.y <= start.y)
            },
{
    lemma_initial(start, end);
    let a = abs_int(end.x - start.x);
    let b = abs_int(end.y - start.y);
    let dir = direction(start, end);
    lemma_walk_between(start, end, dir, a, b, a - b, tie_high(start, end), walk_fuel(start, end, dir));
}

/// A line with a stroke colour emits its start first and its end last.
pub proof fn lemma_line_endpoints<C: Copy>(line: Line<C>)
    requires
        line.style.stroke_color is Some,
    ensures
        line.pixels_spec().len() >= 1,
        line.pixels_spec()[0].0 == line.start,
        line.pixels_spec().last().0 == line.end,
{
    lemma_initial(line.start, line.end);
    let a = abs_int(line.end.x - line.start.x);
    let b = abs_int(line.end.y - line.start.y);
    let dir = direction(line.start, line.end);
    lemma_walk_ends(
        line.start,
        line.end,
        dir,
        a,
        b,
        a - b,
        tie_high(line.start, line.end),
        walk_fuel(line.start, line.end, dir),
    );
}

/// A line whose ends coincide emits that one point if it has a stroke colour, else nothing.
pub proof fn lemma_line_degenerate<C: Copy>(line: Line<C>)
    requires
        line.start == line.end,
    ensures
        line.style.stroke_color is None ==> line.pixels_spec().len() == 0,
        line.style.stroke_color is Some ==> line.pixels_spec() == seq![
            Pixel(line.start, line.style.stroke_color->0),
        ],
{
    if let Some(c) = line.style.stroke_color {
        assert(line.pixels_spec() =~= seq![Pixel(line.start, c)]);
    }
}

/// Translating a line and then drawing it gives the pixels of the unmoved line, each
/// moved by the same offset, in the same order and with the same colours.
pub proof fn lemma_translate_commutes<C: Copy>(line: Line<C>, by: Point)
    requires
        can_add(line.start, by),
        can_add(line.end, by),
    ensures
        line.translate_spec(by).pixels_spec() == line.pixels_spec().map_values(
            |p: Pixel<C>| Pixel(add_spec(p.0, by), p.1),
        ),
{
    let moved = line.translate_spec(by);
    lemma_initial(line.start, line.end);
    let a = abs_int(line.end.x - line.start.x);
    let b = abs_int(line.end.y - line.start.y);
    let dir = direction(line.start, line.end);
    assert(direction(moved.start, moved.end) == dir);
    assert(walk_fuel(moved.start, moved.end, dir) == walk_fuel(line.start, line.end, dir));
    assert(tie_high(moved.start, moved.end) == tie_high(line.start, line.end));
    lemma_walk_shift(
        line.start,
        line.end,
        dir,
        a,
        b,
        a - b,
        tie_high(line.start, line.end),
        walk_fuel(line.start, line.end, dir),
        by,
    );
    match line.style.stroke_color {
        None => {
            assert(line.pixels_spec().map_values(|p: Pixel<C>| Pixel(add_spec(p.0, by), p.1))
                =~= Seq::empty());
        },
        Some(c) => {
            assert(moved.pixels_spec() =~= line.pixels_spec().map_values(
                |p: Pixel<C>| Pixel(add_spec(p.0, by), p.1),
            ));
        },
    }
}

/// How far point `p` of a walk lies from the ideal segment, scaled by the magnitudes.
pub open spec fn deviation(p: Point, end: Point, dir: Point, a: int, b: int) -> int {
    b * rest_x(p, end, dir) - a * rest_y(p, end, dir)
}

/// The half-open band of width one pixel around the ideal segment that a walk keeps to;
/// which edge it includes is the walk's tie rule.
pub open spec fn in_band(d: int, a: int, high: bool) -> bool {
    if high { -a < 2 * d <= a } else { -a <= 2 * d < a }
}

/// A walk along a major x axis steps along x every time and stays in its band.
proof fn lemma_x_major_walk(
    pos: Point,
    end: Point,
    dir: Point,
    a: int,
    b: int,
    err: int,
    high: bool,
    fuel: nat,
)
    requires
        walk_inv(pos, end, dir, a, b, err),
        a >= b,
        a > 0,
        in_band(deviation(pos, end, dir, a, b), a, high),
        fuel >= walk_fuel(pos, end, dir),
    ensures
        ({
            let pts = walk(pos, end, dir, a, b, err, high, fuel);
            let rx = rest_x(pos, end, dir);
            &&& pts.len() == rx + 1
            &&& forall|i: int|
                0 <= i <= rx ==> {
                    &&& rest_x(#[trigger] pts[i], end, dir) == rx - i
                    &&& 0 <= rest_y(pts[i], end, dir) <= b
                    &&& in_band(deviation(pts[i], end, dir, a, b), a, high)
                }
        }),
    decreases fuel,
{
    let rx = rest_x(pos, end, dir);
    let ry = rest_y(pos, end, dir);
    let d = deviation(pos, end, dir, a, b);
    let pts = walk(pos, end, dir, a, b, err, high, fuel);
    if pos == end {
        assert(rx == 0 && ry == 0);
        assert(d == 0) by (nonlinear_arith)
            requires
                d == b * rx - a * ry,
                rx == 0,
                ry == 0,
        ;
    } else {
        lemma_step(pos, end, dir, a, b, err, high);
        assert(err == a - b + d);
        if a == b {
            assert(d == a * (rx - ry)) by (nonlinear_arith)
                requires
                    d == b * rx - a * ry,
                    a == b,
            ;
            assert(d == 0) by (nonlinear_arith)
                requires
                    d == a * (rx - ry),
                    -a <= 2 * d <= a,
                    a > 0,
            ;
        }
        assert(moves_x(err, b, high));
        let next = step_point(pos, dir, a, b, err, high);
        let e2 = step_err(a, b, err, high);
        assert(rest_x(next, end, dir) == rx - 1);
        let d2 = deviation(next, end, dir, a, b);
        assert(b * (rx - 1) == b * rx - b) by (nonlinear_arith);
        assert(a * (ry - 1) == a * ry - a) by (nonlinear_arith);
        if moves_y(err, a, high) {
            assert(d2 == d - b + a);
        } else {
            assert(d2 == d - b);
        }
        lemma_x_major_walk(next, end, dir, a, b, e2, high, (fuel - 1) as nat);
        let rest = walk(next, end, dir, a, b, e2, high, (fuel - 1) as nat);
        assert forall|i: int| 0 < i <= rx implies pts[i] == rest[i - 1] by {}
        assert forall|i: int|
            0 <= i <= rx implies {
                &&& rest_x(#[trigger] pts[i], end, dir) == rx - i
                &&& 0 <= rest_y(pts[i], end, dir) <= b
                &&& in_band(deviation(pts[i], end, dir, a, b), a, high)
            } by {
            if i > 0 {
                assert(pts[i] == rest[i - 1]);
            }
        }
    }
}

/// Seen from the other end, the distances still to go along each axis are the complements.
proof fn lemma_rests_from_other_end(q: Point, start: Point, end: Point)
    requires
        start.x != end.x,
        0 <= rest_x(q, start, direction(end, start)) <= abs_int(end.x - start.x),
        0 <= rest_y(q, start, direction(end, start)) <= abs_int(end.y - start.y),
    ensures
        rest_x(q, end, direction(start, end)) == abs_int(end.x - start.x) - rest_x(
            q,
            start,
            direction(end, start),
        ),
        rest_y(q, end, direction(start, end)) == abs_int(end.y - start.y) - rest_y(
            q,
            start,
            direction(end, start),
        ),
{
}

/// Two points of a walk in the same column and in the same band are the same point.
proof fn lemma_same_column(p: Point, q: Point, end: Point, dir: Point, a: int, b: int, high: bool)
    requires
        a > 0,
        rest_x(p, end, dir) == rest_x(q, end, dir),
        in_band(deviation(p, end, dir, a, b), a, high),
        in_band(deviation(q, end, dir, a, b), a, high),
    ensures
        p == q,
{
    let k = rest_y(q, end, dir) - rest_y(p, end, dir);
    let dp = deviation(p, end, dir, a, b);
    let dq = deviation(q, end, dir, a, b);
    assert(dp - dq == a * k) by (nonlinear_arith)
        requires
            dp == b * rest_x(p, end, dir) - a * rest_y(p, end, dir),
            dq == b * rest_x(q, end, dir) - a * rest_y(q, end, dir),
            rest_x(p, end, dir) == rest_x(q, end, dir),
            k == rest_y(q, end, dir) - rest_y(p, end, dir),
    ;
    assert(k == 0) by (nonlinear_arith)
        requires
            dp - dq == a * k,
            -2 * a < 2 * dp - 2 * dq < 2 * a,
            a > 0,
    ;
}

/// Along a major x axis, the walk from `end` with the opposite tie rule visits the points
/// of the walk from `start` in reverse order.
proof fn lemma_reverse_x_major(start: Point, end: Point, high: bool)
    requires
        abs_int(end.x - start.x) >= abs_int(end.y - start.y),
        abs_int(end.x - start.x) > 0,
    ensures
        ({
            let a = abs_int(end.x - start.x);
            let b = abs_int(end.y - start.y);
            let dir = direction(start, end);
            let rdir = direction(end, start);
            walk(end, start, rdir, a, b, a - b, !high, walk_fuel(end, start, rdir)) == walk(
                start,
                end,
                dir,
                a,
                b,
                a - b,
                high,
                walk_fuel(start, end, dir),
            ).reverse()
        }),
{
    let a = abs_int(end.x - start.x);
    let b = abs_int(end.y - start.y);
    let dir = direction(start, end);
    let rdir = direction(end, start);
    lemma_initial(start, end);
    lemma_initial(end, start);
    assert(deviation(start, end, dir, a, b) == 0) by (nonlinear_arith)
        requires
            rest_x(start, end, dir) == a,
            rest_y(start, end, dir) == b,
            deviation(start, end, dir, a, b) == b * rest_x(start, end, dir) - a * rest_y(start, end, dir),
    ;
    assert(deviation(end, start, rdir, a, b) == 0) by (nonlinear_arith)
        requires
            rest_x(end, start, rdir) == a,
            rest_y(end, start, rdir) == b,
            deviation(end, start, rdir, a, b) == b * rest_x(end, start, rdir) - a * rest_y(end, start, rdir),
    ;
    lemma_x_major_walk(start, end, dir, a, b, a - b, high, walk_fuel(start, end, dir));
    lemma_x_major_walk(end, start, rdir, a, b, a - b, !high, walk_fuel(end, start, rdir));
    let fwd = walk(start, end, dir, a, b, a - b, high, walk_fuel(start, end, dir));
    let rev = walk(end, start, rdir, a, b, a - b, !high, walk_fuel(end, start, rdir));
    assert forall|j: int| 0 <= j <= a implies rev[j] == fwd.reverse()[j] by {
        let q = rev[j];
        let p = fwd[a - j];
        assert(fwd.reverse()[j] == p);
        lemma_rests_from_other_end(q, start, end);
        let ry = rest_y(q, start, rdir);
        assert(deviation(q, start, rdir, a, b) == -deviation(q, end, dir, a, b)) by (nonlinear_arith)
            requires
                deviation(q, start, rdir, a, b) == b * (a - j) - a * ry,
                deviation(q, end, dir, a, b) == b * j - a * (b - ry),
        ;
        lemma_same_column(p, q, end, dir, a, b, high);
    }
    assert(rev =~= fwd.reverse());
}

/// The same point with its axes exchanged.
pub open spec fn swap_axes(p: Point) -> Point {
    Point { x: p.y, y: p.x }
}

/// Exchanging the axes of a walk, its magnitudes and the sign of its error term gives the
/// walk with exchanged axes: the stepping rule treats the two axes alike.
proof fn lemma_walk_swap(
    pos: Point,
    end: Point,
    dir: Point,
    a: int,
    b: int,
    err: int,
    high: bool,
    fuel: nat,
)
    ensures
        walk(swap_axes(pos), swap_axes(end), swap_axes(dir), b, a, -err, high, fuel) == walk(
            pos,
            end,
            dir,
            a,
            b,
            err,
            high,
            fuel,
        ).map_values(|p: Point| swap_axes(p)),
    decreases fuel,
{
    let pts = walk(pos, end, dir, a, b, err, high, fuel);
    if fuel == 0 {
        assert(pts.map_values(|p: Point| swap_axes(p)) =~= Seq::empty());
    } else if pos == end {
        assert(pts.map_values(|p: Point| swap_axes(p)) =~= seq![swap_axes(pos)]);
    } else {
        let next = step_point(pos, dir, a, b, err, high);
        lemma_walk_swap(next, end, dir, a, b, step_err(a, b, err, high), high, (fuel - 1) as nat);
        assert(swap_axes(pos) != swap_axes(end));
        assert(step_point(swap_axes(pos), swap_axes(dir), b, a, -err, high) == swap_axes(next));
        assert(step_err(b, a, -err, high) == -step_err(a, b, err, high));
        let rest = walk(next, end, dir, a, b, step_err(a, b, err, high), high, (fuel - 1) as nat);
        assert(pts.map_values(|p: Point| swap_axes(p)) =~= seq![swap_axes(pos)] + rest.map_values(
            |p: Point| swap_axes(p),
        ));
    }
}

/// The walk of a segment with its axes exchanged, under a given tie rule, is the walk of
/// the segment with each point's axes exchanged.
proof fn lemma_segment_swap(start: Point, end: Point, high: bool)
    ensures
        ({
            let a = abs_int(end.x - start.x);
            let b = abs_int(end.y - start.y);
            let s2 = swap_axes(start);
            let e2 = swap_axes(end);
            let dir = direction(start, end);
            let dir2 = direction(s2, e2);
            walk(s2, e2, dir2, b, a, b - a, high, walk_fuel(s2, e2, dir2)) == walk(
                start,
                end,
                dir,
                a,
                b,
                a - b,
                high,
                walk_fuel(start, end, dir),
            ).map_values(|p: Point| swap_axes(p))
        }),
{
    let a = abs_int(end.x - start.x);
    let b = abs_int(end.y - start.y);
    let dir = direction(start, end);
    assert(direction(swap_axes(start), swap_axes(end)) == swap_axes(dir));
    assert(-(a - b) == b - a);
    lemma_walk_swap(start, end, dir, a, b, a - b, high, walk_fuel(start, end, dir));
}

proof fn lemma_reverse_set(s: Seq<Point>)
    ensures
        s.reverse().to_set() == s.to_set(),
{
    let r = s.reverse();
    let n = s.len() as int;
    assert forall|p: Point| s.contains(p) implies r.contains(p) by {
        let i = choose|i: int| 0 <= i < n && s[i] == p;
        assert(r[n - 1 - i] == p);
    }
    assert forall|p: Point| r.contains(p) implies s.contains(p) by {
        let i = choose|i: int| 0 <= i < n && r[i] == p;
        assert(s[n - 1 - i] == p);
    }
    assert(r.to_set() =~= s.to_set());
}

/// A line and its reverse visit the same points, one in the opposite order of the other,
/// so the two cover the same set of pixels.
pub proof fn lemma_reverse_line(start: Point, end: Point)
    ensures
        line_points(end, start) == line_points(start, end).reverse(),
        line_points(end, start).to_set() == line_points(start, end).to_set(),
{
    let a = abs_int(end.x - start.x);
    let b = abs_int(end.y - start.y);
    let fwd = line_points(start, end);
    let rev = line_points(end, start);
    let high = tie_high(start, end);
    if start == end {
        assert(rev =~= fwd.reverse());
    } else {
        assert(tie_high(end, start) == !high);
        if a >= b {
            lemma_reverse_x_major(start, end, high);
        } else {
            let s2 = swap_axes(start);
            let e2 = swap_axes(end);
            lemma_reverse_x_major(s2, e2, high);
            lemma_segment_swap(start, end, high);
            lemma_segment_swap(end, start, !high);
            let fs = fwd.map_values(|p: Point| swap_axes(p));
            let rs = rev.map_values(|p: Point| swap_axes(p));
            assert(rs == fs.reverse());
            assert forall|i: int| 0 <= i < rev.len() implies rev[i] == fwd.reverse()[i] by {
                assert(rev[i] == swap_axes(rs[i]));
                assert(fwd.reverse()[i] == swap_axes(fs.reverse()[i]));
            }
            assert(rev =~= fwd.reverse());
        }
    }
    lemma_reverse_set(fwd);
}

/// A line has one pixel per step along its longer side, plus one.
pub proof fn lemma_line_length(start: Point, end: Point)
    ensures
        line_points(start, end).len() == if abs_int(end.x - start.x) >= abs_int(end.y - start.y) {
            abs_int(end.x - start.x) + 1
        } else {
            abs_int(end.y - start.y) + 1
        },
{
    let a = abs_int(end.x - start.x);
    let b = abs_int(end.y - start.y);
    let high = tie_high(start, end);
    if a >= b && a > 0 {
        lemma_initial(start, end);
        let dir = direction(start, end);
        assert(deviation(start, end, dir, a, b) == 0) by (nonlinear_arith)
            requires
                rest_x(start, end, dir) == a,
                rest_y(start, end, dir) == b,
                deviation(start, end, dir, a, b) == b * rest_x(start, end, dir) - a * rest_y(
                    start,
                    end,
                    dir,
                ),
        ;
        lemma_x_major_walk(start, end, dir, a, b, a - b, high, walk_fuel(start, end, dir));
    } else if b > a {
        let s2 = swap_axes(start);
        let e2 = swap_axes(end);
        lemma_segment_swap(start, end, high);
        lemma_initial(s2, e2);
        let dir2 = direction(s2, e2);
        assert(deviation(s2, e2, dir2, b, a) == 0) by (nonlinear_arith)
            requires
                rest_x(s2, e2, dir2) == b,
                rest_y(s2, e2, dir2) == a,
                deviation(s2, e2, dir2, b, a) == a * rest_x(s2, e2, dir2) - b * rest_y(s2, e2, dir2),
        ;
        lemma_x_major_walk(s2, e2, dir2, b, a, b - a, high, walk_fuel(s2, e2, dir2));
    }
}

} // verus!
