use crate::geometry::{add_spec, can_add, Point};
use crate::pixel::{Pixel, PixelIterator};
use crate::style::Style;
use vstd::arithmetic::div_mod::{lemma_fundamental_div_mod, lemma_fundamental_div_mod_converse};
use vstd::prelude::*;

verus! {

/// A shape drawn by scanning its bounding box: each cell either gets a colour or is skipped.
pub trait CellShape<C>: Sized {
    /// The shape's box fits the coordinate range.
    spec fn valid(&self) -> bool;

    /// The top-left cell of the box.
    spec fn min_spec(&self) -> Point;

    /// The bottom-right cell of the box, included.
    spec fn max_spec(&self) -> Point;

    /// The colour the shape gives the cell at `p`, if any.
    spec fn cell_spec(&self, p: Point) -> Option<C>;

    fn bounds(&self) -> (r: (Point, Point))
        requires
            self.valid(),
        ensures
            r.0 == self.min_spec(),
            r.1 == self.max_spec(),
            r.0.x <= r.1.x && r.0.y <= r.1.y,
    ;

    fn cell(&self, x: i32, y: i32) -> (r: Option<C>)
        ensures
            r == self.cell_spec(Point { x, y }),
    ;
}

/// The number of columns of the shape's box.
pub open spec fn box_width<C, S: CellShape<C>>(s: S) -> int {
    s.max_spec().x - s.min_spec().x + 1
}

/// The number of cells of the shape's box.
pub open spec fn box_cells<C, S: CellShape<C>>(s: S) -> int {
    box_width(s) * (s.max_spec().y - s.min_spec().y + 1)
}

/// The cell at position `k` of the row-major scan.
pub open spec fn cell_point<C, S: CellShape<C>>(s: S, k: int) -> Point {
    Point {
        x: (s.min_spec().x + k % box_width(s)) as i32,
        y: (s.min_spec().y + k / box_width(s)) as i32,
    }
}

/// The pixels of the scan from position `k` on.
pub open spec fn scan_from<C, S: CellShape<C>>(s: S, k: int) -> Seq<Pixel<C>>
    decreases box_cells(s) - k,
{
    if k < 0 || k >= box_cells(s) {
        Seq::empty()
    } else {
        let rest = scan_from(s, k + 1);
        match s.cell_spec(cell_point(s, k)) {
            Some(c) => seq![Pixel(cell_point(s, k), c)] + rest,
            None => rest,
        }
    }
}

/// Every pixel of a shape, in row-major order over its bounding box.
pub open spec fn shape_pixels<C, S: CellShape<C>>(s: S) -> Seq<Pixel<C>> {
    scan_from(s, 0)
}

/// Whether `p` lies in the shape's box.
pub open spec fn in_box<C, S: CellShape<C>>(s: S, p: Point) -> bool {
    s.min_spec().x <= p.x <= s.max_spec().x && s.min_spec().y <= p.y <= s.max_spec().y
}

proof fn lemma_cell_in_box<C, S: CellShape<C>>(s: S, k: int)
    requires
        s.min_spec().x <= s.max_spec().x,
        s.min_spec().y <= s.max_spec().y,
        0 <= k < box_cells(s),
    ensures
        in_box(s, cell_point(s, k)),
        cell_point(s, k).x == s.min_spec().x + k % box_width(s),
        cell_point(s, k).y == s.min_spec().y + k / box_width(s),
{
    let w = box_width(s);
    let h = s.max_spec().y - s.min_spec().y + 1;
    lemma_fundamental_div_mod(k, w);
    assert(k / w < h) by (nonlinear_arith)
        requires
            k == w * (k / w) + k % w,
            0 <= k % w,
            k < w * h,
            w > 0,
    ;
    assert(k / w >= 0) by (nonlinear_arith)
        requires
            k == w * (k / w) + k % w,
            k % w < w,
            k >= 0,
            w > 0,
    ;
}

/// Every pixel a scanned shape emits lies in its box and has the colour the shape gives
/// that cell.
pub proof fn lemma_shape_pixels<C, S: CellShape<C>>(s: S, k: int)
    requires
        s.min_spec().x <= s.max_spec().x,
        s.min_spec().y <= s.max_spec().y,
    ensures
        forall|i: int|
            0 <= i < scan_from(s, k).len() ==> {
                let p = #[trigger] scan_from(s, k)[i];
                in_box(s, p.0) && s.cell_spec(p.0) == Some(p.1)
            },
    decreases box_cells(s) - k,
{
    if 0 <= k < box_cells(s) {
        lemma_shape_pixels(s, k + 1);
        lemma_cell_in_box(s, k);
        let rest = scan_from(s, k + 1);
        if let Some(c) = s.cell_spec(cell_point(s, k)) {
            assert forall|i: int| 0 < i < scan_from(s, k).len() implies scan_from(s, k)[i] == rest[i
                - 1] by {}
        }
    }
}

/// A shape whose style has neither a stroke nor a fill colour emits nothing.
pub proof fn lemma_unstyled_shape_is_empty<C, S: CellShape<C>>(s: S, k: int)
    requires
        forall|p: Point| #[trigger] s.cell_spec(p) is None,
    ensures
        scan_from(s, k).len() == 0,
    decreases box_cells(s) - k,
{
    if 0 <= k < box_cells(s) {
        lemma_unstyled_shape_is_empty(s, k + 1);
        assert(s.cell_spec(cell_point(s, k)) is None);
    }
}

/// A producer that scans a shape's bounding box row by row.
pub struct Scan<S> {
    shape: S,
    min: Point,
    max: Point,
    x: i64,
    y: i64,
}

/// The row-major position of the cell `(x, y)` in the box from `min` to `max`.
pub open spec fn scan_index(min: Point, max: Point, x: int, y: int) -> int {
    (y - min.y) * (max.x - min.x + 1) + (x - min.x)
}

impl<S> Scan<S> {
    pub closed spec fn index(&self) -> int {
        scan_index(self.min, self.max, self.x as int, self.y as int)
    }

    pub fn new<C>(shape: S) -> (r: Scan<S>) where S: CellShape<C>
        requires
            shape.valid(),
        ensures
            r.wf(),
            r.remaining() == shape_pixels(shape),
    {
        let (min, max) = shape.bounds();
        let r = Scan { shape, min, max, x: min.x as i64, y: min.y as i64 };
        assert(r.index() == 0);
        r
    }
}

impl<C, S: CellShape<C>> PixelIterator<C> for Scan<S> {
    closed spec fn wf(&self) -> bool {
        &&& self.shape.valid()
        &&& self.min == self.shape.min_spec()
        &&& self.max == self.shape.max_spec()
        &&& self.min.x <= self.max.x && self.min.y <= self.max.y
        &&& self.min.x <= self.x <= self.max.x
        &&& self.min.y <= self.y <= self.max.y + 1
        &&& self.y == self.max.y + 1 ==> self.x == self.min.x
    }

    closed spec fn remaining(&self) -> Seq<Pixel<C>> {
        scan_from(self.shape, self.index())
    }

    fn next(&mut self) -> (r: Option<Pixel<C>>) {
        let ghost w = box_width(self.shape);
        let ghost goal = self.remaining();
        loop
            invariant
                self.wf(),
                w == box_width(self.shape),
                self.remaining() == goal,
                goal == old(self).remaining(),
            decreases box_cells(self.shape) - self.index(),
        {
            let ghost k = self.index();
            let ghost rx = self.x - self.min.x;
            let ghost ry = self.y - self.min.y;
            let ghost h = self.max.y - self.min.y + 1;
            if self.y > self.max.y as i64 {
                assert(k == box_cells(self.shape)) by (nonlinear_arith)
                    requires
                        k == ry * w + rx,
                        rx == 0,
                        ry == h,
                        box_cells(self.shape) == w * h,
                ;
                return None;
            }
            proof {
                assert(0 <= k < box_cells(self.shape)) by (nonlinear_arith)
                    requires
                        k == ry * w + rx,
                        0 <= rx < w,
                        0 <= ry < h,
                        box_cells(self.shape) == w * h,
                ;
                lemma_fundamental_div_mod_converse(k, w, ry, rx);
            }
            let ghost ox = self.x;
            let ghost oy = self.y;
            let px = self.x as i32;
            let py = self.y as i32;
            let c = self.shape.cell(px, py);
            if self.x < self.max.x as i64 {
                self.x = self.x + 1;
            } else {
                self.x = self.min.x as i64;
                self.y = self.y + 1;
            }
            proof {
                assert(self.index() == k + 1) by (nonlinear_arith)
                    requires
                        self.index() == (self.y - self.min.y) * w + (self.x - self.min.x),
                        k == ry * w + rx,
                        ry == oy - self.min.y,
                        rx == ox - self.min.x,
                        (self.y == oy && self.x == ox + 1) || (self.y == oy + 1 && self.x
                            == self.min.x && rx + 1 == w),
                ;
                assert(Point { x: px, y: py } == cell_point(self.shape, k));
            }
            match c {
                Some(color) => {
                    assert(self.remaining() =~= goal.drop_first());
                    return Some(Pixel(Point { x: px, y: py }, color));
                },
                None => {},
            }
        }
    }
}

/// An axis-aligned rectangle between two corners, both included.
#[derive(Clone, Copy, Debug)]
pub struct Rectangle<C> {
    pub top_left: Point,
    pub bottom_right: Point,
    pub style: Style<C>,
}

/// A circle given by its centre and radius.
#[derive(Clone, Copy, Debug)]
pub struct Circle<C> {
    pub center: Point,
    pub radius: u32,
    pub style: Style<C>,
}

/// Whether `p` lies on the edge of the box from `a` to `b`.
pub open spec fn on_border(a: Point, b: Point, p: Point) -> bool {
    p.x == a.x || p.x == b.x || p.y == a.y || p.y == b.y
}

/// The colour a style gives a cell, by whether it is on the outline or inside.
pub open spec fn paint_cell<C>(style: Style<C>, inside: bool, outline: bool) -> Option<C> {
    if outline && style.stroke_color is Some {
        style.stroke_color
    } else if inside && style.fill_color is Some {
        style.fill_color
    } else {
        None
    }
}

fn pick_color<C: Copy>(style: &Style<C>, inside: bool, outline: bool) -> (r: Option<C>)
    ensures
        r == paint_cell(*style, inside, outline),
{
    if outline && style.stroke_color.is_some() {
        style.stroke_color
    } else if inside && style.fill_color.is_some() {
        style.fill_color
    } else {
        None
    }
}

impl<C: Copy> Rectangle<C> {
    /// A rectangle with the default style: no stroke and no fill, so it emits nothing.
    pub fn new(top_left: Point, bottom_right: Point) -> (r: Rectangle<C>)
        ensures
            r.top_left == top_left,
            r.bottom_right == bottom_right,
            r.style == Style::<C>::new_spec(),
    {
        Rectangle { top_left, bottom_right, style: Style::new() }
    }

    pub fn style(self, style: Style<C>) -> (r: Rectangle<C>)
        ensures
            r == (Rectangle { style, ..self }),
    {
        Rectangle { style, ..self }
    }

    pub fn stroke_color(self, color: Option<C>) -> (r: Rectangle<C>)
        ensures
            r == (Rectangle { style: Style { stroke_color: color, ..self.style }, ..self }),
    {
        let mut r = self;
        r.style.stroke_color = color;
        r
    }

    pub fn fill_color(self, color: Option<C>) -> (r: Rectangle<C>)
        ensures
            r == (Rectangle { style: Style { fill_color: color, ..self.style }, ..self }),
    {
        let mut r = self;
        r.style.fill_color = color;
        r
    }

    /// The rectangle moved by `by`.
    pub open spec fn translate_spec(self, by: Point) -> Rectangle<C> {
        Rectangle {
            top_left: add_spec(self.top_left, by),
            bottom_right: add_spec(self.bottom_right, by),
            style: self.style,
        }
    }

    /// The same rectangle moved by `by`; its style is unchanged.
    pub fn translate(&self, by: Point) -> (r: Rectangle<C>)
        requires
            can_add(self.top_left, by),
            can_add(self.bottom_right, by),
        ensures
            r == self.translate_spec(by),
    {
        Rectangle { top_left: self.top_left.add(by), bottom_right: self.bottom_right.add(by), style: self.style }
    }

    /// Moves the rectangle by `by` in place.
    pub fn translate_mut(&mut self, by: Point)
        requires
            can_add(old(self).top_left, by),
            can_add(old(self).bottom_right, by),
        ensures
            *final(self) == old(self).translate_spec(by),
    {
        self.top_left = self.top_left.add(by);
        self.bottom_right = self.bottom_right.add(by);
    }

    /// A fresh producer of the rectangle's pixels.
    pub fn into_iter(self) -> (r: Scan<Rectangle<C>>)
        ensures
            r.wf(),
            r.remaining() == shape_pixels::<C, Rectangle<C>>(self),
    {
        Scan::new(self)
    }
}

impl<C: Copy> CellShape<C> for Rectangle<C> {
    open spec fn valid(&self) -> bool {
        true
    }

    open spec fn min_spec(&self) -> Point {
        Point {
            x: if self.top_left.x <= self.bottom_right.x { self.top_left.x } else { self.bottom_right.x },
            y: if self.top_left.y <= self.bottom_right.y { self.top_left.y } else { self.bottom_right.y },
        }
    }

    open spec fn max_spec(&self) -> Point {
        Point {
            x: if self.top_left.x <= self.bottom_right.x { self.bottom_right.x } else { self.top_left.x },
            y: if self.top_left.y <= self.bottom_right.y { self.bottom_right.y } else { self.top_left.y },
        }
    }

    open spec fn cell_spec(&self, p: Point) -> Option<C> {
        paint_cell(self.style, true, on_border(self.min_spec(), self.max_spec(), p))
    }

    fn bounds(&self) -> (r: (Point, Point)) {
        let a = self.top_left;
        let b = self.bottom_right;
        (
            Point { x: if a.x <= b.x { a.x } else { b.x }, y: if a.y <= b.y { a.y } else { b.y } },
            Point { x: if a.x <= b.x { b.x } else { a.x }, y: if a.y <= b.y { b.y } else { a.y } },
        )
    }

    fn cell(&self, x: i32, y: i32) -> (r: Option<C>) {
        let (min, max) = self.bounds();
        let outline = x == min.x || x == max.x || y == min.y || y == max.y;
        pick_color(&self.style, true, outline)
    }
}

/// The squared distance of `p` from `c`.
pub open spec fn dist2(c: Point, p: Point) -> int {
    (p.x - c.x) * (p.x - c.x) + (p.y - c.y) * (p.y - c.y)
}

/// Whether the cell `p` belongs to the disc of radius `r` around `c`.
pub open spec fn in_disc(c: Point, r: int, p: Point) -> bool {
    dist2(c, p) <= r * r
}

/// Whether the cell `p` belongs to the one-pixel outline of that disc.
pub open spec fn on_circle(c: Point, r: int, p: Point) -> bool {
    in_disc(c, r, p) && (r == 0 || dist2(c, p) > (r - 1) * (r - 1))
}

impl<C: Copy> Circle<C> {
    /// The circle fits the coordinate range on every side.
    pub open spec fn fits(self) -> bool {
        i32::MIN <= self.center.x - self.radius && self.center.x + self.radius <= i32::MAX
            && i32::MIN <= self.center.y - self.radius && self.center.y + self.radius <= i32::MAX
    }

    /// A circle with the default style: no stroke and no fill, so it emits nothing.
    pub fn new(center: Point, radius: u32) -> (r: Circle<C>)
        ensures
            r.center == center,
            r.radius == radius,
            r.style == Style::<C>::new_spec(),
    {
        Circle { center, radius, style: Style::new() }
    }

    pub fn style(self, style: Style<C>) -> (r: Circle<C>)
        ensures
            r == (Circle { style, ..self }),
    {
        Circle { style, ..self }
    }

    pub fn stroke_color(self, color: Option<C>) -> (r: Circle<C>)
        ensures
            r == (Circle { style: Style { stroke_color: color, ..self.style }, ..self }),
    {
        let mut r = self;
        r.style.stroke_color = color;
        r
    }

    pub fn fill_color(self, color: Option<C>) -> (r: Circle<C>)
        ensures
            r == (Circle { style: Style { fill_color: color, ..self.style }, ..self }),
    {
        let mut r = self;
        r.style.fill_color = color;
        r
    }

    /// The circle moved by `by`.
    pub open spec fn translate_spec(self, by: Point) -> Circle<C> {
        Circle { center: add_spec(self.center, by), radius: self.radius, style: self.style }
    }

    /// The same circle moved by `by`; its radius and style are unchanged.
    pub fn translate(&self, by: Point) -> (r: Circle<C>)
        requires
            can_add(self.center, by),
        ensures
            r == self.translate_spec(by),
    {
        Circle { center: self.center.add(by), radius: self.radius, style: self.style }
    }

    /// Moves the circle by `by` in place.
    pub fn translate_mut(&mut self, by: Point)
        requires
            can_add(old(self).center, by),
        ensures
            *final(self) == old(self).translate_spec(by),
    {
        self.center = self.center.add(by);
    }

    /// A fresh producer of the circle's pixels.
    pub fn into_iter(self) -> (r: Scan<Circle<C>>)
        requires
            self.fits(),
        ensures
            r.wf(),
            r.remaining() == shape_pixels::<C, Circle<C>>(self),
    {
        Scan::new(self)
    }
}

impl<C: Copy> CellShape<C> for Circle<C> {
    open spec fn valid(&self) -> bool {
        self.fits()
    }

    open spec fn min_spec(&self) -> Point {
        Point { x: (self.center.x - self.radius) as i32, y: (self.center.y - self.radius) as i32 }
    }

    open spec fn max_spec(&self) -> Point {
        Point { x: (self.center.x + self.radius) as i32, y: (self.center.y + self.radius) as i32 }
    }

    open spec fn cell_spec(&self, p: Point) -> Option<C> {
        paint_cell(
            self.style,
            in_disc(self.center, self.radius as int, p),
            on_circle(self.center, self.radius as int, p),
        )
    }

    fn bounds(&self) -> (r: (Point, Point)) {
        (
            Point { x: (self.center.x as i64 - self.radius as i64) as i32, y: (self.center.y as i64 - self.radius as i64) as i32 },
            Point { x: (self.center.x as i64 + self.radius as i64) as i32, y: (self.center.y as i64 + self.radius as i64) as i32 },
        )
    }

    fn cell(&self, x: i32, y: i32) -> (r: Option<C>) {
        let dx: i128 = x as i128 - self.center.x as i128;
        let dy: i128 = y as i128 - self.center.y as i128;
        let r: i128 = self.radius as i128;
        assert(0 <= dx * dx <= 0x4_0000_0000 * 0x4_0000_0000) by (nonlinear_arith)
            requires
                -0x4_0000_0000 <= dx <= 0x4_0000_0000,
        ;
        assert(0 <= dy * dy <= 0x4_0000_0000 * 0x4_0000_0000) by (nonlinear_arith)
            requires
                -0x4_0000_0000 <= dy <= 0x4_0000_0000,
        ;
        assert(0 <= r * r <= 0x1_0000_0000 * 0x1_0000_0000) by (nonlinear_arith)
            requires
                0 <= r <= 0x1_0000_0000,
        ;
        let d2: i128 = dx * dx + dy * dy;
        let inside = d2 <= r * r;
        let outline = if r == 0 {
            inside
        } else {
            assert(0 <= (r - 1) * (r - 1) <= r * r) by (nonlinear_arith)
                requires
                    1 <= r,
            ;
            inside && d2 > (r - 1) * (r - 1)
        };
        pick_color(&self.style, inside, outline)
    }
}

/// Moves every pixel of `ps` by `d`, keeping its colour.
pub open spec fn shift_pixels<C>(ps: Seq<Pixel<C>>, d: Point) -> Seq<Pixel<C>> {
    ps.map_values(|p: Pixel<C>| Pixel(add_spec(p.0, d), p.1))
}

/// A shape whose box and cells are those of another moved by `d` scans to the other's
/// pixels moved by `d`.
proof fn lemma_scan_shift<C, S: CellShape<C>>(s: S, t: S, d: Point, k: int)
    requires
        s.min_spec().x <= s.max_spec().x,
        s.min_spec().y <= s.max_spec().y,
        can_add(s.min_spec(), d),
        can_add(s.max_spec(), d),
        t.min_spec() == add_spec(s.min_spec(), d),
        t.max_spec() == add_spec(s.max_spec(), d),
        forall|p: Point| in_box(s, p) ==> #[trigger] t.cell_spec(add_spec(p, d)) == s.cell_spec(p),
    ensures
        scan_from(t, k) == shift_pixels(scan_from(s, k), d),
    decreases box_cells(s) - k,
{
    assert(box_width(t) == box_width(s));
    assert(box_cells(t) == box_cells(s));
    if 0 <= k < box_cells(s) {
        lemma_scan_shift(s, t, d, k + 1);
        lemma_cell_in_box(s, k);
        let p = cell_point(s, k);
        assert(cell_point(t, k).x == t.min_spec().x + k % box_width(s));
        assert(cell_point(t, k).y == t.min_spec().y + k / box_width(s));
        assert(cell_point(t, k) == add_spec(p, d));
        assert(t.cell_spec(add_spec(p, d)) == s.cell_spec(p));
        assert(scan_from(t, k) =~= shift_pixels(scan_from(s, k), d));
    } else {
        assert(scan_from(t, k) =~= shift_pixels(scan_from(s, k), d));
    }
}

/// Translating a rectangle and then drawing it gives the pixels of the unmoved rectangle,
/// each moved by the same offset, in the same order and with the same colours.
pub proof fn lemma_rectangle_translate_commutes<C: Copy>(r: Rectangle<C>, by: Point)
    requires
        can_add(r.top_left, by),
        can_add(r.bottom_right, by),
    ensures
        shape_pixels::<C, Rectangle<C>>(r.translate_spec(by)) == shift_pixels(
            shape_pixels::<C, Rectangle<C>>(r),
            by,
        ),
{
    let t = r.translate_spec(by);
    assert forall|p: Point| in_box::<C, Rectangle<C>>(r, p) implies #[trigger] t.cell_spec(
        add_spec(p, by),
    ) == r.cell_spec(p) by {}
    lemma_scan_shift::<C, Rectangle<C>>(r, t, by, 0);
}

/// Translating a circle and then drawing it gives the pixels of the unmoved circle, each
/// moved by the same offset, in the same order and with the same colours.
pub proof fn lemma_circle_translate_commutes<C: Copy>(c: Circle<C>, by: Point)
    requires
        c.fits(),
        can_add(c.center, by),
        c.translate_spec(by).fits(),
    ensures
        shape_pixels::<C, Circle<C>>(c.translate_spec(by)) == shift_pixels(
            shape_pixels::<C, Circle<C>>(c),
            by,
        ),
{
    let t = c.translate_spec(by);
    assert forall|p: Point| in_box::<C, Circle<C>>(c, p) implies #[trigger] t.cell_spec(
        add_spec(p, by),
    ) == c.cell_spec(p) by {
        let q = add_spec(p, by);
        assert(q.x - t.center.x == p.x - c.center.x);
        assert(q.y - t.center.y == p.y - c.center.y);
        assert(dist2(t.center, q) == dist2(c.center, p));
    }
    lemma_scan_shift::<C, Circle<C>>(c, t, by, 0);
}

} // verus!
