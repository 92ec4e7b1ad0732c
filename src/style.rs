use vstd::prelude::*;

verus! {

/// How a primitive is painted. An absent colour means that aspect emits no pixels.
/// The stroke width is accepted but strokes are always one pixel wide.
#[derive(Clone, Copy, Debug, PartialEq, Eq)]
pub struct Style<C> {
    pub stroke_color: Option<C>,
    pub stroke_width: u8,
    pub fill_color: Option<C>,
}

impl<C: Copy> Style<C> {
    pub open spec fn new_spec() -> Style<C> {
        Style { stroke_color: None, stroke_width: 1, fill_color: None }
    }

    /// No stroke, no fill, width one.
    pub fn new() -> (r: Style<C>)
        ensures
            r == Self::new_spec(),
    {
        Style { stroke_color: None, stroke_width: 1, fill_color: None }
    }

    /// A style that strokes with `color` and does not fill.
    pub fn stroke(color: C) -> (r: Style<C>)
        ensures
            r.stroke_color == Some(color),
            r.fill_color is None,
            r.stroke_width == 1,
    {
        Style { stroke_color: Some(color), stroke_width: 1, fill_color: None }
    }

    /// A style that fills with `color` and draws no stroke.
    pub fn fill(color: C) -> (r: Style<C>)
        ensures
            r.stroke_color is None,
            r.fill_color == Some(color),
            r.stroke_width == 1,
    {
        Style { stroke_color: None, stroke_width: 1, fill_color: Some(color) }
    }
}

} // verus!
