use crate::color::{BinaryColor, Rgb888};
use crate::geometry::Size;
use crate::pixel::{Pixel, PixelIterator};
use vstd::prelude::*;

verus! {

/// Applies one pixel to a row-major grid of `width` columns and `height` rows; a pixel
/// outside the grid changes nothing.
pub open spec fn plot<C>(cells: Seq<C>, width: int, height: int, p: Pixel<C>) -> Seq<C> {
    if 0 <= p.0.x < width && 0 <= p.0.y < height {
        cells.update(p.0.y * width + p.0.x, p.1)
    } else {
        cells
    }
}

/// Applies a sequence of pixels in order, so a later pixel overwrites an earlier one.
pub open spec fn plot_all<C>(cells: Seq<C>, width: int, height: int, ps: Seq<Pixel<C>>) -> Seq<C>
    decreases ps.len(),
{
    if ps.len() == 0 {
        cells
    } else {
        plot_all(plot(cells, width, height, ps[0]), width, height, ps.drop_first())
    }
}

/// A row-major grid of colours.
pub struct PixelData<C> {
    pub width: usize,
    pub height: usize,
    pub data: Vec<C>,
}

impl<C: Copy> PixelData<C> {
    pub open spec fn wf(&self) -> bool {
        self.data@.len() == self.width * self.height
    }

    /// A grid of the given size with every cell set to `background`.
    pub fn new(width: usize, height: usize, background: C) -> (r: PixelData<C>)
        requires
            width * height <= usize::MAX,
        ensures
            r.wf(),
            r.width == width,
            r.height == height,
            r.data@ == Seq::new((width * height) as nat, |i: int| background),
    {
        let n: usize = width * height;
        let mut data: Vec<C> = Vec::with_capacity(n);
        let mut i: usize = 0;
        while i < n
            invariant
                i <= n,
                n == width * height,
                data@ == Seq::new(i as nat, |k: int| background),
            decreases n - i,
        {
            data.push(background);
            i = i + 1;
            assert(data@ =~= Seq::new(i as nat, |k: int| background));
        }
        PixelData { width, height, data }
    }

    /// The colour at column `x` of row `y`.
    pub fn get(&self, x: usize, y: usize) -> (r: C)
        requires
            self.wf(),
            x < self.width,
            y < self.height,
        ensures
            r == self.data@[y * self.width + x],
    {
        let cells = self.data.len();
        proof {
            lemma_cell_index(x as int, y as int, self.width as int, self.height as int);
            assert(y * self.width + x < cells);
        }
        self.data[x + y * self.width]
    }

    /// Sets the colour at column `x` of row `y`; does nothing outside the grid.
    pub fn set(&mut self, x: usize, y: usize, color: C)
        requires
            old(self).wf(),
        ensures
            final(self).wf(),
            final(self).width == old(self).width,
            final(self).height == old(self).height,
            x < old(self).width && y < old(self).height ==> final(self).data@ == old(
                self,
            ).data@.update(y * old(self).width + x, color),
            !(x < old(self).width && y < old(self).height) ==> final(self).data@ == old(self).data@,
    {
        let cells = self.data.len();
        if x < self.width && y < self.height {
            proof {
                lemma_cell_index(x as int, y as int, self.width as int, self.height as int);
                assert(y * self.width + x < cells);
            }
            let i = x + y * self.width;
            self.data.set(i, color);
        }
    }

    /// Applies one pixel; coordinates outside the grid are ignored.
    pub fn draw_pixel(&mut self, pixel: Pixel<C>)
        requires
            old(self).wf(),
        ensures
            final(self).wf(),
            final(self).width == old(self).width,
            final(self).height == old(self).height,
            final(self).data@ == plot(old(self).data@, old(self).width as int, old(self).height as int, pixel),
    {
        let Pixel(coord, color) = pixel;
        if coord.x >= 0 && coord.y >= 0 {
            self.set(coord.x as usize, coord.y as usize, color);
        }
    }

    /// Applies every remaining pixel of a producer, in order.
    pub fn draw<I: PixelIterator<C>>(&mut self, it: &mut I)
        requires
            old(self).wf(),
            old(it).wf(),
        ensures
            final(self).wf(),
            final(self).width == old(self).width,
            final(self).height == old(self).height,
            final(self).data@ == plot_all(old(self).data@, old(self).width as int, old(self).height as int, old(it).remaining()),
            final(it).wf(),
            final(it).remaining().len() == 0,
    {
        let ghost w = self.width as int;
        let ghost h = self.height as int;
        let ghost goal = plot_all(self.data@, w, h, it.remaining());
        loop
            invariant
                self.wf(),
                self.width == w,
                self.height == h,
                it.wf(),
                plot_all(self.data@, w, h, it.remaining()) == goal,
            ensures
                self.wf(),
                self.width == w,
                self.height == h,
                it.wf(),
                it.remaining().len() == 0,
                self.data@ == goal,
            decreases it.remaining().len(),
        {
            match it.next() {
                Some(p) => {
                    self.draw_pixel(p);
                },
                None => {
                    break;
                },
            }
        }
    }
}

proof fn lemma_cell_index(x: int, y: int, w: int, h: int)
    requires
        0 <= x < w,
        0 <= y < h,
    ensures
        0 <= y * w + x < w * h,
{
    assert(0 <= y * w + x < w * h) by (nonlinear_arith)
        requires
            0 <= x < w,
            0 <= y < h,
    ;
}

/// Input that the simulator window reports.
#[derive(Clone, Copy, Debug, PartialEq, Eq, Structural)]
pub enum SimulatorEvent {
    MouseButtonDown { point: crate::geometry::Point },
    MouseButtonUp { point: crate::geometry::Point },
}

/// A simulated display of on/off pixels.
pub struct BinaryDisplay {
    pub pixels: PixelData<BinaryColor>,
    /// Input received since it was last collected, oldest first.
    pub events: Vec<SimulatorEvent>,
}

/// A simulated display of 24-bit colour pixels.
pub struct RgbDisplay {
    pub pixels: PixelData<Rgb888>,
    /// Input received since it was last collected, oldest first.
    pub events: Vec<SimulatorEvent>,
}

/// Hands over the queued events and leaves the queue empty.
fn take_events(events: &mut Vec<SimulatorEvent>) -> (r: Vec<SimulatorEvent>)
    ensures
        r@ == old(events)@,
        final(events)@.len() == 0,
{
    let mut taken: Vec<SimulatorEvent> = Vec::new();
    std::mem::swap(events, &mut taken);
    taken
}

impl BinaryDisplay {
    /// A display of the given size with every pixel off.
    pub fn new(width: usize, height: usize) -> (r: BinaryDisplay)
        requires
            width * height <= usize::MAX,
        ensures
            r.pixels.wf(),
            r.pixels.width == width,
            r.pixels.height == height,
            r.pixels.data@ == Seq::new((width * height) as nat, |i: int| BinaryColor::Off),
            r.events@.len() == 0,
    {
        BinaryDisplay { events: Vec::new(), pixels: PixelData::new(width, height, BinaryColor::Off) }
    }

    /// Turns every pixel off, keeping the size.
    pub fn clear(&mut self)
        requires
            old(self).pixels.wf(),
        ensures
            final(self).pixels.wf(),
            final(self).pixels.width == old(self).pixels.width,
            final(self).pixels.height == old(self).pixels.height,
            final(self).events == old(self).events,
            final(self).pixels.data@ == Seq::new(
                (old(self).pixels.width * old(self).pixels.height) as nat,
                |i: int| BinaryColor::Off,
            ),
    {
        let cells = self.pixels.data.len();
        assert(self.pixels.width * self.pixels.height == cells);
        self.pixels = PixelData::new(self.pixels.width, self.pixels.height, BinaryColor::Off);
    }

    /// One frame of the simulation: `None` when the window asked to close, else the colours
    /// to present, row by row from the top.
    pub fn run_once(&self, close_requested: bool) -> (r: Option<Vec<BinaryColor>>)
        requires
            self.pixels.wf(),
        ensures
            r is None <==> close_requested,
            r matches Some(frame) ==> frame@ == self.pixels.data@,
    {
        if close_requested {
            return None;
        }
        Some(frame_of(&self.pixels))
    }

    pub fn draw_pixel(&mut self, pixel: Pixel<BinaryColor>)
        requires
            old(self).pixels.wf(),
        ensures
            final(self).pixels.wf(),
            final(self).pixels.width == old(self).pixels.width,
            final(self).pixels.height == old(self).pixels.height,
            final(self).events == old(self).events,
            final(self).pixels.data@ == plot(
                old(self).pixels.data@,
                old(self).pixels.width as int,
                old(self).pixels.height as int,
                pixel,
            ),
    {
        self.pixels.draw_pixel(pixel);
    }

    /// Queues input reported by the window.
    pub fn push_input_event(&mut self, event: SimulatorEvent)
        ensures
            final(self).events@ == old(self).events@.push(event),
            final(self).pixels == old(self).pixels,
    {
        self.events.push(event);
    }

    /// The input received since the last call, oldest first; the queue is left empty.
    pub fn get_input_events(&mut self) -> (r: Vec<SimulatorEvent>)
        ensures
            r@ == old(self).events@,
            final(self).events@.len() == 0,
            final(self).pixels == old(self).pixels,
    {
        take_events(&mut self.events)
    }

    pub fn size(&self) -> (r: Size)
        requires
            self.pixels.width <= u32::MAX,
            self.pixels.height <= u32::MAX,
        ensures
            r.width == self.pixels.width,
            r.height == self.pixels.height,
    {
        Size::new(self.pixels.width as u32, self.pixels.height as u32)
    }
}

impl RgbDisplay {
    /// A display of the given size with every pixel black.
    pub fn new(width: usize, height: usize) -> (r: RgbDisplay)
        requires
            width * height <= usize::MAX,
        ensures
            r.pixels.wf(),
            r.pixels.width == width,
            r.pixels.height == height,
            r.pixels.data@ == Seq::new((width * height) as nat, |i: int| Rgb888 { r: 0, g: 0, b: 0 }),
            r.events@.len() == 0,
    {
        RgbDisplay { events: Vec::new(), pixels: PixelData::new(width, height, Rgb888 { r: 0, g: 0, b: 0 }) }
    }

    /// Sets every pixel to black, keeping the size.
    pub fn clear(&mut self)
        requires
            old(self).pixels.wf(),
        ensures
            final(self).pixels.wf(),
            final(self).pixels.width == old(self).pixels.width,
            final(self).pixels.height == old(self).pixels.height,
            final(self).events == old(self).events,
            final(self).pixels.data@ == Seq::new(
                (old(self).pixels.width * old(self).pixels.height) as nat,
                |i: int| Rgb888 { r: 0, g: 0, b: 0 },
            ),
    {
        let cells = self.pixels.data.len();
        assert(self.pixels.width * self.pixels.height == cells);
        self.pixels = PixelData::new(self.pixels.width, self.pixels.height, Rgb888 { r: 0, g: 0, b: 0 });
    }

    /// One frame of the simulation: `None` when the window asked to close, else the colours
    /// to present, row by row from the top.
    pub fn run_once(&self, close_requested: bool) -> (r: Option<Vec<Rgb888>>)
        requires
            self.pixels.wf(),
        ensures
            r is None <==> close_requested,
            r matches Some(frame) ==> frame@ == self.pixels.data@,
    {
        if close_requested {
            return None;
        }
        Some(frame_of(&self.pixels))
    }

    pub fn draw_pixel(&mut self, pixel: Pixel<Rgb888>)
        requires
            old(self).pixels.wf(),
        ensures
            final(self).pixels.wf(),
            final(self).pixels.width == old(self).pixels.width,
            final(self).pixels.height == old(self).pixels.height,
            final(self).events == old(self).events,
            final(self).pixels.data@ == plot(
                old(self).pixels.data@,
                old(self).pixels.width as int,
                old(self).pixels.height as int,
                pixel,
            ),
    {
        self.pixels.draw_pixel(pixel);
    }

    /// Queues input reported by the window.
    pub fn push_input_event(&mut self, event: SimulatorEvent)
        ensures
            final(self).events@ == old(self).events@.push(event),
            final(self).pixels == old(self).pixels,
    {
        self.events.push(event);
    }

    /// The input received since the last call, oldest first; the queue is left empty.
    pub fn get_input_events(&mut self) -> (r: Vec<SimulatorEvent>)
        ensures
            r@ == old(self).events@,
            final(self).events@.len() == 0,
            final(self).pixels == old(self).pixels,
    {
        take_events(&mut self.events)
    }

    pub fn size(&self) -> (r: Size)
        requires
            self.pixels.width <= u32::MAX,
            self.pixels.height <= u32::MAX,
        ensures
            r.width == self.pixels.width,
            r.height == self.pixels.height,
    {
        Size::new(self.pixels.width as u32, self.pixels.height as u32)
    }
}

/// Reads the grid out row by row from the top, each row left to right.
fn frame_of<C: Copy>(pixels: &PixelData<C>) -> (r: Vec<C>)
    requires
        pixels.wf(),
    ensures
        r@ == pixels.data@,
{
    let mut frame: Vec<C> = Vec::new();
    let mut y: usize = 0;
    while y < pixels.height
        invariant
            pixels.wf(),
            y <= pixels.height,
            frame@ == pixels.data@.subrange(0, y * pixels.width),
        decreases pixels.height - y,
    {
        let mut x: usize = 0;
        while x < pixels.width
            invariant
                pixels.wf(),
                y < pixels.height,
                x <= pixels.width,
                frame@ == pixels.data@.subrange(0, y * pixels.width + x),
            decreases pixels.width - x,
        {
            let c = pixels.get(x, y);
            frame.push(c);
            proof {
                lemma_cell_index(x as int, y as int, pixels.width as int, pixels.height as int);
            }
            x = x + 1;
            assert(frame@ =~= pixels.data@.subrange(0, y * pixels.width + x));
        }
        assert((y + 1) * pixels.width == y * pixels.width + pixels.width) by (nonlinear_arith);
        y = y + 1;
    }
    assert(y * pixels.width == pixels.width * pixels.height) by (nonlinear_arith)
        requires
            y == pixels.height,
    ;
    assert(frame@ =~= pixels.data@);
    frame
}

} // verus!
