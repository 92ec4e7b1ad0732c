//! Lazy, integer-exact pixel streams for small displays: geometric primitives and
//! decoded BMP images both turn into ordered sequences of `(Point, color)` pixels.
pub mod color;
pub mod display;
pub mod geometry;
pub mod image_bmp;
pub mod line;
pub mod pixel;
pub mod primitives;
pub mod style;

pub use color::{BinaryColor, Gray8, PixelColor, Rgb555, Rgb565, Rgb888};
pub use display::{BinaryDisplay, PixelData, RgbDisplay, SimulatorEvent};
pub use geometry::{Point, Size};
pub use image_bmp::{ImageBmp, ImageBmpIterator};
pub use line::{Line, LineIterator};
pub use pixel::{collect_pixels, Chain, Pixel, PixelIterator};
pub use primitives::{CellShape, Circle, Rectangle, Scan};
pub use style::Style;
