use vstd::prelude::*;

verus! {

/// A colour representation that a decoder can fill from a raw pixel value.
pub trait PixelColor: Copy + Sized {
    /// The number of bits one raw pixel of this colour occupies.
    spec fn bits_spec() -> u32;

    /// The colour that a raw bit pattern stands for.
    spec fn from_raw_spec(raw: u32) -> Self;

    fn bits_per_pixel() -> (r: u32)
        ensures
            r == Self::bits_spec(),
    ;

    fn from_raw(raw: u32) -> (r: Self)
        ensures
            r == Self::from_raw_spec(raw),
    ;
}

/// A one-bit colour.
#[derive(Clone, Copy, Debug, PartialEq, Eq, Structural)]
pub enum BinaryColor {
    Off,
    On,
}

/// An eight-bit grey level.
#[derive(Clone, Copy, Debug, PartialEq, Eq, Structural)]
pub struct Gray8 {
    pub luma: u8,
}

/// Five bits per channel.
#[derive(Clone, Copy, Debug, PartialEq, Eq, Structural)]
pub struct Rgb555 {
    pub r: u8,
    pub g: u8,
    pub b: u8,
}

/// Five bits of red and blue, six of green.
#[derive(Clone, Copy, Debug, PartialEq, Eq, Structural)]
pub struct Rgb565 {
    pub r: u8,
    pub g: u8,
    pub b: u8,
}

/// Eight bits per channel.
#[derive(Clone, Copy, Debug, PartialEq, Eq, Structural)]
pub struct Rgb888 {
    pub r: u8,
    pub g: u8,
    pub b: u8,
}

impl PixelColor for BinaryColor {
    open spec fn bits_spec() -> u32 {
        1
    }

    open spec fn from_raw_spec(raw: u32) -> BinaryColor {
        if raw & 1 == 0 { BinaryColor::Off } else { BinaryColor::On }
    }

    fn bits_per_pixel() -> (r: u32) {
        1
    }

    fn from_raw(raw: u32) -> (r: BinaryColor) {
        if raw & 1 == 0 { BinaryColor::Off } else { BinaryColor::On }
    }
}

impl PixelColor for Gray8 {
    open spec fn bits_spec() -> u32 {
        8
    }

    open spec fn from_raw_spec(raw: u32) -> Gray8 {
        Gray8 { luma: (raw & 0xff) as u8 }
    }

    fn bits_per_pixel() -> (r: u32) {
        8
    }

    fn from_raw(raw: u32) -> (r: Gray8) {
        Gray8 { luma: (raw & 0xff) as u8 }
    }
}

impl PixelColor for Rgb555 {
    open spec fn bits_spec() -> u32 {
        16
    }

    open spec fn from_raw_spec(raw: u32) -> Rgb555 {
        Rgb555 {
            r: ((raw >> 10u32) & 0x1f) as u8,
            g: ((raw >> 5u32) & 0x1f) as u8,
            b: (raw & 0x1f) as u8,
        }
    }

    fn bits_per_pixel() -> (r: u32) {
        16
    }

    fn from_raw(raw: u32) -> (r: Rgb555) {
        Rgb555 { r: ((raw >> 10u32) & 0x1f) as u8, g: ((raw >> 5u32) & 0x1f) as u8, b: (raw & 0x1f) as u8 }
    }
}

impl PixelColor for Rgb565 {
    open spec fn bits_spec() -> u32 {
        16
    }

    open spec fn from_raw_spec(raw: u32) -> Rgb565 {
        Rgb565 {
            r: ((raw >> 11u32) & 0x1f) as u8,
            g: ((raw >> 5u32) & 0x3f) as u8,
            b: (raw & 0x1f) as u8,
        }
    }

    fn bits_per_pixel() -> (r: u32) {
        16
    }

    fn from_raw(raw: u32) -> (r: Rgb565) {
        Rgb565 { r: ((raw >> 11u32) & 0x1f) as u8, g: ((raw >> 5u32) & 0x3f) as u8, b: (raw & 0x1f) as u8 }
    }
}

impl PixelColor for Rgb888 {
    open spec fn bits_spec() -> u32 {
        24
    }

    open spec fn from_raw_spec(raw: u32) -> Rgb888 {
        Rgb888 {
            r: ((raw >> 16u32) & 0xff) as u8,
            g: ((raw >> 8u32) & 0xff) as u8,
            b: (raw & 0xff) as u8,
        }
    }

    fn bits_per_pixel() -> (r: u32) {
        24
    }

    fn from_raw(raw: u32) -> (r: Rgb888) {
        Rgb888 { r: ((raw >> 16u32) & 0xff) as u8, g: ((raw >> 8u32) & 0xff) as u8, b: (raw & 0xff) as u8 }
    }
}

impl Rgb555 {
    pub fn new(r: u8, g: u8, b: u8) -> (c: Rgb555)
        ensures
            c.r == r && c.g == g && c.b == b,
    {
        Rgb555 { r, g, b }
    }
}

impl Rgb565 {
    pub fn new(r: u8, g: u8, b: u8) -> (c: Rgb565)
        ensures
            c.r == r && c.g == g && c.b == b,
    {
        Rgb565 { r, g, b }
    }
}

impl Rgb888 {
    pub fn new(r: u8, g: u8, b: u8) -> (c: Rgb888)
        ensures
            c.r == r && c.g == g && c.b == b,
    {
        Rgb888 { r, g, b }
    }
}

impl Gray8 {
    pub fn new(luma: u8) -> (c: Gray8)
        ensures
            c.luma == luma,
    {
        Gray8 { luma }
    }
}

} // verus!
