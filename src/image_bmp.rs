use crate::color::PixelColor;
use crate::geometry::{add_spec, can_add, fits_i32, Point, Size};
use crate::pixel::{Pixel, PixelIterator};
use core::marker::PhantomData;
use vstd::arithmetic::div_mod::{lemma_fundamental_div_mod, lemma_fundamental_div_mod_converse};
use vstd::prelude::*;

verus! {

/// The little-endian 16-bit value at `i`.
pub open spec fn le16(b: Seq<u8>, i: int) -> int {
    b[i] + b[i + 1] * 256
}

/// The little-endian 32-bit value at `i`.
pub open spec fn le32(b: Seq<u8>, i: int) -> int {
    b[i] + b[i + 1] * 0x100 + b[i + 2] * 0x1_0000 + b[i + 3] * 0x100_0000
}

/// Whether `b` opens with a complete fixed-layout header: 38 bytes starting with `BM`.
pub open spec fn has_bmp_header(b: Seq<u8>) -> bool {
    b.len() >= 38 && b[0] == 0x42 && b[1] == 0x4d
}

/// The byte offset at which the pixel rows begin.
pub open spec fn data_start_of(b: Seq<u8>) -> int {
    le32(b, 10)
}

pub open spec fn width_of(b: Seq<u8>) -> int {
    le32(b, 18)
}

pub open spec fn height_of(b: Seq<u8>) -> int {
    le32(b, 22)
}

pub open spec fn bpp_of(b: Seq<u8>) -> int {
    le16(b, 28)
}

/// The compression field: `0` stores plain rows, `3` plain rows with channel bit masks.
/// Every other method (run-length, embedded JPEG or PNG) is refused.
pub open spec fn compression_of(b: Seq<u8>) -> int {
    le32(b, 30)
}

/// The pixel depths the decoder reads.
pub open spec fn supported_bpp(bpp: int) -> bool {
    bpp == 1 || bpp == 2 || bpp == 4 || bpp == 8 || bpp == 16 || bpp == 24 || bpp == 32
}

/// The length of one encoded row: rows are padded to a multiple of four bytes.
pub open spec fn bytes_per_row(width: int, bpp: int) -> int {
    (width * bpp + 31) / 32 * 4
}

/// Whether `b` is an image the decoder accepts: a complete header, a supported depth,
/// and every row present.
pub open spec fn accepts(b: Seq<u8>) -> bool {
    &&& has_bmp_header(b)
    &&& (compression_of(b) == 0 || compression_of(b) == 3)
    &&& supported_bpp(bpp_of(b))
    &&& data_start_of(b) + bytes_per_row(width_of(b), bpp_of(b)) * height_of(b) <= b.len()
}

/// The raw value of pixel `x` of the row that starts at byte `row`. Below eight bits, pixels
/// are packed most significant bits first; above, bytes are little-endian.
pub open spec fn raw_at(b: Seq<u8>, row: int, x: int, bpp: u32) -> u32 {
    if bpp < 8 {
        let per_byte = 8int / (bpp as int);
        ((b[row + x / per_byte] as u32) >> ((8 - bpp * (x % per_byte + 1)) as u32)) & (((1u32
            << bpp) - 1) as u32)
    } else {
        let i = row + x * (bpp / 8);
        if bpp == 8 {
            b[i] as u32
        } else if bpp == 16 {
            (b[i] as u32) | ((b[i + 1] as u32) << 8u32)
        } else if bpp == 24 {
            (b[i] as u32) | ((b[i + 1] as u32) << 8u32) | ((b[i + 2] as u32) << 16u32)
        } else {
            (b[i] as u32) | ((b[i + 1] as u32) << 8u32) | ((b[i + 2] as u32) << 16u32) | ((b[i
                + 3] as u32) << 24u32)
        }
    }
}

/// The bytes of pixel `x` lie inside its padded row.
proof fn lemma_pixel_in_row(width: int, bpp: int, x: int)
    requires
        0 <= x < width,
        supported_bpp(bpp),
    ensures
        bpp < 8 ==> x / (8int / bpp) + 1 <= bytes_per_row(width, bpp),
        bpp >= 8 ==> x * (bpp / 8) + bpp / 8 <= bytes_per_row(width, bpp),
{
    let n = width * bpp;
    let q = (n + 31) / 32;
    lemma_fundamental_div_mod(n + 31, 32);
    assert(32 * q >= n);
    if bpp == 1 {
        assert(n == width * 1);
        assert(x / 8 + 1 <= 4 * q);
    } else if bpp == 2 {
        assert(n == width * 2);
        assert(x / 4 + 1 <= 4 * q);
    } else if bpp == 4 {
        assert(n == width * 4);
        assert(x / 2 + 1 <= 4 * q);
    } else if bpp == 8 {
        assert(n == width * 8);
        assert(x * 1 + 1 <= 4 * q);
    } else if bpp == 16 {
        assert(n == width * 16);
        assert(x * 2 + 2 <= 4 * q);
    } else if bpp == 24 {
        assert(n == width * 24);
        assert(x * 3 + 3 <= 4 * q);
    } else {
        assert(n == width * 32);
        assert(x * 4 + 4 <= 4 * q);
    }
}

/// Reads the raw value of pixel `x` of the row that starts at byte `row`.
fn read_raw(bytes: &[u8], row: usize, x: u32, bpp: u32) -> (r: u32)
    requires
        supported_bpp(bpp as int),
        bpp < 8 ==> row + (x as int) / (8int / bpp as int) + 1 <= bytes@.len(),
        bpp >= 8 ==> row + (x as int) * (bpp / 8) + bpp / 8 <= bytes@.len(),
    ensures
        r == raw_at(bytes@, row as int, x as int, bpp),
{
    let len = bytes.len();
    if bpp < 8 {
        let per_byte: u32 = 8 / bpp;
        assert(per_byte as int == 8int / bpp as int);
        assert(row + (x / per_byte) as int + 1 <= len);
        let i: usize = row + (x / per_byte) as usize;
        let k: u32 = x % per_byte;
        assert(bpp * (k + 1) <= 8) by {
            assert(k < per_byte);
        }
        let shift: u32 = 8 - bpp * (k + 1);
        assert(1u32 << bpp >= 1) by (bit_vector)
            requires
                bpp <= 4,
        ;
        ((bytes[i] as u32) >> shift) & ((1u32 << bpp) - 1)
    } else {
        let step: u64 = (bpp / 8) as u64;
        assert(x as u64 * step <= 4 * 0xffff_ffff) by (nonlinear_arith)
            requires
                step <= 4,
                x <= 0xffff_ffff,
        ;
        assert(row + (x as u64 * step) as int + step <= len);
        let i: usize = row + (x as u64 * step) as usize;
        if bpp == 8 {
            bytes[i] as u32
        } else if bpp == 16 {
            (bytes[i] as u32) | ((bytes[i + 1] as u32) << 8u32)
        } else if bpp == 24 {
            (bytes[i] as u32) | ((bytes[i + 1] as u32) << 8u32) | ((bytes[i + 2] as u32) << 16u32)
        } else {
            (bytes[i] as u32) | ((bytes[i + 1] as u32) << 8u32) | ((bytes[i + 2] as u32) << 16u32)
                | ((bytes[i + 3] as u32) << 24u32)
        }
    }
}

/// Reads the little-endian 32-bit value at `i`.
fn read_le32(bytes: &[u8], i: usize) -> (r: u64)
    requires
        i + 4 <= bytes@.len(),
    ensures
        r == le32(bytes@, i as int),
{
    bytes[i] as u64 + bytes[i + 1] as u64 * 0x100 + bytes[i + 2] as u64 * 0x1_0000 + bytes[i + 3] as u64
        * 0x100_0000
}

/// Relies on tinybmp::Bmp::from_slice, width, height and bpp: parsing succeeds exactly
/// when the input holds 38 bytes starting with `BM`, and then reports the little-endian
/// fields of that header. `from_slice` slices from the pixel-data offset, so that offset
/// must lie within the input.
#[verifier::external_body]
fn parse_header(bytes: &[u8]) -> (r: Result<(u32, u32, u32, usize), ()>)
    requires
        has_bmp_header(bytes@) ==> data_start_of(bytes@) <= bytes@.len(),
    ensures
        r is Ok <==> has_bmp_header(bytes@),
        r is Ok ==> r->Ok_0.0 == width_of(bytes@) && r->Ok_0.1 == height_of(bytes@)
            && r->Ok_0.2 == bpp_of(bytes@) && r->Ok_0.3 == data_start_of(bytes@),
{
    let bmp = tinybmp::Bmp::from_slice(bytes)?;
    Ok((bmp.width(), bmp.height(), bmp.bpp(), bmp.header.image_data_start))
}

/// A BMP image borrowed from its encoded bytes and placed at `offset`.
#[derive(Debug)]
pub struct ImageBmp<'a, C> {
    pub bytes: &'a [u8],
    pub width: u32,
    pub height: u32,
    pub bpp: u32,
    pub data_start: usize,
    /// Top-left corner, relative to the display origin.
    pub offset: Point,
    pub pixel_type: PhantomData<C>,
}

impl<'a, C: PixelColor> ImageBmp<'a, C> {
    /// The fields agree with the header of the bytes they were read from.
    pub open spec fn wf(self) -> bool {
        &&& accepts(self.bytes@)
        &&& self.width == width_of(self.bytes@)
        &&& self.height == height_of(self.bytes@)
        &&& self.bpp == bpp_of(self.bytes@)
        &&& self.data_start == data_start_of(self.bytes@)
    }

    /// Every emitted coordinate fits in an `i32`.
    pub open spec fn fits(self) -> bool {
        self.offset.x + self.width <= i32::MAX + 1 && self.offset.y + self.height <= i32::MAX + 1
    }

    /// The byte at which display row `y` (0 at the top) starts: rows are stored bottom-up.
    pub open spec fn row_start(self, y: int) -> int {
        self.data_start + bytes_per_row(self.width as int, self.bpp as int) * (self.height - 1 - y)
    }

    /// The pixel at position `i` of the row-major, top-to-bottom order.
    pub open spec fn pixel_at(self, i: int) -> Pixel<C> {
        let x = i % (self.width as int);
        let y = i / (self.width as int);
        Pixel(
            Point { x: (x + self.offset.x) as i32, y: (y + self.offset.y) as i32 },
            C::from_raw_spec(raw_at(self.bytes@, self.row_start(y), x, self.bpp)),
        )
    }

    /// Every pixel of the image, top row first, each row left to right.
    pub open spec fn pixels_spec(self) -> Seq<Pixel<C>> {
        Seq::new((self.width * self.height) as nat, |i: int| self.pixel_at(i))
    }

    /// Reads the header; fails unless the bytes are an image the decoder accepts.
    pub fn new(bytes: &'a [u8]) -> (r: Result<ImageBmp<'a, C>, ()>)
        ensures
            r is Ok <==> accepts(bytes@),
            r is Ok ==> r->Ok_0.wf() && r->Ok_0.bytes@ == bytes@ && r->Ok_0.offset == Point::zero_spec(),
    {
        if bytes.len() >= 38 && bytes[0] == 0x42 && bytes[1] == 0x4d {
            let start = read_le32(bytes, 10);
            if start > bytes.len() as u64 {
                return Err(());
            }
            let compression = read_le32(bytes, 30);
            if compression != 0 && compression != 3 {
                return Err(());
            }
        }
        let (width, height, bpp, data_start) = match parse_header(bytes) {
            Ok(h) => h,
            Err(()) => {
                return Err(());
            },
        };
        if !(bpp == 1 || bpp == 2 || bpp == 4 || bpp == 8 || bpp == 16 || bpp == 24 || bpp == 32) {
            return Err(());
        }
        let row_len: u64 = (width as u64 * bpp as u64 + 31) / 32 * 4;
        let rows_len = match row_len.checked_mul(height as u64) {
            Some(n) => n,
            None => {
                return Err(());
            },
        };
        if data_start as u64 > bytes.len() as u64 || rows_len > bytes.len() as u64 - data_start as u64 {
            return Err(());
        }
        Ok(ImageBmp { bytes, width, height, bpp, data_start, offset: Point::zero(), pixel_type: PhantomData })
    }

    pub fn width(&self) -> (r: u32)
        ensures
            r == self.width,
    {
        self.width
    }

    pub fn height(&self) -> (r: u32)
        ensures
            r == self.height,
    {
        self.height
    }

    pub fn top_left(&self) -> (r: Point)
        ensures
            r == self.offset,
    {
        self.offset
    }

    pub fn size(&self) -> (r: Size)
        ensures
            r.width == self.width && r.height == self.height,
    {
        Size::new(self.width, self.height)
    }

    /// The corner just past the image: `top_left() + size()`.
    pub fn bottom_right(&self) -> (r: Point)
        requires
            fits_i32(self.offset.x + self.width),
            fits_i32(self.offset.y + self.height),
        ensures
            r.x == self.offset.x + self.width,
            r.y == self.offset.y + self.height,
    {
        self.offset.add_size(self.size())
    }

    /// The same image placed `by` further along; the bytes are shared, not copied.
    pub fn translate(&self, by: Point) -> (r: ImageBmp<'a, C>)
        requires
            can_add(self.offset, by),
        ensures
            r.bytes == self.bytes,
            r.width == self.width,
            r.height == self.height,
            r.bpp == self.bpp,
            r.data_start == self.data_start,
            r.offset == add_spec(self.offset, by),
    {
        ImageBmp {
            bytes: self.bytes,
            width: self.width,
            height: self.height,
            bpp: self.bpp,
            data_start: self.data_start,
            offset: self.offset.add(by),
            pixel_type: PhantomData,
        }
    }

    /// Moves the image by `by` in place.
    pub fn translate_mut(&mut self, by: Point)
        requires
            can_add(old(self).offset, by),
        ensures
            final(self).bytes == old(self).bytes,
            final(self).width == old(self).width,
            final(self).height == old(self).height,
            final(self).bpp == old(self).bpp,
            final(self).data_start == old(self).data_start,
            final(self).offset == add_spec(old(self).offset, by),
    {
        self.offset = self.offset.add(by);
    }

    /// A fresh producer of the image's pixels. The colour type must read as many bits per
    /// pixel as the image stores.
    pub fn into_iter(&'a self) -> (r: ImageBmpIterator<'a, C>)
        requires
            self.wf(),
            self.fits(),
            C::bits_spec() == self.bpp,
        ensures
            r.wf(),
            r.remaining() == self.pixels_spec(),
    {
        let y: u32 = if self.width == 0 { self.height } else { 0 };
        let r = ImageBmpIterator { image: self, x: 0, y };
        proof {
            assert(r.index() == 0) by (nonlinear_arith)
                requires
                    r.x == 0,
                    r.y == 0 || self.width == 0,
                    r.index() == r.y * self.width + r.x,
            ;
            assert(r.remaining() =~= self.pixels_spec());
        }
        r
    }

    /// A fresh producer of the image's pixels, or `None` exactly when the colour type reads
    /// a different number of bits per pixel than the image stores.
    pub fn checked_into_iter(&'a self) -> (r: Option<ImageBmpIterator<'a, C>>)
        requires
            self.wf(),
            self.fits(),
        ensures
            r is None <==> C::bits_spec() != self.bpp,
            r matches Some(it) ==> it.wf() && it.remaining() == self.pixels_spec(),
    {
        if C::bits_per_pixel() != self.bpp {
            None
        } else {
            Some(self.into_iter())
        }
    }
}

/// Rows are padded to whole 32-bit words: each encoded row takes a multiple of four bytes,
/// the fewest that hold its pixels, and display row `y` starts exactly one padded row after
/// display row `y + 1`, which sits below it.
pub proof fn lemma_row_padding<'a, C: PixelColor>(image: ImageBmp<'a, C>, y: int)
    requires
        image.wf(),
        0 <= y,
        y + 1 < image.height,
    ensures
        ({
            let bpr = bytes_per_row(image.width as int, image.bpp as int);
            &&& bpr % 4 == 0
            &&& bpr * 8 >= image.width * image.bpp
            &&& bpr * 8 < image.width * image.bpp + 32
            &&& image.row_start(y) == image.row_start(y + 1) + bpr
        }),
{
    let n = image.width * image.bpp;
    let bpr = bytes_per_row(image.width as int, image.bpp as int);
    lemma_fundamental_div_mod(n + 31, 32);
    let h = image.height as int;
    assert(bpr * (h - 1 - y) == bpr * (h - 1 - (y + 1)) + bpr) by (nonlinear_arith);
}

/// Rows are stored bottom-up: the first encoded row is the bottom display row, and its
/// first pixel is emitted at the image's lower-left corner, after every row above it.
pub proof fn lemma_bottom_up<'a, C: PixelColor>(image: ImageBmp<'a, C>)
    requires
        image.wf(),
        image.width > 0,
        image.height > 0,
    ensures
        image.row_start(image.height - 1) == image.data_start,
        image.row_start(0) == image.data_start + bytes_per_row(image.width as int, image.bpp as int)
            * (image.height - 1),
        image.pixels_spec()[(image.height - 1) * image.width] == Pixel(
            Point {
                x: image.offset.x,
                y: (image.offset.y + image.height - 1) as i32,
            },
            C::from_raw_spec(raw_at(image.bytes@, image.data_start as int, 0, image.bpp)),
        ),
{
    let w = image.width as int;
    let h = image.height as int;
    let k = (h - 1) * w;
    assert(0 <= k < w * h) by (nonlinear_arith)
        requires
            k == (h - 1) * w,
            w > 0,
            h > 0,
    ;
    lemma_fundamental_div_mod_converse(k, w, h - 1, 0);
}

/// A producer of an image's pixels, row by row from the top.
#[derive(Debug)]
pub struct ImageBmpIterator<'a, C> {
    image: &'a ImageBmp<'a, C>,
    x: u32,
    y: u32,
}

impl<'a, C: PixelColor> ImageBmpIterator<'a, C> {
    /// How many pixels have been emitted so far.
    pub closed spec fn index(&self) -> int {
        self.y * self.image.width + self.x
    }
}

impl<'a, C: PixelColor> PixelIterator<C> for ImageBmpIterator<'a, C> {
    closed spec fn wf(&self) -> bool {
        &&& self.image.wf()
        &&& self.image.fits()
        &&& C::bits_spec() == self.image.bpp
        &&& self.y <= self.image.height
        &&& self.x < self.image.width || self.x == 0
        &&& self.y == self.image.height ==> self.x == 0
        &&& self.image.width == 0 ==> self.y == self.image.height
    }

    closed spec fn remaining(&self) -> Seq<Pixel<C>> {
        let start = self.index();
        Seq::new(
            (self.image.width * self.image.height - start) as nat,
            |i: int| self.image.pixel_at(start + i),
        )
    }

    fn next(&mut self) -> (r: Option<Pixel<C>>) {
        let image = self.image;
        let ghost w = image.width as int;
        let ghost h = image.height as int;
        if self.y >= image.height {
            assert(self.index() == w * h) by (nonlinear_arith)
                requires
                    self.index() == self.y * w + self.x,
                    self.y == h,
                    self.x == 0,
            ;
            return None;
        }
        let ghost x = self.x as int;
        let ghost y = self.y as int;
        let ghost start = self.index();
        let ghost old_rest = self.remaining();
        proof {
            assert(w * h - start >= 1) by (nonlinear_arith)
                requires
                    start == y * w + x,
                    0 <= x < w,
                    0 <= y < h,
            ;
            lemma_fundamental_div_mod_converse(start, w, y, x);
            lemma_pixel_in_row(w, image.bpp as int, x);
        }
        let row_len: u64 = (image.width as u64 * image.bpp as u64 + 31) / 32 * 4;
        let rows_below: u64 = (image.height - 1 - self.y) as u64;
        proof {
            let bpr = bytes_per_row(w, image.bpp as int);
            assert(row_len == bpr);
            assert(image.data_start + row_len * h <= image.bytes@.len());
            assert(row_len * rows_below + row_len <= row_len * h) by (nonlinear_arith)
                requires
                    rows_below + 1 <= h,
                    row_len >= 0,
            ;
            assert(image.row_start(y) == image.data_start + row_len * rows_below);
            assert(x + image.offset.x <= i32::MAX);
            assert(y + image.offset.y <= i32::MAX);
        }
        let len = image.bytes.len();
        assert(image.data_start + row_len * rows_below + row_len <= len);
        let row: usize = (image.data_start as u64 + row_len * rows_below) as usize;
        let raw = read_raw(image.bytes, row, self.x, image.bpp);
        let color = C::from_raw(raw);
        let point = Point {
            x: (self.x as i64 + image.offset.x as i64) as i32,
            y: (self.y as i64 + image.offset.y as i64) as i32,
        };
        self.x = self.x + 1;
        if self.x >= image.width {
            self.y = self.y + 1;
            self.x = 0;
        }
        proof {
            assert(self.index() == start + 1) by (nonlinear_arith)
                requires
                    self.index() == self.y * w + self.x,
                    start == y * w + x,
                    (self.y == y && self.x == x + 1) || (self.y == y + 1 && self.x == 0 && x + 1
                        == w),
            ;
            assert(self.remaining() =~= old_rest.drop_first());
        }
        Some(Pixel(point, color))
    }
}

} // verus!
