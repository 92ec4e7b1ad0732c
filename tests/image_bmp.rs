use embedded_graphics::{
    collect_pixels, BinaryColor, Gray8, ImageBmp, Pixel, PixelIterator, Point, Rgb555, Rgb565, Rgb888, Size,
};

/// Encodes a BMP file: `rows` are given top row first, each unpadded.
fn encode_bmp(width: u32, height: u32, bpp: u16, rows: &[Vec<u8>]) -> Vec<u8> {
    let row_len = ((width as usize * bpp as usize + 31) / 32) * 4;
    let mut data = Vec::new();
    for row in rows.iter().rev() {
        let mut padded = row.clone();
        assert!(padded.len() <= row_len);
        padded.resize(row_len, 0);
        data.extend_from_slice(&padded);
    }
    let mut out = Vec::new();
    out.extend_from_slice(b"BM");
    out.extend_from_slice(&(54 + data.len() as u32).to_le_bytes());
    out.extend_from_slice(&0u16.to_le_bytes());
    out.extend_from_slice(&0u16.to_le_bytes());
    out.extend_from_slice(&54u32.to_le_bytes());
    out.extend_from_slice(&40u32.to_le_bytes());
    out.extend_from_slice(&width.to_le_bytes());
    out.extend_from_slice(&height.to_le_bytes());
    out.extend_from_slice(&1u16.to_le_bytes());
    out.extend_from_slice(&bpp.to_le_bytes());
    out.extend_from_slice(&0u32.to_le_bytes());
    out.extend_from_slice(&(data.len() as u32).to_le_bytes());
    out.extend_from_slice(&[0u8; 16]);
    out.extend_from_slice(&data);
    out
}

fn rgb565_raw(c: Rgb565) -> u16 {
    ((c.r as u16) << 11) | ((c.g as u16) << 5) | c.b as u16
}

fn rgb555_raw(c: Rgb555) -> u16 {
    ((c.r as u16) << 10) | ((c.g as u16) << 5) | c.b as u16
}

fn rgb565_pattern() -> [[Rgb565; 4]; 2] {
    [
        [Rgb565::new(0, 0, 0), Rgb565::new(31, 0, 0), Rgb565::new(0, 63, 0), Rgb565::new(31, 63, 0)],
        [Rgb565::new(0, 0, 31), Rgb565::new(31, 0, 31), Rgb565::new(0, 63, 31), Rgb565::new(31, 63, 31)],
    ]
}

fn rgb555_pattern() -> [[Rgb555; 4]; 2] {
    [
        [Rgb555::new(0, 0, 0), Rgb555::new(31, 0, 0), Rgb555::new(0, 31, 0), Rgb555::new(31, 31, 0)],
        [Rgb555::new(0, 0, 31), Rgb555::new(31, 0, 31), Rgb555::new(0, 31, 31), Rgb555::new(31, 31, 31)],
    ]
}

fn rgb888_pattern() -> [[Rgb888; 4]; 2] {
    [
        [Rgb888::new(0, 0, 0), Rgb888::new(255, 0, 0), Rgb888::new(0, 255, 0), Rgb888::new(255, 255, 0)],
        [Rgb888::new(0, 0, 255), Rgb888::new(255, 0, 255), Rgb888::new(0, 255, 255), Rgb888::new(255, 255, 255)],
    ]
}

fn chessboard_16bit() -> Vec<u8> {
    let black = Rgb565::new(0, 0, 0);
    let white = Rgb565::new(31, 63, 31);
    let rows: Vec<Vec<u8>> = (0..4)
        .map(|y| {
            (0..4)
                .flat_map(|x| rgb565_raw(if (x + y) % 2 == 0 { black } else { white }).to_le_bytes())
                .collect()
        })
        .collect();
    encode_bmp(4, 4, 16, &rows)
}

fn check_pattern<C: Copy + PartialEq + std::fmt::Debug>(image: &ImageBmp<C>, pattern: &[[C; 4]; 2])
where
    C: embedded_graphics::PixelColor,
{
    assert_eq!(image.size(), Size::new(4, 2));
    let mut iter = image.into_iter();
    for (y, row) in pattern.iter().enumerate() {
        for (x, &expected_color) in row.iter().enumerate() {
            let pos = Point::new(x as i32, y as i32);
            let pixel = iter.next().unwrap();
            assert_eq!(pixel, Pixel(pos, expected_color));
        }
    }
    assert!(iter.next().is_none());
}

#[test]
fn negative_top_left() {
    let bytes = chessboard_16bit();
    let image: ImageBmp<Rgb565> = ImageBmp::new(&bytes).unwrap().translate(Point::new(-1, -1));

    assert_eq!(image.top_left(), Point::new(-1, -1));
    assert_eq!(image.bottom_right(), Point::new(3, 3));
    assert_eq!(image.size(), Size::new(4, 4));
}

#[test]
fn dimensions() {
    let bytes = chessboard_16bit();
    let image: ImageBmp<Rgb565> = ImageBmp::new(&bytes).unwrap().translate(Point::new(100, 200));

    assert_eq!(image.top_left(), Point::new(100, 200));
    assert_eq!(image.bottom_right(), Point::new(104, 204));
    assert_eq!(image.size(), Size::new(4, 4));
}

#[test]
fn colors_rgb555() {
    let pattern = rgb555_pattern();
    let rows: Vec<Vec<u8>> =
        pattern.iter().map(|row| row.iter().flat_map(|&c| rgb555_raw(c).to_le_bytes()).collect()).collect();
    let bytes = encode_bmp(4, 2, 16, &rows);
    let image: ImageBmp<Rgb555> = ImageBmp::new(&bytes).unwrap();
    check_pattern(&image, &pattern);
}

#[test]
fn colors_rgb565() {
    let pattern = rgb565_pattern();
    let rows: Vec<Vec<u8>> =
        pattern.iter().map(|row| row.iter().flat_map(|&c| rgb565_raw(c).to_le_bytes()).collect()).collect();
    let bytes = encode_bmp(4, 2, 16, &rows);
    let image: ImageBmp<Rgb565> = ImageBmp::new(&bytes).unwrap();
    check_pattern(&image, &pattern);
}

#[test]
fn colors_rgb888_24bit() {
    let pattern = rgb888_pattern();
    let rows: Vec<Vec<u8>> = pattern.iter().map(|row| row.iter().flat_map(|c| [c.b, c.g, c.r]).collect()).collect();
    let bytes = encode_bmp(4, 2, 24, &rows);
    let image: ImageBmp<Rgb888> = ImageBmp::new(&bytes).unwrap();
    check_pattern(&image, &pattern);
}

#[test]
fn colors_grey8() {
    let bytes = encode_bmp(3, 1, 8, &[vec![0, 128, 255]]);
    let image: ImageBmp<Gray8> = ImageBmp::new(&bytes).unwrap();

    assert_eq!(image.size(), Size::new(3, 1));

    let mut iter = image.into_iter();

    let p = iter.next().unwrap();
    assert_eq!(p.0, Point::new(0, 0));
    assert_eq!(p.1, Gray8::new(0));

    let p = iter.next().unwrap();
    assert_eq!(p.0, Point::new(1, 0));
    assert_eq!(p.1, Gray8::new(128));

    let p = iter.next().unwrap();
    assert_eq!(p.0, Point::new(2, 0));
    assert_eq!(p.1, Gray8::new(255));

    assert!(iter.next().is_none());
}

#[test]
fn issue_136_row_size_is_multiple_of_4_bytes() {
    let pattern = ["####.####", "#....#...", "####.#.##", "#....#..#", "####.####"];
    let white = Rgb565::new(31, 63, 31);
    let black = Rgb565::new(0, 0, 0);
    let rows: Vec<Vec<u8>> = pattern
        .iter()
        .map(|row| row.chars().flat_map(|ch| rgb565_raw(if ch == '#' { white } else { black }).to_le_bytes()).collect())
        .collect();
    let bytes = encode_bmp(9, 5, 16, &rows);
    let image: ImageBmp<Rgb565> = ImageBmp::new(&bytes).unwrap();

    let decoded: Vec<String> = {
        let pixels = collect_pixels(&mut image.into_iter());
        assert_eq!(pixels.len(), 45);
        pixels
            .chunks(9)
            .enumerate()
            .map(|(y, row)| {
                row.iter()
                    .enumerate()
                    .map(|(x, Pixel(p, c))| {
                        assert_eq!(*p, Point::new(x as i32, y as i32));
                        if *c == white {
                            '#'
                        } else if *c == black {
                            '.'
                        } else {
                            panic!("Unexpected color in image")
                        }
                    })
                    .collect()
            })
            .collect()
    };
    assert_eq!(decoded, pattern.to_vec());
}

#[test]
fn one_bit_rows_are_padded_to_four_bytes() {
    // Three and four pixels wide: each row still takes four bytes.
    for width in [3u32, 4u32] {
        let top: u8 = 0b1010_0000;
        let bottom: u8 = 0b0101_0000;
        let bytes = encode_bmp(width, 2, 1, &[vec![top], vec![bottom]]);
        assert_eq!(bytes.len(), 54 + 8);
        let image: ImageBmp<BinaryColor> = ImageBmp::new(&bytes).unwrap();
        let colors: Vec<BinaryColor> = collect_pixels(&mut image.into_iter()).iter().map(|p| p.1).collect();
        let on = BinaryColor::On;
        let off = BinaryColor::Off;
        let mut expected = vec![on, off, on, off][..width as usize].to_vec();
        expected.extend_from_slice(&[off, on, off, on][..width as usize]);
        assert_eq!(colors, expected);
    }
}

#[test]
fn bottom_row_of_file_is_drawn_last() {
    let marker = Gray8::new(77);
    // Bytes of the first stored row (the bottom of the picture) hold the marker at the left.
    let bytes = encode_bmp(2, 3, 8, &[vec![1, 2], vec![3, 4], vec![77, 5]]);
    assert_eq!(bytes[54], 77);
    let image: ImageBmp<Gray8> = ImageBmp::new(&bytes).unwrap();
    let pixels = collect_pixels(&mut image.into_iter());
    assert_eq!(pixels[0], Pixel(Point::new(0, 0), Gray8::new(1)));
    assert_eq!(pixels[4], Pixel(Point::new(0, 2), marker));
    assert!(pixels[..4].iter().all(|p| p.1 != marker));
}

#[test]
fn bit_depth_mismatch_is_refused_every_time() {
    let bytes = encode_bmp(3, 1, 8, &[vec![0, 128, 255]]);
    let image: ImageBmp<Rgb565> = ImageBmp::new(&bytes).unwrap();
    for _ in 0..3 {
        assert!(image.checked_into_iter().is_none());
    }
    let grey: ImageBmp<Gray8> = ImageBmp::new(&bytes).unwrap();
    assert!(grey.checked_into_iter().is_some());
}

#[test]
fn malformed_images_are_refused() {
    let good = encode_bmp(3, 1, 8, &[vec![0, 128, 255]]);
    assert!(ImageBmp::<Gray8>::new(&good[..37]).is_err());
    let mut bad_magic = good.clone();
    bad_magic[0] = b'X';
    assert!(ImageBmp::<Gray8>::new(&bad_magic).is_err());
    assert!(ImageBmp::<Gray8>::new(&good[..good.len() - 1]).is_err());
    let mut far_offset = good.clone();
    far_offset[10] = 0xff;
    assert!(ImageBmp::<Gray8>::new(&far_offset).is_err());
    let mut run_length = good.clone();
    run_length[30] = 1;
    assert!(ImageBmp::<Gray8>::new(&run_length).is_err());
    let mut masked = good.clone();
    masked[30] = 3;
    assert!(ImageBmp::<Gray8>::new(&masked).is_ok());
    let mut odd_depth = good.clone();
    odd_depth[28] = 7;
    assert!(ImageBmp::<Gray8>::new(&odd_depth).is_err());
}

#[test]
fn translated_image_shifts_pixels() {
    let bytes = encode_bmp(2, 1, 8, &[vec![9, 8]]);
    let mut image: ImageBmp<Gray8> = ImageBmp::new(&bytes).unwrap();
    image.translate_mut(Point::new(-5, 6));
    let pixels = collect_pixels(&mut image.into_iter());
    assert_eq!(pixels, vec![Pixel(Point::new(-5, 6), Gray8::new(9)), Pixel(Point::new(-4, 6), Gray8::new(8))]);
    assert_eq!(image.width(), 2);
    assert_eq!(image.height(), 1);
}
