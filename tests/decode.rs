use seized::bmp::{parse_bmp, HeaderData};
use seized::image::Rotation;
use seized::parsers::{load_from_path, ImageError};
use seized::pixel::Pixel;
use seized::ppm::{parse_ppm, read_token};

fn ppm_file(header: &str, payload: &[u8]) -> Vec<u8> {
    let mut v = header.as_bytes().to_vec();
    v.extend_from_slice(payload);
    v
}

fn put32(v: &mut Vec<u8>, at: usize, x: u32) {
    v[at..at + 4].copy_from_slice(&x.to_le_bytes());
}

fn put16(v: &mut Vec<u8>, at: usize, x: u16) {
    v[at..at + 2].copy_from_slice(&x.to_le_bytes());
}

/// A 24-bit file of `w` by `h` whose rows (bottom-up, B G R) come from `rows_bottom_up`.
fn bmp_file(w: u32, h: u32, bpp: u16, compression: u32, rows_bottom_up: &[Vec<u8>]) -> Vec<u8> {
    let mut v = vec![0u8; 54];
    v[0] = b'B';
    v[1] = b'M';
    put32(&mut v, 10, 54);
    put32(&mut v, 0x12, w);
    put32(&mut v, 0x16, h);
    put16(&mut v, 0x1A, 1);
    put16(&mut v, 0x1C, bpp);
    put32(&mut v, 0x1E, compression);
    for row in rows_bottom_up {
        v.extend_from_slice(row);
    }
    let n = v.len() as u32;
    put32(&mut v, 2, n);
    v
}

#[test]
fn ppm_two_by_two_decodes_exactly() {
    let bytes = ppm_file("P6 2 2 255\n", &[255, 0, 0, 0, 255, 0, 0, 0, 255, 255, 255, 0]);
    let img = parse_ppm(&bytes, false).unwrap();
    assert_eq!((img.width, img.height), (2, 2));
    let want = [(255, 0, 0), (0, 255, 0), (0, 0, 255), (255, 255, 0)];
    assert_eq!(img.image_data.len(), 4);
    for (p, (r, g, b)) in img.image_data.iter().zip(want.iter()) {
        assert_eq!((p.a, p.r, p.g, p.b), (255, *r, *g, *b));
        assert_eq!(p.argb, 0xFF00_0000 | (*r as u32) << 16 | (*g as u32) << 8 | *b as u32);
    }
    assert!(img.locked_aspect_ratio);
    assert_eq!(img.rotation, Rotation::Deg0);
}

#[test]
fn ppm_round_trip_keeps_every_channel() {
    let (w, h) = (3usize, 2usize);
    let payload: Vec<u8> = (0..(3 * w * h) as u32).map(|i| (i * 37 % 256) as u8).collect();
    let bytes = ppm_file("P6\n# a comment line\n3 2\n255\n", &payload);
    let img = parse_ppm(&bytes, true).unwrap();
    assert!(!img.locked_aspect_ratio);
    let mut back = Vec::new();
    for p in &img.image_data {
        back.extend_from_slice(&[p.r, p.g, p.b]);
    }
    assert_eq!(back, payload);
}

#[test]
fn ppm_skips_comments_between_tokens_and_refuses_ascii_tag() {
    let bytes = ppm_file("P6 1 #width\n1 255 ", &[1, 2, 3]);
    let img = parse_ppm(&bytes, false).unwrap();
    assert_eq!((img.image_data[0].r, img.image_data[0].g, img.image_data[0].b), (1, 2, 3));
    let ascii = ppm_file("P3 1 1 255 ", &[1, 2, 3]);
    assert_eq!(parse_ppm(&ascii, false).err(), Some(ImageError::MagicMismatch));
}

#[test]
fn ppm_errors() {
    assert_eq!(parse_ppm(&ppm_file("P5 1 1 255\n", &[0, 0, 0]), false).err(), Some(ImageError::MagicMismatch));
    assert_eq!(parse_ppm(&ppm_file("P6 1 1 15\n", &[0, 0, 0]), false).err(), Some(ImageError::UnsupportedDepth));
    assert_eq!(parse_ppm(&ppm_file("P6 1 1 256\n", &[0, 0, 0]), false).err(), Some(ImageError::UnsupportedDepth));
    assert_eq!(parse_ppm(&ppm_file("P6 0 1 255\n", &[]), false).err(), Some(ImageError::InvalidDimensions));
    assert_eq!(parse_ppm(&ppm_file("P6 2 1 255\n", &[0, 0, 0]), false).err(), Some(ImageError::SizeMismatch));
    assert_eq!(parse_ppm(&ppm_file("P6 1 1 255\n", &[0, 0, 0, 0]), false).err(), Some(ImageError::SizeMismatch));
    assert_eq!(parse_ppm(&ppm_file("P6 1 1", &[]), false).err(), Some(ImageError::TruncatedHeader));
    assert_eq!(parse_ppm(&ppm_file("P6 x 1 255\n", &[0, 0, 0]), false).err(), Some(ImageError::MalformedHeader));
    assert_eq!(parse_ppm(&ppm_file("P6 99999999999 1 255\n", &[]), false).err(), Some(ImageError::MalformedHeader));
    assert_eq!(parse_ppm(&Vec::new(), false).err(), Some(ImageError::MagicMismatch));
}

#[test]
fn token_reader_consumes_one_trailing_whitespace() {
    let bytes = b"  # c\n ab\tcd".to_vec();
    let (tok, next) = read_token(&bytes, 0);
    assert_eq!(tok, b"ab".to_vec());
    assert_eq!(next, 10);
    let (tok, next) = read_token(&bytes, next);
    assert_eq!(tok, b"cd".to_vec());
    assert_eq!(next, bytes.len());
}

#[test]
fn bmp_rows_are_flipped_padded_and_bgr() {
    // 1 by 2 raster: each stored row is 3 bytes plus 1 byte of padding.
    let bottom = vec![1, 2, 3, 0];
    let top = vec![4, 5, 6, 0];
    let bytes = bmp_file(1, 2, 24, 0, &[bottom, top]);
    let img = parse_bmp(&bytes, false).unwrap();
    assert_eq!((img.width, img.height), (1, 2));
    let p0 = img.image_data[0];
    let p1 = img.image_data[1];
    assert_eq!((p0.a, p0.r, p0.g, p0.b), (255, 6, 5, 4));
    assert_eq!((p1.a, p1.r, p1.g, p1.b), (255, 3, 2, 1));
    assert_eq!(p1.argb, 0xFF03_0201);
}

#[test]
fn bmp_last_row_padding_may_be_missing() {
    let bytes = bmp_file(1, 1, 24, 0, &[vec![10, 20, 30]]);
    let img = parse_bmp(&bytes, false).unwrap();
    assert_eq!((img.image_data[0].r, img.image_data[0].g, img.image_data[0].b), (30, 20, 10));
}

#[test]
fn bmp_compressed_is_unsupported() {
    let bytes = bmp_file(1, 1, 24, 1, &[vec![10, 20, 30, 0]]);
    assert_eq!(parse_bmp(&bytes, false).err(), Some(ImageError::UnsupportedCompression));
}

#[test]
fn bmp_errors() {
    assert_eq!(parse_bmp(&bmp_file(1, 1, 8, 0, &[vec![0; 4]]), false).err(), Some(ImageError::UnsupportedDepth));
    assert_eq!(parse_bmp(&bmp_file(1, 1, 32, 0, &[vec![0; 4]]), false).err(), Some(ImageError::UnsupportedDepth));
    assert_eq!(parse_bmp(&bmp_file(0, 1, 24, 0, &[]), false).err(), Some(ImageError::InvalidDimensions));
    assert_eq!(parse_bmp(&bmp_file(2, 2, 24, 0, &[vec![0; 8]]), false).err(), Some(ImageError::TruncatedData));
    assert_eq!(parse_bmp(&vec![b'B', b'M', 0, 0], false).err(), Some(ImageError::TruncatedHeader));
    let mut bad = bmp_file(1, 1, 24, 0, &[vec![0; 4]]);
    bad[0] = b'X';
    assert_eq!(parse_bmp(&bad, false).err(), Some(ImageError::MagicMismatch));
    let mut short_table = bmp_file(1, 1, 24, 3, &[]);
    put32(&mut short_table, 0x2E, 5);
    assert_eq!(parse_bmp(&short_table, false).err(), Some(ImageError::UnsupportedCompression));
    let mut table = bmp_file(1, 1, 24, 0, &[]);
    put32(&mut table, 0x2E, 5);
    assert_eq!(parse_bmp(&table, false).err(), Some(ImageError::TruncatedHeader));
}

#[test]
fn bmp_header_fields_are_little_endian() {
    let bytes = bmp_file(0x0102_0304, 7, 24, 0, &[]);
    let h = HeaderData::new(&bytes).unwrap();
    assert_eq!(h.width, 0x0102_0304);
    assert_eq!(h.height, 7);
    assert_eq!(h.bits_per_pixel, 24);
    assert_eq!(h.num_planes, 1);
    assert_eq!(h.data_start, 54);
    assert_eq!(h.file_size, 54);
    assert!(h.all_colors.is_empty());
}

#[test]
fn bmp_colour_table_is_read_after_header() {
    let mut bytes = bmp_file(1, 1, 24, 0, &[]);
    put32(&mut bytes, 0x2E, 1);
    bytes.extend_from_slice(&[9, 8, 7]);
    let h = HeaderData::new(&bytes).unwrap();
    assert_eq!(h.all_colors.len(), 1);
    assert_eq!((h.all_colors[0].r, h.all_colors[0].g, h.all_colors[0].b), (9, 8, 7));
}

#[test]
fn dispatch_by_extension_ignores_case() {
    let ppm = ppm_file("P6 1 1 255\n", &[1, 2, 3]);
    assert!(load_from_path("dir.v2/picture.PpM", &ppm, false).is_ok());
    let bmp = bmp_file(1, 1, 24, 0, &[vec![1, 2, 3, 0]]);
    assert!(load_from_path("a.BMP", &bmp, false).is_ok());
    assert_eq!(load_from_path("a.bmp", &ppm, false).err(), Some(ImageError::TruncatedHeader));
    assert_eq!(load_from_path("a.gif", &ppm, false).err(), Some(ImageError::UnsupportedExtension));
    assert_eq!(load_from_path("ppm", &ppm, false).err(), Some(ImageError::UnsupportedExtension));
    assert_eq!(load_from_path(".ppm", &ppm, false).err(), Some(ImageError::UnsupportedExtension));
    assert_eq!(load_from_path("x.ppm/y", &ppm, false).err(), Some(ImageError::UnsupportedExtension));
}

#[test]
fn pixel_from_argb_splits_channels() {
    let p = Pixel::from_argb(0x8012_3456);
    assert_eq!((p.a, p.r, p.g, p.b, p.argb), (0x80, 0x12, 0x34, 0x56, 0x8012_3456));
    assert_eq!(p.to_argb(), 0x8012_3456);
}
