use vstd::prelude::*;

use vstd::arithmetic::div_mod::lemma_fundamental_div_mod_converse;

use crate::image::{Image, Rotation};
use crate::parsers::ImageError;
use crate::pixel::{mk_pixel, Pixel};

verus! {

/// The raster encodings that the container's compression field names.
#[allow(non_camel_case_types)]
#[derive(Clone, Copy, Debug, PartialEq, Eq, Structural)]
pub enum CompressionType {
    BI_RGB,
    BI_RLE8,
    BI_RLE4,
}

/// Length of the fixed header.
pub const HEADER_LEN: usize = 54;

/// The little-endian 16-bit value at `i`.
pub open spec fn le16(b: Seq<u8>, i: int) -> u32 {
    (b[i] + 0x100 * b[i + 1]) as u32
}

/// The little-endian 32-bit value at `i`.
pub open spec fn le32(b: Seq<u8>, i: int) -> u32 {
    (b[i] + 0x100 * b[i + 1] + 0x10000 * b[i + 2] + 0x1000000 * b[i + 3]) as u32
}

/// Whether the bytes start with the tag `BM`.
pub open spec fn has_bmp_magic(b: Seq<u8>) -> bool {
    b.len() >= 2 && b[0] == 0x42 && b[1] == 0x4D
}

/// The fields of the fixed header and the colour table that follows it.
#[derive(Debug)]
pub struct HeaderData {
    pub file_size: u32,
    pub data_start: u32,
    pub width: u32,
    pub height: u32,
    pub num_planes: u32,
    pub bits_per_pixel: u32,
    pub compression: u32,
    pub compressed_image_size: u32,
    pub colors_used: u32,
    pub number_important_colors: u32,
    pub all_colors: Vec<Pixel>,
}

/// Colour-table entry `k`: three bytes after the header, red first, alpha zero.
pub open spec fn table_color(b: Seq<u8>, k: int) -> Pixel {
    let i = HEADER_LEN + 3 * k;
    mk_pixel(0, b[i], b[i + 1], b[i + 2])
}

fn read_le16(bytes: &Vec<u8>, i: usize) -> (v: u32)
    requires
        i + 2 <= bytes@.len() <= usize::MAX,
    ensures
        v == le16(bytes@, i as int),
{
    bytes[i] as u32 + 0x100 * bytes[i + 1] as u32
}

fn read_le32(bytes: &Vec<u8>, i: usize) -> (v: u32)
    requires
        i + 4 <= bytes@.len() <= usize::MAX,
    ensures
        v == le32(bytes@, i as int),
{
    bytes[i] as u32 + 0x100 * bytes[i + 1] as u32 + 0x10000 * bytes[i + 2] as u32 + 0x1000000
        * bytes[i + 3] as u32
}

impl HeaderData {
    /// Reads the fixed header: the tag `BM`, then little-endian fields at fixed
    /// offsets, then a colour table of `colors_used` three-byte entries.
    pub fn new(bytes: &Vec<u8>) -> (r: Result<HeaderData, ImageError>)
        ensures
            bytes@.len() < HEADER_LEN ==> r == Err::<HeaderData, ImageError>(
                ImageError::TruncatedHeader,
            ),
            bytes@.len() >= HEADER_LEN && !has_bmp_magic(bytes@) ==> r == Err::<
                HeaderData,
                ImageError,
            >(ImageError::MagicMismatch),
            bytes@.len() >= HEADER_LEN && has_bmp_magic(bytes@) && HEADER_LEN + 3 * le32(
                bytes@,
                0x2E,
            ) > bytes@.len() ==> r == Err::<HeaderData, ImageError>(ImageError::TruncatedHeader),
            r is Ok <==> (bytes@.len() >= HEADER_LEN && has_bmp_magic(bytes@) && HEADER_LEN + 3
                * le32(bytes@, 0x2E) <= bytes@.len()),
            r is Ok ==> {
                let h = r->Ok_0;
                let b = bytes@;
                &&& h.file_size == le32(b, 2)
                &&& h.data_start == le32(b, 10)
                &&& h.width == le32(b, 0x12)
                &&& h.height == le32(b, 0x16)
                &&& h.num_planes == le16(b, 0x1A)
                &&& h.bits_per_pixel == le16(b, 0x1C)
                &&& h.compression == le32(b, 0x1E)
                &&& h.compressed_image_size == le32(b, 0x22)
                &&& h.colors_used == le32(b, 0x2E)
                &&& h.number_important_colors == le32(b, 0x32)
                &&& h.all_colors@.len() == h.colors_used
                &&& forall|k: int|
                    0 <= k < h.colors_used ==> #[trigger] h.all_colors@[k] == table_color(b, k)
            },
    {
        let len = bytes.len();
        if len < HEADER_LEN {
            return Err(ImageError::TruncatedHeader);
        }
        if bytes[0] != 0x42 || bytes[1] != 0x4D {
            return Err(ImageError::MagicMismatch);
        }
        let colors_used = read_le32(bytes, 0x2E);
        if HEADER_LEN as u64 + 3 * colors_used as u64 > len as u64 {
            return Err(ImageError::TruncatedHeader);
        }
        let mut all_colors: Vec<Pixel> = Vec::new();
        let mut k: usize = 0;
        while k < colors_used as usize
            invariant
                len == bytes@.len(),
                HEADER_LEN + 3 * colors_used <= len,
                k <= colors_used,
                all_colors@.len() == k,
                forall|j: int| 0 <= j < k ==> #[trigger] all_colors@[j] == table_color(bytes@, j),
            decreases colors_used - k,
        {
            let i: usize = HEADER_LEN + 3 * k;
            all_colors.push(Pixel::new(0, bytes[i], bytes[i + 1], bytes[i + 2]));
            k = k + 1;
        }
        Ok(
            HeaderData {
                file_size: read_le32(bytes, 2),
                data_start: read_le32(bytes, 10),
                width: read_le32(bytes, 0x12),
                height: read_le32(bytes, 0x16),
                num_planes: read_le16(bytes, 0x1A),
                bits_per_pixel: read_le16(bytes, 0x1C),
                compression: read_le32(bytes, 0x1E),
                compressed_image_size: read_le32(bytes, 0x22),
                colors_used,
                number_important_colors: read_le32(bytes, 0x32),
                all_colors,
            },
        )
    }
}

/// Bytes per stored row of a 24-bit raster `w` pixels wide: padded to a multiple of four.
pub open spec fn row_stride(w: int) -> int {
    3 * w + (4 - (3 * w) % 4) % 4
}

/// Offset just past the last pixel byte of a 24-bit raster.
pub open spec fn raster_end(data_start: int, w: int, h: int) -> int {
    data_start + (h - 1) * row_stride(w) + 3 * w
}

/// The pixel at column `x` of image row `y` (counted from the top) of a 24-bit
/// raster; rows are stored bottom-up, each pixel as blue, green, red.
pub open spec fn bmp_pixel(b: Seq<u8>, data_start: int, w: int, h: int, x: int, y: int) -> Pixel {
    let i = data_start + (h - 1 - y) * row_stride(w) + 3 * x;
    mk_pixel(255, b[i + 2], b[i + 1], b[i])
}

proof fn lemma_row_offset(ds: int, w: int, h: int, x: int, y: int)
    requires
        0 <= ds,
        0 <= x < w,
        0 <= y < h,
    ensures
        ds <= ds + (h - 1 - y) * row_stride(w) + 3 * x,
        ds + (h - 1 - y) * row_stride(w) + 3 * x + 3 <= raster_end(ds, w, h),
{
    let s = row_stride(w);
    assert(3 * w <= s);
    assert(0 <= (h - 1 - y) * s) by (nonlinear_arith)
        requires 0 <= h - 1 - y, 0 <= s;
    assert((h - 1 - y) * s <= (h - 1) * s) by (nonlinear_arith)
        requires 0 <= y, 0 <= s;
}

/// Decodes an uncompressed 24-bit raster of the container.
#[allow(non_snake_case)]
pub fn bit24_RGB(data: &HeaderData, bytes: &Vec<u8>, no_aspect: bool) -> (r: Result<
    Image,
    ImageError,
>)
    ensures
        data.width == 0 || data.height == 0 ==> r == Err::<Image, ImageError>(
            ImageError::InvalidDimensions,
        ),
        data.width > 0 && data.height > 0 && raster_end(
            data.data_start as int,
            data.width as int,
            data.height as int,
        ) > bytes@.len() ==> r == Err::<Image, ImageError>(ImageError::TruncatedData),
        r is Ok <==> (data.width > 0 && data.height > 0 && raster_end(
            data.data_start as int,
            data.width as int,
            data.height as int,
        ) <= bytes@.len()),
        r is Ok ==> {
            let img = r->Ok_0;
            &&& img.wf()
            &&& img.width == data.width
            &&& img.height == data.height
            &&& forall|x: int, y: int|
                0 <= x < img.width && 0 <= y < img.height ==> #[trigger] img.pixel_at(x, y)
                    == bmp_pixel(
                    bytes@,
                    data.data_start as int,
                    data.width as int,
                    data.height as int,
                    x,
                    y,
                )
            &&& img.locked_aspect_ratio == !no_aspect
            &&& !img.is_grayscale
            &&& !img.inverted
            &&& img.rotation == Rotation::Deg0
        },
{
    let len = bytes.len();
    let w = data.width;
    let h = data.height;
    if w == 0 || h == 0 {
        return Err(ImageError::InvalidDimensions);
    }
    let ds = data.data_start;
    let stride: u128 = 3 * w as u128 + (4 - (3 * w as u128) % 4) % 4;
    proof {
        assert((h - 1) as int * stride <= 0xFFFF_FFFF * 0x4_0000_0000) by (nonlinear_arith)
            requires h <= 0xFFFF_FFFFu32, 0 <= stride <= 0x4_0000_0000, h >= 1;
        assert(0 <= (h - 1) as int * stride) by (nonlinear_arith)
            requires h >= 1, stride >= 0;
    }
    let end: u128 = ds as u128 + (h as u128 - 1) * stride + 3 * w as u128;
    if end > len as u128 {
        return Err(ImageError::TruncatedData);
    }
    proof {
        assert(3 * ((w as int) * (h as int)) <= end) by (nonlinear_arith)
            requires
                end == ds + (h - 1) * stride + 3 * w,
                stride >= 3 * w,
                h >= 1,
                ds >= 0,
        ;
        assert(0 <= (w as int) * (h as int)) by (nonlinear_arith);
    }
    let n: usize = w as usize * h as usize;
    let mut data_px: Vec<Pixel> = Vec::new();
    let mut k: usize = 0;
    let mut x: usize = 0;
    let mut y: usize = 0;
    while k < n
        invariant
            len == bytes@.len(),
            n == (w as int) * (h as int),
            end == raster_end(ds as int, w as int, h as int),
            stride == row_stride(w as int),
            end <= len,
            w > 0,
            h > 0,
            k == y * w + x,
            k <= n,
            x < w,
            k < n ==> y < h,
            data_px@.len() == k,
            forall|j: int|
                0 <= j < k ==> #[trigger] data_px@[j] == bmp_pixel(
                    bytes@,
                    ds as int,
                    w as int,
                    h as int,
                    j % (w as int),
                    j / (w as int),
                ),
        decreases n - k,
    {
        proof {
            lemma_row_offset(ds as int, w as int, h as int, x as int, y as int);
            assert(0 <= (h - 1 - y) * stride) by (nonlinear_arith)
                requires y < h, stride >= 0;
            lemma_fundamental_div_mod_converse(k as int, w as int, y as int, x as int);
        }
        let base: usize = (ds as u128 + (h as u128 - 1 - y as u128) * stride + 3 * x as u128)
            as usize;
        data_px.push(Pixel::new(255, bytes[base + 2], bytes[base + 1], bytes[base]));
        k = k + 1;
        if x + 1 == w as usize {
            proof {
                assert(k == (y + 1) * w) by (nonlinear_arith)
                    requires k == y * w + x + 1, x + 1 == w;
                if k < n {
                    assert(y + 1 < h) by (nonlinear_arith)
                        requires k == (y + 1) * w, k < n, n == w * h, w > 0;
                }
            }
            x = 0;
            y = y + 1;
        } else {
            x = x + 1;
        }
    }
    let img = Image {
        width: w,
        height: h,
        image_data: data_px,
        locked_aspect_ratio: !no_aspect,
        is_grayscale: false,
        inverted: false,
        rotation: Rotation::Deg0,
    };
    assert forall|xx: int, yy: int| 0 <= xx < img.width && 0 <= yy < img.height implies
        #[trigger] img.pixel_at(xx, yy) == bmp_pixel(bytes@, ds as int, w as int, h as int, xx, yy) by {
        crate::image::lemma_index_in_grid(xx, yy, w as int, h as int);
        lemma_fundamental_div_mod_converse(yy * w + xx, w as int, yy, xx);
        assert(data_px@[yy * w + xx] == bmp_pixel(bytes@, ds as int, w as int, h as int, xx, yy));
    }
    Ok(img)
}

/// Whether the fixed header and its colour table are all present and tagged.
pub open spec fn bmp_header_ok(b: Seq<u8>) -> bool {
    b.len() >= HEADER_LEN && has_bmp_magic(b) && HEADER_LEN + 3 * le32(b, 0x2E) <= b.len()
}

/// `r` is what decoding the binary container `b` gives.
pub open spec fn bmp_decoded(b: Seq<u8>, no_aspect: bool, r: Result<Image, ImageError>) -> bool {
    let ds = le32(b, 10) as int;
    let w = le32(b, 0x12);
    let h = le32(b, 0x16);
    if b.len() < HEADER_LEN {
        r == Err::<Image, ImageError>(ImageError::TruncatedHeader)
    } else if !has_bmp_magic(b) {
        r == Err::<Image, ImageError>(ImageError::MagicMismatch)
    } else if le32(b, 0x1E) != 0 {
        r == Err::<Image, ImageError>(ImageError::UnsupportedCompression)
    } else if !bmp_header_ok(b) {
        r == Err::<Image, ImageError>(ImageError::TruncatedHeader)
    } else if le16(b, 0x1C) != 24 {
        r == Err::<Image, ImageError>(ImageError::UnsupportedDepth)
    } else if w == 0 || h == 0 {
        r == Err::<Image, ImageError>(ImageError::InvalidDimensions)
    } else if raster_end(ds, w as int, h as int) > b.len() {
        r == Err::<Image, ImageError>(ImageError::TruncatedData)
    } else {
        r is Ok && {
            let img = r->Ok_0;
            &&& img.wf()
            &&& img.width == w
            &&& img.height == h
            &&& forall|x: int, y: int|
                0 <= x < w && 0 <= y < h ==> #[trigger] img.pixel_at(x, y) == bmp_pixel(
                    b,
                    ds,
                    w as int,
                    h as int,
                    x,
                    y,
                )
            &&& img.locked_aspect_ratio == !no_aspect
            &&& !img.is_grayscale
            &&& !img.inverted
            &&& img.rotation == Rotation::Deg0
        }
    }
}

/// Decodes the binary container: only uncompressed 24-bit rasters are supported.
/// A compressed raster is refused as soon as the tag and the compression field
/// are there, before the colour table is looked at.
pub fn parse_bmp(bytes: &Vec<u8>, no_aspect: bool) -> (r: Result<Image, ImageError>)
    ensures
        bmp_decoded(bytes@, no_aspect, r),
{
    let len = bytes.len();
    if len >= HEADER_LEN && bytes[0] == 0x42 && bytes[1] == 0x4D && read_le32(bytes, 0x1E) != 0 {
        return Err(ImageError::UnsupportedCompression);
    }
    let header = match HeaderData::new(bytes) {
        Ok(hd) => hd,
        Err(e) => return Err(e),
    };
    match header.bits_per_pixel {
        1 => monochrome_bmp(&header),
        4 => bit4_palletized_bmp(&header),
        8 => bit8_palletized_bmp(&header),
        16 => bit16_RGB(&header),
        24 => bit24_RGB(&header, bytes, no_aspect),
        _ => Err(ImageError::UnsupportedDepth),
    }
}

/// A file with the tag and a nonzero compression field is refused as
/// unsupported, whatever follows.
pub proof fn lemma_compressed_unsupported(b: Seq<u8>, no_aspect: bool, r: Result<Image, ImageError>)
    requires
        b.len() >= HEADER_LEN,
        has_bmp_magic(b),
        le32(b, 0x1E) != 0,
        bmp_decoded(b, no_aspect, r),
    ensures
        r == Err::<Image, ImageError>(ImageError::UnsupportedCompression),
{
}

/// Monochrome rasters are not supported.
pub fn monochrome_bmp(_data: &HeaderData) -> (r: Result<Image, ImageError>)
    ensures
        r == Err::<Image, ImageError>(ImageError::UnsupportedDepth),
{
    Err(ImageError::UnsupportedDepth)
}

/// Palette-indexed 4-bit rasters are not supported.
pub fn bit4_palletized_bmp(_data: &HeaderData) -> (r: Result<Image, ImageError>)
    ensures
        r == Err::<Image, ImageError>(ImageError::UnsupportedDepth),
{
    Err(ImageError::UnsupportedDepth)
}

/// Palette-indexed 8-bit rasters are not supported.
pub fn bit8_palletized_bmp(_data: &HeaderData) -> (r: Result<Image, ImageError>)
    ensures
        r == Err::<Image, ImageError>(ImageError::UnsupportedDepth),
{
    Err(ImageError::UnsupportedDepth)
}

/// 16-bit rasters are not supported.
#[allow(non_snake_case)]
pub fn bit16_RGB(_data: &HeaderData) -> (r: Result<Image, ImageError>)
    ensures
        r == Err::<Image, ImageError>(ImageError::UnsupportedDepth),
{
    Err(ImageError::UnsupportedDepth)
}

/// Byte `k` (0 for the lowest) of the little-endian form of `v`.
pub open spec fn byte_of(v: int, k: int) -> u8 {
    let p = if k == 0 {
        1int
    } else if k == 1 {
        0x100int
    } else if k == 2 {
        0x10000int
    } else {
        0x1000000int
    };
    ((v / p) % 256) as u8
}

/// The fixed header of an uncompressed 24-bit `w` by `h` file whose raster
/// follows it directly.
pub open spec fn bmp_header(w: u32, h: u32) -> Seq<u8> {
    Seq::new(
        HEADER_LEN as nat,
        |i: int|
            if i == 0 {
                0x42u8
            } else if i == 1 {
                0x4Du8
            } else if 10 <= i < 14 {
                byte_of(HEADER_LEN as int, i - 10)
            } else if 0x12 <= i < 0x16 {
                byte_of(w as int, i - 0x12)
            } else if 0x16 <= i < 0x1A {
                byte_of(h as int, i - 0x16)
            } else if 0x1C <= i < 0x1E {
                byte_of(24, i - 0x1C)
            } else {
                0u8
            },
    )
}

/// The stored raster for top-down R, G, B `payload`: rows bottom-up, each
/// pixel as B, G, R, each row padded with zeros to a multiple of four bytes.
pub open spec fn bmp_raster(w: u32, h: u32, payload: Seq<u8>) -> Seq<u8> {
    let s = row_stride(w as int);
    Seq::new(
        (h * s) as nat,
        |i: int|
            {
                let row = i / s;
                let col = i % s;
                if col < 3 * w {
                    payload[3 * ((h - 1 - row) * w + col / 3) + (2 - col % 3)]
                } else {
                    0u8
                }
            },
    )
}

proof fn lemma_le32_bytes(v: u32, b: Seq<u8>, at: int)
    requires
        0 <= at,
        at + 4 <= b.len(),
        forall|k: int| 0 <= k < 4 ==> b[at + k] == byte_of(v as int, k),
    ensures
        le32(b, at) == v,
{
    assert(b[at] == byte_of(v as int, 0));
    assert(b[at + 1] == byte_of(v as int, 1));
    assert(b[at + 2] == byte_of(v as int, 2));
    assert(b[at + 3] == byte_of(v as int, 3));
    let x = v as int;
    assert(x == x % 256 + 0x100 * ((x / 0x100) % 256) + 0x10000 * ((x / 0x10000) % 256)
        + 0x1000000 * ((x / 0x1000000) % 256)) by (nonlinear_arith)
        requires 0 <= x < 0x1_0000_0000;
}

proof fn lemma_raster_byte(w: u32, h: u32, payload: Seq<u8>, x: int, y: int, c: int)
    requires
        0 <= x < w,
        0 <= y < h,
        0 <= c < 3,
    ensures
        ({
            let s = row_stride(w as int);
            bmp_raster(w, h, payload)[(h - 1 - y) * s + 3 * x + c] == payload[3 * (y * w + x) + (2
                - c)]
        }),
{
    let s = row_stride(w as int);
    let i = (h - 1 - y) * s + 3 * x + c;
    assert(3 * w <= s);
    assert(0 <= (h - 1 - y) * s) by (nonlinear_arith)
        requires y < h, s >= 0;
    assert(i < h * s) by (nonlinear_arith)
        requires i == (h - 1 - y) * s + 3 * x + c, x < w, c < 3, 3 * w <= s, 0 <= y;
    lemma_fundamental_div_mod_converse(i, s, h - 1 - y, 3 * x + c);
    lemma_fundamental_div_mod_converse(3 * x + c, 3, x, c);
    assert((h - 1 - (h - 1 - y)) * w + x == y * w + x);
}

/// Decoding a binary file built from dimensions and a top-down raster of
/// `3 * w * h` bytes gives back those dimensions and exactly the raster's
/// channel values, each pixel opaque.
pub proof fn lemma_bmp_round_trip(w: u32, h: u32, payload: Seq<u8>, no_aspect: bool, r: Result<
    Image,
    ImageError,
>)
    requires
        w > 0,
        h > 0,
        payload.len() == 3 * (w * h),
        bmp_decoded(bmp_header(w, h) + bmp_raster(w, h, payload), no_aspect, r),
    ensures
        r is Ok,
        r->Ok_0.width == w,
        r->Ok_0.height == h,
        forall|x: int, y: int|
            0 <= x < w && 0 <= y < h ==> {
                let p = #[trigger] r->Ok_0.pixel_at(x, y);
                let k = y * w + x;
                &&& p.r == payload[3 * k]
                &&& p.g == payload[3 * k + 1]
                &&& p.b == payload[3 * k + 2]
                &&& p.a == 255
            },
{
    let hd = bmp_header(w, h);
    let ra = bmp_raster(w, h, payload);
    let b = hd + ra;
    let s = row_stride(w as int);
    assert(3 * w <= s < 3 * w + 4);
    assert(h * s >= 3 * w) by (nonlinear_arith)
        requires h >= 1, s >= 3 * w, w >= 0;
    assert(b.len() == HEADER_LEN + h * s);
    assert(has_bmp_magic(b));
    lemma_le32_bytes(0, b, 0x2E);
    lemma_le32_bytes(0, b, 0x1E);
    lemma_le32_bytes(HEADER_LEN as u32, b, 10);
    lemma_le32_bytes(w, b, 0x12);
    lemma_le32_bytes(h, b, 0x16);
    assert(b[0x1C] == 24 && b[0x1D] == 0);
    assert(le16(b, 0x1C) == 24);
    assert(raster_end(HEADER_LEN as int, w as int, h as int) <= b.len()) by (nonlinear_arith)
        requires
            raster_end(HEADER_LEN as int, w as int, h as int) == HEADER_LEN + (h - 1) * s + 3 * w,
            b.len() == HEADER_LEN + h * s,
            3 * w <= s,
    ;
    assert forall|x: int, y: int| 0 <= x < w && 0 <= y < h implies {
        let p = #[trigger] r->Ok_0.pixel_at(x, y);
        let k = y * w + x;
        &&& p.r == payload[3 * k]
        &&& p.g == payload[3 * k + 1]
        &&& p.b == payload[3 * k + 2]
        &&& p.a == 255
    } by {
        let k = y * w + x;
        let base = (h - 1 - y) * s + 3 * x;
        assert(0 <= (h - 1 - y) * s) by (nonlinear_arith)
            requires y < h, s >= 0;
        assert(base + 3 <= h * s) by (nonlinear_arith)
            requires base == (h - 1 - y) * s + 3 * x, x < w, 3 * w <= s, 0 <= y;
        lemma_raster_byte(w, h, payload, x, y, 0);
        lemma_raster_byte(w, h, payload, x, y, 1);
        lemma_raster_byte(w, h, payload, x, y, 2);
        assert(ra[base] == payload[3 * k + 2]);
        assert(ra[base + 1] == payload[3 * k + 1]);
        assert(ra[base + 2] == payload[3 * k]);
        assert(b[HEADER_LEN + base] == ra[base]);
        assert(b[HEADER_LEN + base + 1] == ra[base + 1]);
        assert(b[HEADER_LEN + base + 2] == ra[base + 2]);
    }
}

} // verus!
