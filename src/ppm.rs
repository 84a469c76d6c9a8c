use vstd::prelude::*;

use crate::image::{Image, Rotation};
use crate::parsers::ImageError;
use crate::pixel::{mk_pixel, Pixel};

verus! {

/// ASCII whitespace: space, tab, line feed, form feed and carriage return.
pub open spec fn is_ws(c: u8) -> bool {
    c == 0x20 || c == 0x09 || c == 0x0A || c == 0x0C || c == 0x0D
}

/// Reads one header token from position `i`: whitespace before it is skipped, a
/// `#` starts a comment that runs through the end of its line, and the single
/// whitespace byte that ends the token is consumed. `acc` holds what was read so
/// far and `comment` tells whether a comment is open. Gives the token and the
/// position after it.
pub open spec fn scan(b: Seq<u8>, i: int, acc: Seq<u8>, comment: bool) -> (Seq<u8>, int)
    decreases b.len() - i,
{
    if i < 0 || i >= b.len() {
        (acc, i)
    } else if comment {
        scan(b, i + 1, acc, b[i] != 0x0A)
    } else if b[i] == 0x23 {
        scan(b, i + 1, acc, true)
    } else if is_ws(b[i]) {
        if acc.len() == 0 {
            scan(b, i + 1, acc, false)
        } else {
            (acc, i + 1)
        }
    } else {
        scan(b, i + 1, acc.push(b[i]), false)
    }
}

pub open spec fn token_at(b: Seq<u8>, i: int) -> (Seq<u8>, int) {
    scan(b, i, seq![], false)
}

pub open spec fn all_digits(s: Seq<u8>) -> bool {
    forall|k: int| 0 <= k < s.len() ==> 0x30 <= #[trigger] s[k] <= 0x39
}

/// The value of a string of decimal digits.
pub open spec fn dec_value(s: Seq<u8>) -> int
    decreases s.len(),
{
    if s.len() == 0 {
        0
    } else {
        10 * dec_value(s.drop_last()) + (s.last() - 0x30)
    }
}

/// A numeric header field: missing, malformed, or its value.
pub open spec fn spec_field(tok: Seq<u8>) -> Result<u32, ImageError> {
    if tok.len() == 0 {
        Err(ImageError::TruncatedHeader)
    } else if !all_digits(tok) || dec_value(tok) > u32::MAX {
        Err(ImageError::MalformedHeader)
    } else {
        Ok(dec_value(tok) as u32)
    }
}

pub open spec fn is_ppm_magic(m: Seq<u8>) -> bool {
    m == seq![0x50u8, 0x36u8]
}

/// Width, height and the start of the raster that a text-header container
/// declares, or the error it gives.
pub open spec fn ppm_layout(b: Seq<u8>) -> Result<(u32, u32, int), ImageError> {
    let (m, i1) = token_at(b, 0);
    if !is_ppm_magic(m) {
        Err(ImageError::MagicMismatch)
    } else {
        let (wt, i2) = token_at(b, i1);
        let (ht, i3) = token_at(b, i2);
        let (mt, i4) = token_at(b, i3);
        if spec_field(wt) is Err {
            Err(spec_field(wt)->Err_0)
        } else if spec_field(ht) is Err {
            Err(spec_field(ht)->Err_0)
        } else if spec_field(mt) is Err {
            Err(spec_field(mt)->Err_0)
        } else {
            let w = spec_field(wt)->Ok_0;
            let h = spec_field(ht)->Ok_0;
            if w == 0 || h == 0 {
                Err(ImageError::InvalidDimensions)
            } else if spec_field(mt)->Ok_0 != 255 {
                Err(ImageError::UnsupportedDepth)
            } else if b.len() - i4 != 3 * ((w as int) * (h as int)) {
                Err(ImageError::SizeMismatch)
            } else {
                Ok((w, h, i4))
            }
        }
    }
}

/// `r` is what decoding the text-header container `b` gives: the error that
/// `ppm_layout` names, or the image of its raster.
pub open spec fn ppm_decoded(b: Seq<u8>, no_aspect: bool, r: Result<Image, ImageError>) -> bool {
    match ppm_layout(b) {
        Err(e) => r == Err::<Image, ImageError>(e),
        Ok((w, h, start)) => r is Ok && {
            let img = r->Ok_0;
            &&& img.wf()
            &&& img.width == w
            &&& img.height == h
            &&& forall|k: int|
                0 <= k < w * h ==> #[trigger] img.image_data@[k] == rgb_pixel_at(b, start + 3 * k)
            &&& img.locked_aspect_ratio == !no_aspect
            &&& !img.is_grayscale
            &&& !img.inverted
            &&& img.rotation == Rotation::Deg0
        },
    }
}

/// The opaque pixel whose R, G, B bytes start at `i`.
pub open spec fn rgb_pixel_at(b: Seq<u8>, i: int) -> Pixel {
    mk_pixel(255, b[i], b[i + 1], b[i + 2])
}

proof fn lemma_scan_bounds(b: Seq<u8>, i: int, acc: Seq<u8>, comment: bool)
    requires
        0 <= i <= b.len(),
    ensures
        i <= scan(b, i, acc, comment).1 <= b.len(),
    decreases b.len() - i,
{
    if i < b.len() {
        if comment {
            lemma_scan_bounds(b, i + 1, acc, b[i] != 0x0A);
        } else if b[i] == 0x23 {
            lemma_scan_bounds(b, i + 1, acc, true);
        } else if is_ws(b[i]) {
            if acc.len() == 0 {
                lemma_scan_bounds(b, i + 1, acc, false);
            }
        } else {
            lemma_scan_bounds(b, i + 1, acc.push(b[i]), false);
        }
    }
}

/// Reads the header token that starts at `pos`; gives it with the position after it.
pub fn read_token(bytes: &Vec<u8>, pos: usize) -> (r: (Vec<u8>, usize))
    requires
        pos <= bytes@.len(),
    ensures
        (r.0@, r.1 as int) == token_at(bytes@, pos as int),
        pos <= r.1 <= bytes@.len(),
{
    proof {
        lemma_scan_bounds(bytes@, pos as int, seq![], false);
    }
    let mut buf: Vec<u8> = Vec::new();
    let mut i: usize = pos;
    let mut comment = false;
    while i < bytes.len()
        invariant
            pos <= i <= bytes@.len(),
            scan(bytes@, i as int, buf@, comment) == token_at(bytes@, pos as int),
        decreases bytes@.len() - i,
    {
        let c = bytes[i];
        if comment {
            comment = c != 0x0A;
        } else if c == 0x23 {
            comment = true;
        } else if c == 0x20 || c == 0x09 || c == 0x0A || c == 0x0C || c == 0x0D {
            if buf.len() > 0 {
                return (buf, i + 1);
            }
        } else {
            buf.push(c);
        }
        i = i + 1;
    }
    (buf, i)
}

proof fn lemma_dec_value_bound(s: Seq<u8>)
    requires
        all_digits(s),
    ensures
        0 <= dec_value(s),
    decreases s.len(),
{
    if s.len() > 0 {
        lemma_dec_value_bound(s.drop_last());
    }
}

/// Reads a numeric header field.
pub fn parse_field(tok: &Vec<u8>) -> (r: Result<u32, ImageError>)
    ensures
        r == spec_field(tok@),
{
    if tok.len() == 0 {
        return Err(ImageError::TruncatedHeader);
    }
    let mut v: u64 = 0;
    let mut k: usize = 0;
    while k < tok.len()
        invariant
            0 < tok@.len(),
            k <= tok@.len(),
            all_digits(tok@.subrange(0, k as int)),
            v == dec_value(tok@.subrange(0, k as int)),
            v <= u32::MAX,
        decreases tok@.len() - k,
    {
        let c = tok[k];
        proof {
            assert(tok@.subrange(0, k as int + 1).drop_last() =~= tok@.subrange(0, k as int));
        }
        if c < 0x30 || c > 0x39 {
            return Err(ImageError::MalformedHeader);
        }
        let nv: u64 = 10 * v + (c - 0x30) as u64;
        if nv > 0xFFFF_FFFF {
            proof {
                assert(!all_digits(tok@) || dec_value(tok@) > u32::MAX) by {
                    if all_digits(tok@) {
                        lemma_dec_prefix_monotone(tok@, k as int + 1);
                    }
                }
            }
            return Err(ImageError::MalformedHeader);
        }
        v = nv;
        k = k + 1;
    }
    proof {
        assert(tok@.subrange(0, k as int) =~= tok@);
    }
    Ok(v as u32)
}

/// The value of a digit string is at least that of each of its prefixes.
proof fn lemma_dec_prefix_monotone(s: Seq<u8>, k: int)
    requires
        all_digits(s),
        0 <= k <= s.len(),
    ensures
        dec_value(s.subrange(0, k)) <= dec_value(s),
    decreases s.len() - k,
{
    if k < s.len() {
        let t = s.subrange(0, k + 1);
        assert(t.drop_last() =~= s.subrange(0, k));
        assert(all_digits(s.subrange(0, k)));
        lemma_dec_value_bound(s.subrange(0, k));
        lemma_dec_prefix_monotone(s, k + 1);
    } else {
        assert(s.subrange(0, k) =~= s);
    }
}

/// Decodes a text-header container: the magic tag `P6`,
/// then width, height and channel maximum as decimal tokens, then exactly
/// `3 * width * height` bytes of R, G, B triplets, row by row from the top.
pub fn parse_ppm(bytes: &Vec<u8>, no_aspect: bool) -> (r: Result<Image, ImageError>)
    ensures
        ppm_decoded(bytes@, no_aspect, r),
{
    let blen = bytes.len();
    let (magic, p1) = read_token(bytes, 0);
    let is_magic = magic.len() == 2 && magic[0] == 0x50 && magic[1] == 0x36;
    proof {
        if is_magic {
            assert(magic@ =~= seq![0x50u8, 0x36u8]);
        }
    }
    if !is_magic {
        return Err(ImageError::MagicMismatch);
    }
    let (wt, p2) = read_token(bytes, p1);
    let (ht, p3) = read_token(bytes, p2);
    let (mt, p4) = read_token(bytes, p3);
    let w = match parse_field(&wt) {
        Ok(v) => v,
        Err(e) => return Err(e),
    };
    let h = match parse_field(&ht) {
        Ok(v) => v,
        Err(e) => return Err(e),
    };
    let maxval = match parse_field(&mt) {
        Ok(v) => v,
        Err(e) => return Err(e),
    };
    if w == 0 || h == 0 {
        return Err(ImageError::InvalidDimensions);
    }
    if maxval != 255 {
        return Err(ImageError::UnsupportedDepth);
    }
    let rest: usize = bytes.len() - p4;
    proof {
        assert((w as int) * (h as int) <= 0xFFFF_FFFF * 0xFFFF_FFFF) by (nonlinear_arith)
            requires w <= 0xFFFF_FFFFu32, h <= 0xFFFF_FFFFu32;
        assert(0 <= (w as int) * (h as int)) by (nonlinear_arith);
    }
    let wh: u128 = (w as u128) * (h as u128);
    assert(wh == (w as int) * (h as int));
    if rest as u128 != 3 * wh {
        return Err(ImageError::SizeMismatch);
    }
    let n: usize = wh as usize;
    assert(p4 + 3 * n == bytes@.len());
    let mut data: Vec<Pixel> = Vec::new();
    let mut k: usize = 0;
    while k < n
        invariant
            k <= n,
            n == (w as int) * (h as int),
            blen == bytes@.len(),
            p4 + 3 * n == bytes@.len(),
            data@.len() == k,
            forall|j: int| 0 <= j < k ==> #[trigger] data@[j] == rgb_pixel_at(bytes@, p4 + 3 * j),
        decreases n - k,
    {
        proof {
            assert(p4 + 3 * k + 3 <= bytes@.len());
        }
        let base: usize = p4 + 3 * k;
        data.push(Pixel::new(255, bytes[base], bytes[base + 1], bytes[base + 2]));
        k = k + 1;
    }
    Ok(
        Image {
            width: w,
            height: h,
            image_data: data,
            locked_aspect_ratio: !no_aspect,
            is_grayscale: false,
            inverted: false,
            rotation: Rotation::Deg0,
        },
    )
}

/// The decimal digits of `n`, without leading zeros.
pub open spec fn decimal(n: nat) -> Seq<u8>
    decreases n,
{
    if n < 10 {
        seq![(0x30 + n) as u8]
    } else {
        decimal(n / 10).push((0x30 + n % 10) as u8)
    }
}

/// A text-header file with tag `P6`, the given dimensions, channel maximum 255,
/// and `payload` as its raster.
pub open spec fn ppm_file(w: nat, h: nat, payload: Seq<u8>) -> Seq<u8> {
    seq![0x50u8, 0x36u8, 0x20u8] + decimal(w) + seq![0x20u8] + decimal(h) + seq![
        0x20u8,
        0x32u8,
        0x35u8,
        0x35u8,
        0x0Au8,
    ] + payload
}

proof fn lemma_decimal(n: nat)
    ensures
        decimal(n).len() >= 1,
        all_digits(decimal(n)),
        dec_value(decimal(n)) == n,
    decreases n,
{
    let d = decimal(n);
    if n >= 10 {
        lemma_decimal(n / 10);
        assert(d.drop_last() =~= decimal(n / 10));
        assert(d.last() == 0x30 + n % 10);
        assert(n == 10 * (n / 10) + n % 10);
        assert(dec_value(d) == 10 * dec_value(d.drop_last()) + (d.last() - 0x30));
    } else {
        assert(d.drop_last() =~= Seq::<u8>::empty());
        assert(dec_value(Seq::<u8>::empty()) == 0);
        assert(d.last() == 0x30 + n);
        assert(dec_value(d) == 10 * dec_value(d.drop_last()) + (d.last() - 0x30));
    }
}

/// Scanning from `i` with no comment open, over `m` bytes that are neither
/// whitespace nor `#` and then one whitespace byte, reads those `m` bytes.
proof fn lemma_scan_word(b: Seq<u8>, i: int, acc: Seq<u8>, m: int)
    requires
        0 <= i,
        0 <= m,
        i + m < b.len(),
        forall|j: int| i <= j < i + m ==> !is_ws(#[trigger] b[j]) && b[j] != 0x23,
        is_ws(b[i + m]),
        acc.len() + m > 0,
    ensures
        scan(b, i, acc, false) == (acc + b.subrange(i, i + m), i + m + 1),
    decreases m,
{
    if m == 0 {
        assert(acc + b.subrange(i, i) =~= acc);
    } else {
        lemma_scan_word(b, i + 1, acc.push(b[i]), m - 1);
        assert(acc.push(b[i]) + b.subrange(i + 1, i + m) =~= acc + b.subrange(i, i + m));
    }
}

proof fn lemma_word_at(b: Seq<u8>, i: int, word: Seq<u8>)
    requires
        0 <= i,
        word.len() >= 1,
        i + word.len() < b.len(),
        b.subrange(i, i + word.len()) == word,
        forall|j: int| 0 <= j < word.len() ==> !is_ws(#[trigger] word[j]) && word[j] != 0x23,
        is_ws(b[i + word.len()]),
    ensures
        token_at(b, i) == (word, i + word.len() + 1),
{
    assert forall|j: int| i <= j < i + word.len() implies !is_ws(#[trigger] b[j]) && b[j] != 0x23 by {
        assert(b[j] == word[j - i]);
    }
    lemma_scan_word(b, i, seq![], word.len() as int);
    assert(seq![] + b.subrange(i, i + word.len()) =~= word);
}

/// Decoding a text-header file built from dimensions and a raster of
/// `3 * w * h` bytes gives back those dimensions and exactly the raster's
/// channel values, each pixel opaque.
pub proof fn lemma_ppm_round_trip(w: u32, h: u32, payload: Seq<u8>, no_aspect: bool, r: Result<
    Image,
    ImageError,
>)
    requires
        w > 0,
        h > 0,
        payload.len() == 3 * (w * h),
        ppm_decoded(ppm_file(w as nat, h as nat, payload), no_aspect, r),
    ensures
        r is Ok,
        r->Ok_0.width == w,
        r->Ok_0.height == h,
        r->Ok_0.image_data@.len() == w * h,
        forall|k: int|
            0 <= k < w * h ==> {
                let p = #[trigger] r->Ok_0.image_data@[k];
                &&& p.r == payload[3 * k]
                &&& p.g == payload[3 * k + 1]
                &&& p.b == payload[3 * k + 2]
                &&& p.a == 255
            },
{
    let dw = decimal(w as nat);
    let dh = decimal(h as nat);
    lemma_decimal(w as nat);
    lemma_decimal(h as nat);
    let b = ppm_file(w as nat, h as nat, payload);
    let tag = seq![0x50u8, 0x36u8];
    let maxv = seq![0x32u8, 0x35u8, 0x35u8];
    let i1 = 3int;
    let i2 = i1 + dw.len() + 1;
    let i3 = i2 + dh.len() + 1;
    let start = i3 + 4;
    assert(b.len() == start + payload.len());
    assert(b.subrange(0, 2) =~= tag);
    assert(b.subrange(i1, i1 + dw.len()) =~= dw);
    assert(b.subrange(i2, i2 + dh.len()) =~= dh);
    assert(b.subrange(i3, i3 + 3) =~= maxv);
    assert forall|j: int| 0 <= j < dw.len() implies !is_ws(#[trigger] dw[j]) && dw[j] != 0x23 by {
        assert(0x30 <= dw[j] <= 0x39);
    }
    assert forall|j: int| 0 <= j < dh.len() implies !is_ws(#[trigger] dh[j]) && dh[j] != 0x23 by {
        assert(0x30 <= dh[j] <= 0x39);
    }
    assert(b[2] == 0x20);
    assert(b[i1 + dw.len()] == 0x20);
    assert(b[i2 + dh.len()] == 0x20);
    assert(b[i3 + 3] == 0x0A);
    lemma_word_at(b, 0, tag);
    lemma_word_at(b, i1, dw);
    lemma_word_at(b, i2, dh);
    lemma_word_at(b, i3, maxv);
    assert(all_digits(maxv));
    assert(maxv.drop_last().drop_last() =~= seq![0x32u8]);
    assert(seq![0x32u8].drop_last() =~= Seq::<u8>::empty());
    assert(maxv.drop_last() =~= seq![0x32u8, 0x35u8]);
    assert(dec_value(Seq::<u8>::empty()) == 0);
    assert(dec_value(seq![0x32u8]) == 2);
    assert(dec_value(seq![0x32u8, 0x35u8]) == 25);
    assert(dec_value(maxv) == 255);
    assert(spec_field(dw) == Ok::<u32, ImageError>(w));
    assert(spec_field(dh) == Ok::<u32, ImageError>(h));
    assert(ppm_layout(b) == Ok::<(u32, u32, int), ImageError>((w, h, start)));
    assert forall|k: int| 0 <= k < w * h implies {
        let p = #[trigger] r->Ok_0.image_data@[k];
        &&& p.r == payload[3 * k]
        &&& p.g == payload[3 * k + 1]
        &&& p.b == payload[3 * k + 2]
        &&& p.a == 255
    } by {
        assert(b[start + 3 * k] == payload[3 * k]);
        assert(b[start + 3 * k + 1] == payload[3 * k + 1]);
        assert(b[start + 3 * k + 2] == payload[3 * k + 2]);
    }
}

} // verus!
