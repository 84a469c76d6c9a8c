use vstd::prelude::*;
use vstd::string::StrSliceExecFns;

use crate::bmp::{bmp_decoded, parse_bmp};
use crate::image::Image;
use crate::ppm::{parse_ppm, ppm_decoded};

verus! {

/// Why a raster could not be decoded.
#[derive(Clone, Copy, Debug, PartialEq, Eq, Structural)]
pub enum ImageError {
    /// The leading magic tag is not one of the container's tags.
    MagicMismatch,
    /// The header ends before all of its fields.
    TruncatedHeader,
    /// A header field is not a decimal number that fits in 32 bits.
    MalformedHeader,
    /// The width or the height is zero.
    InvalidDimensions,
    /// A bit depth or channel maximum other than 8 bits per channel.
    UnsupportedDepth,
    /// A compressed raster.
    UnsupportedCompression,
    /// The raster ends before the last row.
    TruncatedData,
    /// The raster holds another number of bytes than the dimensions call for.
    SizeMismatch,
    /// The file name has no extension of a known container.
    UnsupportedExtension,
}

} // verus!

verus! {

/// Index of the last `c` in `p` before `end`, or -1.
pub open spec fn last_index_of(p: Seq<char>, c: char, end: int) -> int
    decreases end,
{
    if end <= 0 {
        -1
    } else if p[end - 1] == c {
        end - 1
    } else {
        last_index_of(p, c, end - 1)
    }
}

/// The extension of the file name that ends a path: what follows its last dot,
/// where that dot is not the name's first character.
pub open spec fn path_extension(p: Seq<char>) -> Option<Seq<char>> {
    let slash = last_index_of(p, '/', p.len() as int);
    let dot = last_index_of(p, '.', p.len() as int);
    if dot > slash + 1 {
        Some(p.subrange(dot + 1, p.len() as int))
    } else {
        None
    }
}

pub open spec fn ascii_lower(c: char) -> char {
    if 'A' <= c <= 'Z' {
        ((c as u32) + 32) as char
    } else {
        c
    }
}

/// Whether `e` spells the lower-case `word`, ignoring ASCII case.
pub open spec fn same_ignoring_case(e: Seq<char>, word: Seq<char>) -> bool {
    e.len() == word.len() && forall|i: int| 0 <= i < e.len() ==> ascii_lower(#[trigger] e[i]) == word[i]
}

/// The container that a path names by its extension, ignoring case:
/// 1 for the text-header container, 2 for the binary one, 0 for neither.
pub open spec fn container_of(p: Seq<char>) -> int {
    match path_extension(p) {
        Some(e) => if same_ignoring_case(e, seq!['p', 'p', 'm']) {
            1
        } else if same_ignoring_case(e, seq!['b', 'm', 'p']) {
            2
        } else {
            0
        },
        None => 0,
    }
}

proof fn lemma_last_index_bounds(p: Seq<char>, c: char, end: int)
    requires
        0 <= end <= p.len(),
    ensures
        -1 <= last_index_of(p, c, end) < end,
        last_index_of(p, c, end) >= 0 ==> p[last_index_of(p, c, end)] == c,
    decreases end,
{
    if end > 0 && p[end - 1] != c {
        lemma_last_index_bounds(p, c, end - 1);
    }
}

fn lower_char(c: char) -> (l: char)
    ensures
        l == ascii_lower(c),
{
    if 'A' <= c && c <= 'Z' {
        ((c as u8) + 32) as char
    } else {
        c
    }
}

/// Which container a path names: 1 for `ppm`, 2 for `bmp`, 0 for another or no extension.
pub fn container_kind(path: &str) -> (k: u8)
    ensures
        k == container_of(path@),
{
    let n = path.unicode_len();
    // one past the last slash and the last dot seen so far, 0 for none
    let mut slash_end: usize = 0;
    let mut dot_end: usize = 0;
    let mut i: usize = 0;
    while i < n
        invariant
            n == path@.len(),
            i <= n,
            slash_end == last_index_of(path@, '/', i as int) + 1,
            dot_end == last_index_of(path@, '.', i as int) + 1,
        decreases n - i,
    {
        proof {
            lemma_last_index_bounds(path@, '/', i as int);
            lemma_last_index_bounds(path@, '.', i as int);
        }
        let c = path.get_char(i);
        if c == '/' {
            slash_end = i + 1;
        }
        if c == '.' {
            dot_end = i + 1;
        }
        i = i + 1;
    }
    proof {
        lemma_last_index_bounds(path@, '/', n as int);
        lemma_last_index_bounds(path@, '.', n as int);
    }
    if dot_end <= slash_end || dot_end - slash_end < 2 || n - dot_end != 3 {
        proof {
            if dot_end > slash_end + 1 {
                let e = path@.subrange(dot_end as int, n as int);
                assert(e.len() != 3);
            }
        }
        return 0;
    }
    let d = dot_end - 1;
    let c1 = lower_char(path.get_char(d + 1));
    let c2 = lower_char(path.get_char(d + 2));
    let c3 = lower_char(path.get_char(d + 3));
    let ghost e = path@.subrange(dot_end as int, n as int);
    proof {
        assert(e[0] == path@[d + 1]);
        assert(e[1] == path@[d + 2]);
        assert(e[2] == path@[d + 3]);
    }
    if c1 == 'p' && c2 == 'p' && c3 == 'm' {
        assert(same_ignoring_case(e, seq!['p', 'p', 'm']));
        1
    } else if c1 == 'b' && c2 == 'm' && c3 == 'p' {
        assert(!same_ignoring_case(e, seq!['p', 'p', 'm']));
        assert(same_ignoring_case(e, seq!['b', 'm', 'p']));
        2
    } else {
        assert(!same_ignoring_case(e, seq!['p', 'p', 'm']));
        assert(!same_ignoring_case(e, seq!['b', 'm', 'p']));
        0
    }
}

/// Decodes `bytes`, read from `path`, with the parser that the path's extension
/// names, ignoring case: `ppm` for the text-header container, `bmp` for the
/// binary one.
pub fn load_from_path(path: &str, bytes: &Vec<u8>, no_aspect: bool) -> (r: Result<
    Image,
    ImageError,
>)
    ensures
        container_of(path@) == 1 ==> ppm_decoded(bytes@, no_aspect, r),
        container_of(path@) == 2 ==> bmp_decoded(bytes@, no_aspect, r),
        container_of(path@) == 0 ==> r == Err::<Image, ImageError>(
            ImageError::UnsupportedExtension,
        ),
{
    let kind = container_kind(path);
    if kind == 1 {
        parse_ppm(bytes, no_aspect)
    } else if kind == 2 {
        parse_bmp(bytes, no_aspect)
    } else {
        Err(ImageError::UnsupportedExtension)
    }
}

} // verus!
