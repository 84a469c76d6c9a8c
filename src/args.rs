use vstd::prelude::*;
use vstd::string::{StrSliceExecFns, StringSliceAdditionalSpecFns};

verus! {

/// The viewer's command-line options.
pub struct Args {
    /// The image file to show; empty or absent for a plain window.
    pub image: Option<String>,
    /// The background colour, `0xRRGGBB`.
    pub color: Option<u32>,
    /// Lets the image stretch to the window instead of keeping its aspect ratio.
    pub no_aspect: bool,
}

/// Why a colour argument was refused.
#[derive(Clone, Copy, Debug, PartialEq, Eq, Structural)]
pub enum HexColorError {
    /// More than six characters remain after the prefixes; holds how many.
    TooLong(usize),
    /// Not a hexadecimal number.
    InvalidDigit,
}

/// `b` without any number of leading `0x`.
pub open spec fn strip_0x(b: Seq<u8>) -> Seq<u8>
    decreases b.len(),
{
    if b.len() >= 2 && b[0] == 0x30 && b[1] == 0x78 {
        strip_0x(b.subrange(2, b.len() as int))
    } else {
        b
    }
}

/// `b` without any number of leading `#`.
pub open spec fn strip_hash(b: Seq<u8>) -> Seq<u8>
    decreases b.len(),
{
    if b.len() >= 1 && b[0] == 0x23 {
        strip_hash(b.subrange(1, b.len() as int))
    } else {
        b
    }
}

pub open spec fn hex_digit(c: u8) -> int {
    if 0x30 <= c <= 0x39 {
        c - 0x30
    } else if 0x61 <= c <= 0x66 {
        c - 0x61 + 10
    } else if 0x41 <= c <= 0x46 {
        c - 0x41 + 10
    } else {
        -1
    }
}

pub open spec fn all_hex(s: Seq<u8>) -> bool {
    forall|k: int| 0 <= k < s.len() ==> hex_digit(#[trigger] s[k]) >= 0
}

/// The value of a string of hexadecimal digits.
pub open spec fn hex_value(s: Seq<u8>) -> int
    decreases s.len(),
{
    if s.len() == 0 {
        0
    } else {
        16 * hex_value(s.drop_last()) + hex_digit(s.last())
    }
}

/// What a colour argument given as UTF-8 bytes reads as: after the prefixes
/// `0x` and then `#` are stripped, at most six hexadecimal digits, optionally
/// after a `+`.
pub open spec fn spec_hex_color(b: Seq<u8>) -> Result<u32, HexColorError> {
    let s = strip_hash(strip_0x(b));
    let digits = if s.len() > 0 && s[0] == 0x2B {
        s.subrange(1, s.len() as int)
    } else {
        s
    };
    if s.len() > 6 {
        Err(HexColorError::TooLong(s.len() as usize))
    } else if digits.len() == 0 || !all_hex(digits) {
        Err(HexColorError::InvalidDigit)
    } else {
        Ok(hex_value(digits) as u32)
    }
}

proof fn lemma_hex_value_bound(s: Seq<u8>)
    requires
        all_hex(s),
    ensures
        0 <= hex_value(s) < pow16(s.len()),
    decreases s.len(),
{
    if s.len() > 0 {
        lemma_hex_value_bound(s.drop_last());
        assert(hex_digit(s.last()) == hex_digit(s[s.len() - 1]));
    }
}

pub open spec fn pow16(n: nat) -> int
    decreases n,
{
    if n == 0 {
        1
    } else {
        16 * pow16((n - 1) as nat)
    }
}

fn hex_digit_exec(c: u8) -> (d: Option<u32>)
    ensures
        hex_digit(c) >= 0 ==> d == Some(hex_digit(c) as u32),
        hex_digit(c) < 0 ==> d is None,
{
    if 0x30 <= c && c <= 0x39 {
        Some((c - 0x30) as u32)
    } else if 0x61 <= c && c <= 0x66 {
        Some((c - 0x61 + 10) as u32)
    } else if 0x41 <= c && c <= 0x46 {
        Some((c - 0x41 + 10) as u32)
    } else {
        None
    }
}

/// Reads a colour argument such as `0xFF8800`, `#ff8800` or `ff8800`.
pub fn parse_hex_color(hex_str: &str) -> (r: Result<u32, HexColorError>)
    ensures
        r == spec_hex_color(hex_str.spec_bytes()),
{
    let b = hex_str.as_bytes_vec();
    let n = b.len();
    let mut start: usize = 0;
    proof {
        assert(b@.subrange(0, n as int) =~= b@);
    }
    while n - start >= 2 && b[start] == 0x30 && b[start + 1] == 0x78
        invariant
            n == b@.len(),
            start <= n,
            strip_0x(b@.subrange(start as int, n as int)) == strip_0x(b@),
        decreases n - start,
    {
        proof {
            let t = b@.subrange(start as int, n as int);
            assert(t.subrange(2, t.len() as int) =~= b@.subrange(start + 2, n as int));
        }
        start = start + 2;
    }
    proof {
        let t = b@.subrange(start as int, n as int);
        assert(strip_0x(t) == t);
    }
    let ghost s0 = b@.subrange(start as int, n as int);
    assert(s0 == strip_0x(b@));
    while start < n && b[start] == 0x23
        invariant
            n == b@.len(),
            start <= n,
            strip_hash(b@.subrange(start as int, n as int)) == strip_hash(s0),
        decreases n - start,
    {
        proof {
            let t = b@.subrange(start as int, n as int);
            assert(t.subrange(1, t.len() as int) =~= b@.subrange(start + 1, n as int));
        }
        start = start + 1;
    }
    let ghost s = b@.subrange(start as int, n as int);
    proof {
        assert(strip_hash(s) == s);
        assert(s == strip_hash(strip_0x(hex_str.spec_bytes())));
    }
    if n - start > 6 {
        return Err(HexColorError::TooLong(n - start));
    }
    let mut k: usize = start;
    if k < n && b[k] == 0x2B {
        k = k + 1;
    }
    let ghost digits = b@.subrange(k as int, n as int);
    proof {
        if s.len() > 0 && s[0] == 0x2B {
            assert(digits =~= s.subrange(1, s.len() as int));
        } else {
            assert(digits =~= s);
        }
    }
    if k == n {
        return Err(HexColorError::InvalidDigit);
    }
    let mut v: u32 = 0;
    let mut j: usize = k;
    while j < n
        invariant
            n == b@.len(),
            k <= j <= n,
            n - k <= 6,
            digits == b@.subrange(k as int, n as int),
            b@ == hex_str.spec_bytes(),
            !all_hex(digits) ==> spec_hex_color(b@) == Err::<u32, HexColorError>(
                HexColorError::InvalidDigit,
            ),
            all_hex(digits) ==> spec_hex_color(b@) == Ok::<u32, HexColorError>(
                hex_value(digits) as u32,
            ),
            all_hex(b@.subrange(k as int, j as int)),
            v == hex_value(b@.subrange(k as int, j as int)),
            v < pow16((j - k) as nat),
        decreases n - j,
    {
        proof {
            assert(b@.subrange(k as int, j + 1).drop_last() =~= b@.subrange(k as int, j as int));
            assert(b@.subrange(k as int, j + 1).last() == b@[j as int]);
        }
        let d = match hex_digit_exec(b[j]) {
            Some(d) => d,
            None => {
                proof {
                    assert(digits[j - k] == b@[j as int]);
                    assert(hex_digit(digits[j - k]) < 0);
                    assert(!all_hex(digits));
                }
                return Err(HexColorError::InvalidDigit);
            },
        };
        proof {
            assert(pow16((j - k) as nat) <= pow16(5)) by {
                lemma_pow16_mono((j - k) as nat, 5);
            }
            assert(pow16(0) == 1);
            assert(pow16(1) == 16);
            assert(pow16(2) == 0x100);
            assert(pow16(3) == 0x1000);
            assert(pow16(4) == 0x10000);
            assert(pow16(5) == 0x100000);
            assert(16 * pow16((j - k) as nat) == pow16((j + 1 - k) as nat));
        }
        v = 16 * v + d;
        j = j + 1;
    }
    proof {
        assert(b@.subrange(k as int, j as int) =~= digits);
    }
    Ok(v)
}

proof fn lemma_pow16_mono(a: nat, b: nat)
    requires
        a <= b,
    ensures
        pow16(a) <= pow16(b),
        pow16(a) >= 1,
    decreases b,
{
    if a < b {
        lemma_pow16_mono(a, (b - 1) as nat);
    } else if a > 0 {
        lemma_pow16_mono((a - 1) as nat, (a - 1) as nat);
    }
}

} // verus!
