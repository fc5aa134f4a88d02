//! Reading fonts in the Glyph Bitmap Distribution Format (BDF).
//!
//! A font file is read line by line, as `str::lines` splits text: at each
//! line feed, dropping a carriage return right before it. The header gives
//! the font's bounding box and the number of properties (whose lines are
//! skipped) and of characters; each character gives its code, its device
//! width (which must equal the font's width), its bounding box and one
//! hexadecimal bitmap row per pixel row.

use vstd::prelude::*;
use crate::font::{BoundingBox, Char, Font};

verus! {

// ---------------------------------------------------------------------------
// Lines
// ---------------------------------------------------------------------------

/// The position of the first line feed in `b` at or after `start`, or the
/// length of `b` if there is none.
pub open spec fn next_newline(b: Seq<u8>, start: int) -> int
    decreases b.len() - start,
{
    if start >= b.len() {
        b.len() as int
    } else if b[start] == 0x0A {
        start
    } else {
        next_newline(b, start + 1)
    }
}

/// The lines of `b` from position `start` on, as `[start, end)` ranges: a
/// line ends at a line feed, without the carriage return right before it;
/// the last line needs no line feed, and nothing follows a final line feed.
pub open spec fn lines_from(b: Seq<u8>, start: int) -> Seq<(int, int)>
    decreases b.len() - start,
{
    if start < 0 || start >= b.len() {
        Seq::empty()
    } else {
        let e = next_newline(b, start);
        proof {
            lemma_next_newline(b, start);
        }
        if e >= b.len() {
            seq![(start, b.len() as int)]
        } else {
            let end = if e > start && b[e - 1] == 0x0D { e - 1 } else { e };
            seq![(start, end)] + lines_from(b, e + 1)
        }
    }
}

/// The ranges as integer pairs.
pub open spec fn int_ranges(r: Seq<(usize, usize)>) -> Seq<(int, int)> {
    r.map_values(|p: (usize, usize)| (p.0 as int, p.1 as int))
}

/// Where the next line feed is.
pub proof fn lemma_next_newline(b: Seq<u8>, start: int)
    requires
        0 <= start,
    ensures
        start <= next_newline(b, start) <= b.len() || (start > b.len() && next_newline(b, start)
            == b.len()),
        next_newline(b, start) < b.len() ==> b[next_newline(b, start)] == 0x0A,
        forall|j: int| start <= j < next_newline(b, start) ==> b[j] != 0x0A,
    decreases b.len() - start,
{
    if start < b.len() && b[start] != 0x0A {
        lemma_next_newline(b, start + 1);
    }
}

/// Splits `b` into lines.
pub fn split_lines(b: &[u8]) -> (r: Vec<(usize, usize)>)
    ensures
        int_ranges(r@) == lines_from(b@, 0),
        forall|i: int| 0 <= i < r@.len() ==> (#[trigger] r@[i]).0 <= r@[i].1 <= b@.len(),
{
    let n = b.len();
    let mut r: Vec<(usize, usize)> = Vec::new();
    let mut pos: usize = 0;
    while pos < n
        invariant
            n == b@.len(),
            pos <= n,
            int_ranges(r@) + lines_from(b@, pos as int) == lines_from(b@, 0),
            forall|i: int| 0 <= i < r@.len() ==> (#[trigger] r@[i]).0 <= r@[i].1 <= b@.len(),
        decreases n - pos,
    {
        let mut e = pos;
        while e < n && b[e] != 0x0A
            invariant
                n == b@.len(),
                pos <= e <= n,
                next_newline(b@, pos as int) == next_newline(b@, e as int),
            decreases n - e,
        {
            e = e + 1;
        }
        proof {
            lemma_next_newline(b@, pos as int);
        }
        let ghost old_r = r@;
        if e >= n {
            r.push((pos, n));
            proof {
                assert(int_ranges(r@) =~= int_ranges(old_r) + seq![(pos as int, n as int)]);
                assert(lines_from(b@, n as int) =~= Seq::<(int, int)>::empty());
                assert(int_ranges(r@) + lines_from(b@, n as int) =~= lines_from(b@, 0));
            }
            pos = n;
        } else {
            let end = if e > pos && b[e - 1] == 0x0D {
                e - 1
            } else {
                e
            };
            r.push((pos, end));
            proof {
                assert(int_ranges(r@) =~= int_ranges(old_r) + seq![(pos as int, end as int)]);
                assert(int_ranges(r@) + lines_from(b@, e + 1) =~= lines_from(b@, 0));
            }
            pos = e + 1;
        }
    }
    proof {
        assert(lines_from(b@, pos as int) =~= Seq::<(int, int)>::empty());
        assert(int_ranges(r@) =~= int_ranges(r@) + lines_from(b@, pos as int));
    }
    r
}

// ---------------------------------------------------------------------------
// Numbers
// ---------------------------------------------------------------------------

/// Whether `c` is a decimal digit.
pub open spec fn is_digit(c: u8) -> bool {
    0x30 <= c <= 0x39
}

/// The value of the hexadecimal digit `c`, if it is one.
pub open spec fn hex_digit_value(c: u8) -> Option<nat> {
    if 0x30 <= c <= 0x39 {
        Some((c - 0x30) as nat)
    } else if 0x61 <= c <= 0x66 {
        Some((c - 0x61 + 10) as nat)
    } else if 0x41 <= c <= 0x46 {
        Some((c - 0x41 + 10) as nat)
    } else {
        None
    }
}

/// Whether every byte of `s` is a decimal digit.
pub open spec fn all_digits(s: Seq<u8>) -> bool {
    forall|i: int| 0 <= i < s.len() ==> is_digit(#[trigger] s[i])
}

/// The value of the decimal digits `s`.
pub open spec fn dec_value(s: Seq<u8>) -> nat
    decreases s.len(),
{
    if s.len() == 0 {
        0
    } else {
        dec_value(s.drop_last()) * 10 + (s.last() - 0x30) as nat
    }
}

/// Whether every byte of `s` is a hexadecimal digit.
pub open spec fn all_hex_digits(s: Seq<u8>) -> bool {
    forall|i: int| 0 <= i < s.len() ==> (#[trigger] hex_digit_value(s[i])) is Some
}

/// The value of the hexadecimal digits `s`.
pub open spec fn hex_value(s: Seq<u8>) -> nat
    decreases s.len(),
{
    if s.len() == 0 {
        0
    } else {
        hex_value(s.drop_last()) * 16 + hex_digit_value(s.last())->0
    }
}

/// The `i64` that `s` writes in decimal, as `str::parse::<i64>` reads it: an
/// optional sign, then at least one digit, and a value in range.
pub open spec fn spec_parse_i64(s: Seq<u8>) -> Option<i64> {
    if s.len() == 0 {
        None
    } else {
        let neg = s[0] == 0x2D;
        let digits = if s[0] == 0x2D || s[0] == 0x2B { s.drop_first() } else { s };
        if digits.len() == 0 || !all_digits(digits) {
            None
        } else {
            let v: int = if neg { -(dec_value(digits) as int) } else { dec_value(digits) as int };
            if i64::MIN <= v <= i64::MAX {
                Some(v as i64)
            } else {
                None
            }
        }
    }
}

/// The `u32` that `s` writes in hexadecimal, as `u32::from_str_radix(s, 16)`
/// reads it: an optional plus sign, then at least one digit, and a value in
/// range.
pub open spec fn spec_parse_hex_u32(s: Seq<u8>) -> Option<u32> {
    if s.len() == 0 {
        None
    } else {
        let digits = if s[0] == 0x2B { s.drop_first() } else { s };
        if digits.len() == 0 || !all_hex_digits(digits) || hex_value(digits) > u32::MAX {
            None
        } else {
            Some(hex_value(digits) as u32)
        }
    }
}

/// Reads a decimal `i64` from `b[start..end]`.
pub fn parse_i64(b: &[u8], start: usize, end: usize) -> (r: Option<i64>)
    requires
        start <= end <= b@.len(),
    ensures
        r == spec_parse_i64(b@.subrange(start as int, end as int)),
{
    let ghost s = b@.subrange(start as int, end as int);
    if start == end {
        return None;
    }
    let neg = b[start] == 0x2D;
    let first = if b[start] == 0x2D || b[start] == 0x2B {
        start + 1
    } else {
        start
    };
    let ghost digits = b@.subrange(first as int, end as int);
    proof {
        if b[start as int] == 0x2D || b[start as int] == 0x2B {
            assert(s.drop_first() =~= digits);
        } else {
            assert(s =~= digits);
        }
    }
    if first == end {
        return None;
    }
    // The magnitude may reach 2^63 for the most negative value.
    let limit: u64 = if neg {
        0x8000_0000_0000_0000
    } else {
        0x7fff_ffff_ffff_ffff
    };
    let mut v: u64 = 0;
    let mut i = first;
    while i < end
        invariant
            start < first <= i <= end <= b@.len() || start == first <= i <= end <= b@.len(),
            s == b@.subrange(start as int, end as int),
            s.len() > 0,
            digits == b@.subrange(first as int, end as int),
            digits.len() > 0,
            neg == (s[0] == 0x2D),
            digits == (if s[0] == 0x2D || s[0] == 0x2B { s.drop_first() } else { s }),
            all_digits(b@.subrange(first as int, i as int)),
            v == dec_value(b@.subrange(first as int, i as int)),
            v <= limit,
            limit == (if neg { 0x8000_0000_0000_0000u64 } else { 0x7fff_ffff_ffff_ffffu64 }),
        decreases end - i,
    {
        let c = b[i];
        proof {
            let t = b@.subrange(first as int, i + 1);
            assert(t.drop_last() =~= b@.subrange(first as int, i as int));
        }
        if c < 0x30 || c > 0x39 {
            proof {
                assert(digits[i - first] == c);
                assert(!is_digit(digits[i - first]));
            }
            return None;
        }
        let d = (c - 0x30) as u64;
        if v > (limit - d) / 10 {
            proof {
                assert(digits.subrange(0, (i - first) as int) =~= b@.subrange(first as int, i as int));
                assert(digits[i - first] == c);
                lemma_dec_prefix_too_big(digits, (i - first) as int, v as int, d as int, limit as int);
            }
            return None;
        }
        v = v * 10 + d;
        i = i + 1;
    }
    proof {
        assert(b@.subrange(first as int, i as int) =~= digits);
    }
    if neg {
        if v == 0x8000_0000_0000_0000 {
            Some(i64::MIN)
        } else {
            Some(-(v as i64))
        }
    } else {
        Some(v as i64)
    }
}

/// Once the value of a prefix of the digits is past the limit, so is the
/// value of all of them.
proof fn lemma_dec_prefix_too_big(digits: Seq<u8>, i: int, v: int, d: int, limit: int)
    requires
        0 <= i < digits.len(),
        v == dec_value(digits.subrange(0, i)),
        d == digits[i] - 0x30,
        0 <= d <= 9,
        all_digits(digits.subrange(0, i)),
        0 <= limit,
        v > (limit - d) / 10,
    ensures
        !(all_digits(digits) && dec_value(digits) <= limit),
{
    if all_digits(digits) {
        assert(digits.subrange(0, i + 1).drop_last() =~= digits.subrange(0, i));
        assert(dec_value(digits.subrange(0, i + 1)) == v * 10 + d);
        assert(v * 10 + d > limit) by (nonlinear_arith)
            requires
                v > (limit - d) / 10,
                0 <= d <= 9,
                0 <= limit,
        ;
        lemma_dec_value_mono(digits, i + 1);
    }
}

/// The value of all the digits is at least that of any prefix.
proof fn lemma_dec_value_mono(s: Seq<u8>, k: int)
    requires
        0 <= k <= s.len(),
        all_digits(s),
    ensures
        dec_value(s.subrange(0, k)) <= dec_value(s),
    decreases s.len() - k,
{
    if k < s.len() {
        lemma_dec_value_mono(s, k + 1);
        assert(s.subrange(0, k + 1).drop_last() =~= s.subrange(0, k));
        assert(is_digit(s[k]));
    } else {
        assert(s.subrange(0, k) =~= s);
    }
}

/// Reads a hexadecimal `u32` from `b[start..end]`.
pub fn parse_hex_u32(b: &[u8], start: usize, end: usize) -> (r: Option<u32>)
    requires
        start <= end <= b@.len(),
    ensures
        r == spec_parse_hex_u32(b@.subrange(start as int, end as int)),
{
    let ghost s = b@.subrange(start as int, end as int);
    if start == end {
        return None;
    }
    let first = if b[start] == 0x2B {
        start + 1
    } else {
        start
    };
    let ghost digits = b@.subrange(first as int, end as int);
    proof {
        if b[start as int] == 0x2B {
            assert(s.drop_first() =~= digits);
        } else {
            assert(s =~= digits);
        }
    }
    if first == end {
        return None;
    }
    let mut v: u64 = 0;
    let mut i = first;
    while i < end
        invariant
            start <= first <= i <= end <= b@.len(),
            s == b@.subrange(start as int, end as int),
            s.len() > 0,
            digits == b@.subrange(first as int, end as int),
            digits.len() > 0,
            digits == (if s[0] == 0x2B { s.drop_first() } else { s }),
            all_hex_digits(b@.subrange(first as int, i as int)),
            v == hex_value(b@.subrange(first as int, i as int)),
            v <= u32::MAX,
        decreases end - i,
    {
        let c = b[i];
        proof {
            let t = b@.subrange(first as int, i + 1);
            assert(t.drop_last() =~= b@.subrange(first as int, i as int));
        }
        let d: u64 = if 0x30 <= c && c <= 0x39 {
            (c - 0x30) as u64
        } else if 0x61 <= c && c <= 0x66 {
            (c - 0x61 + 10) as u64
        } else if 0x41 <= c && c <= 0x46 {
            (c - 0x41 + 10) as u64
        } else {
            proof {
                assert(digits[i - first] == c);
                assert(hex_digit_value(digits[i - first]) is None);
            }
            return None;
        };
        proof {
            let t = b@.subrange(first as int, i + 1);
            assert(t.last() == c);
            assert(hex_digit_value(c) == Some(d as nat));
            assert(all_hex_digits(t)) by {
                assert forall|j: int| 0 <= j < t.len() implies (#[trigger] hex_digit_value(t[j])) is Some by {
                    if j < t.len() - 1 {
                        assert(t[j] == t.drop_last()[j]);
                    }
                }
            }
            assert(hex_value(t) == v * 16 + d);
            assert(digits.subrange(0, (i - first + 1) as int) =~= t);
        }
        v = v * 16 + d;
        if v > 0xffff_ffff {
            proof {
                lemma_hex_prefix_too_big(digits, (i - first + 1) as int);
            }
            return None;
        }
        i = i + 1;
    }
    proof {
        assert(b@.subrange(first as int, i as int) =~= digits);
    }
    Some(v as u32)
}

/// Once the value of a prefix of the digits is past `u32::MAX`, so is the
/// value of all of them.
proof fn lemma_hex_prefix_too_big(digits: Seq<u8>, k: int)
    requires
        0 <= k <= digits.len(),
        all_hex_digits(digits.subrange(0, k)),
        hex_value(digits.subrange(0, k)) > u32::MAX,
    ensures
        !(all_hex_digits(digits) && hex_value(digits) <= u32::MAX),
    decreases digits.len() - k,
{
    if all_hex_digits(digits) {
        if k < digits.len() {
            assert(digits.subrange(0, k + 1).drop_last() =~= digits.subrange(0, k));
            lemma_hex_prefix_too_big(digits, k + 1);
        } else {
            assert(digits.subrange(0, k) =~= digits);
        }
    }
}

// ---------------------------------------------------------------------------
// Keywords
// ---------------------------------------------------------------------------

/// The words of the format that the reader looks for.
#[derive(Clone, Copy, PartialEq, Eq, Debug, Structural)]
pub enum Keyword {
    Font,
    Size,
    FontBoundingBox,
    StartProperties,
    Chars,
    StartChar,
    Encoding,
    SWidth,
    DWidth,
    Bbx,
    Bitmap,
    EndChar,
    StartFont,
}

/// The bytes of a keyword (the first line of a file is `STARTFONT 2.1`).
pub open spec fn keyword_bytes(k: Keyword) -> Seq<u8> {
    match k {
        Keyword::Font => seq![0x46u8, 0x4fu8, 0x4eu8, 0x54u8],
        Keyword::Size => seq![0x53u8, 0x49u8, 0x5au8, 0x45u8],
        Keyword::FontBoundingBox => seq![0x46u8, 0x4fu8, 0x4eu8, 0x54u8, 0x42u8, 0x4fu8, 0x55u8, 0x4eu8, 0x44u8, 0x49u8, 0x4eu8, 0x47u8, 0x42u8, 0x4fu8, 0x58u8],
        Keyword::StartProperties => seq![0x53u8, 0x54u8, 0x41u8, 0x52u8, 0x54u8, 0x50u8, 0x52u8, 0x4fu8, 0x50u8, 0x45u8, 0x52u8, 0x54u8, 0x49u8, 0x45u8, 0x53u8],
        Keyword::Chars => seq![0x43u8, 0x48u8, 0x41u8, 0x52u8, 0x53u8],
        Keyword::StartChar => seq![0x53u8, 0x54u8, 0x41u8, 0x52u8, 0x54u8, 0x43u8, 0x48u8, 0x41u8, 0x52u8],
        Keyword::Encoding => seq![0x45u8, 0x4eu8, 0x43u8, 0x4fu8, 0x44u8, 0x49u8, 0x4eu8, 0x47u8],
        Keyword::SWidth => seq![0x53u8, 0x57u8, 0x49u8, 0x44u8, 0x54u8, 0x48u8],
        Keyword::DWidth => seq![0x44u8, 0x57u8, 0x49u8, 0x44u8, 0x54u8, 0x48u8],
        Keyword::Bbx => seq![0x42u8, 0x42u8, 0x58u8],
        Keyword::Bitmap => seq![0x42u8, 0x49u8, 0x54u8, 0x4du8, 0x41u8, 0x50u8],
        Keyword::EndChar => seq![0x45u8, 0x4eu8, 0x44u8, 0x43u8, 0x48u8, 0x41u8, 0x52u8],
        Keyword::StartFont => seq![0x53u8, 0x54u8, 0x41u8, 0x52u8, 0x54u8, 0x46u8, 0x4fu8, 0x4eu8, 0x54u8, 0x20u8, 0x32u8, 0x2eu8, 0x31u8],
    }
}

/// The bytes of a keyword.
pub fn keyword(k: Keyword) -> (r: Vec<u8>)
    ensures
        r@ == keyword_bytes(k),
{
    let r = match k {
        Keyword::Font => vec![0x46u8, 0x4fu8, 0x4eu8, 0x54u8],
        Keyword::Size => vec![0x53u8, 0x49u8, 0x5au8, 0x45u8],
        Keyword::FontBoundingBox => vec![0x46u8, 0x4fu8, 0x4eu8, 0x54u8, 0x42u8, 0x4fu8, 0x55u8, 0x4eu8, 0x44u8, 0x49u8, 0x4eu8, 0x47u8, 0x42u8, 0x4fu8, 0x58u8],
        Keyword::StartProperties => vec![0x53u8, 0x54u8, 0x41u8, 0x52u8, 0x54u8, 0x50u8, 0x52u8, 0x4fu8, 0x50u8, 0x45u8, 0x52u8, 0x54u8, 0x49u8, 0x45u8, 0x53u8],
        Keyword::Chars => vec![0x43u8, 0x48u8, 0x41u8, 0x52u8, 0x53u8],
        Keyword::StartChar => vec![0x53u8, 0x54u8, 0x41u8, 0x52u8, 0x54u8, 0x43u8, 0x48u8, 0x41u8, 0x52u8],
        Keyword::Encoding => vec![0x45u8, 0x4eu8, 0x43u8, 0x4fu8, 0x44u8, 0x49u8, 0x4eu8, 0x47u8],
        Keyword::SWidth => vec![0x53u8, 0x57u8, 0x49u8, 0x44u8, 0x54u8, 0x48u8],
        Keyword::DWidth => vec![0x44u8, 0x57u8, 0x49u8, 0x44u8, 0x54u8, 0x48u8],
        Keyword::Bbx => vec![0x42u8, 0x42u8, 0x58u8],
        Keyword::Bitmap => vec![0x42u8, 0x49u8, 0x54u8, 0x4du8, 0x41u8, 0x50u8],
        Keyword::EndChar => vec![0x45u8, 0x4eu8, 0x44u8, 0x43u8, 0x48u8, 0x41u8, 0x52u8],
        Keyword::StartFont => vec![0x53u8, 0x54u8, 0x41u8, 0x52u8, 0x54u8, 0x46u8, 0x4fu8, 0x4eu8, 0x54u8, 0x20u8, 0x32u8, 0x2eu8, 0x31u8],
    };
    proof {
        assert(r@ =~= keyword_bytes(k));
    }
    r
}

// ---------------------------------------------------------------------------
// Fields of a line
// ---------------------------------------------------------------------------

/// Why a font file cannot be read.
#[derive(Clone, Copy, PartialEq, Eq, Debug, Structural)]
pub enum BdfError {
    /// The file ends before a line the format needs.
    UnexpectedEnd,
    /// The first line is not `STARTFONT 2.1`.
    UnrecognizedFont,
    /// A line holds no space between its name and its values.
    SplitFailed,
    /// A line does not have the name it should.
    WrongName,
    /// A value is not a decimal `i64`.
    BadNumber,
    /// A line has fewer values than needed.
    MissingValue,
    /// The number of properties is so large that the count of lines to skip
    /// overflows.
    PropertyCountOverflow,
    /// The number of characters is negative.
    NegativeCharCount,
    /// A character's device width differs from the font's width.
    NotMonospace,
    /// The line after a character's bounding box is not `BITMAP`.
    ExpectedBitmap,
    /// A bitmap row is not a hexadecimal `u32`.
    BadBitmapRow,
    /// The line after a character's bitmap is not `ENDCHAR`.
    ExpectedEndChar,
}

/// The position of the first space in `s`, if any.
pub open spec fn first_space(s: Seq<u8>) -> Option<int>
    decreases s.len(),
{
    if s.len() == 0 {
        None
    } else if s[0] == 0x20 {
        Some(0)
    } else {
        match first_space(s.drop_first()) {
            Some(k) => Some(k + 1),
            None => None,
        }
    }
}

/// The values of `s`, a list of decimal `i64` separated by single spaces, or
/// `None` if one of the pieces between spaces is not such a number.
pub open spec fn spec_values(s: Seq<u8>) -> Option<Seq<i64>>
    decreases s.len(),
{
    match first_space(s) {
        None => match spec_parse_i64(s) {
            Some(v) => Some(seq![v]),
            None => None,
        },
        Some(k) => match spec_parse_i64(s.subrange(0, k)) {
            None => None,
            Some(v) => {
                proof {
                    lemma_first_space(s);
                }
                match spec_values(s.subrange(k + 1, s.len() as int)) {
                    Some(rest) => Some(seq![v] + rest),
                    None => None,
                }
            },
        },
    }
}

/// The first space lies within the bytes.
pub proof fn lemma_first_space(s: Seq<u8>)
    ensures
        first_space(s) matches Some(k) ==> 0 <= k < s.len() && s[k] == 0x20 && forall|j: int|
            0 <= j < k ==> s[j] != 0x20,
        first_space(s) is None ==> forall|j: int| 0 <= j < s.len() ==> s[j] != 0x20,
    decreases s.len(),
{
    if s.len() > 0 && s[0] != 0x20 {
        lemma_first_space(s.drop_first());
        assert forall|j: int| 1 <= j < s.len() implies s[j] == s.drop_first()[j - 1] by {}
    }
}

/// The bytes of line `i`.
pub open spec fn line_bytes(b: Seq<u8>, lines: Seq<(int, int)>, i: int) -> Seq<u8> {
    b.subrange(lines[i].0, lines[i].1)
}

/// The values of line `i`, which must be named `name`.
pub open spec fn spec_get(b: Seq<u8>, lines: Seq<(int, int)>, i: int, name: Seq<u8>) -> Result<
    Seq<i64>,
    BdfError,
> {
    if i < 0 || i >= lines.len() {
        Err(BdfError::UnexpectedEnd)
    } else {
        let s = line_bytes(b, lines, i);
        match first_space(s) {
            None => Err(BdfError::SplitFailed),
            Some(k) => if s.subrange(0, k) != name {
                Err(BdfError::WrongName)
            } else {
                match spec_values(s.subrange(k + 1, s.len() as int)) {
                    None => Err(BdfError::BadNumber),
                    Some(v) => Ok(v),
                }
            },
        }
    }
}

/// Checks that line `i` is named `name` (and has a space after the name).
pub open spec fn spec_expect(b: Seq<u8>, lines: Seq<(int, int)>, i: int, name: Seq<u8>) -> Result<
    (),
    BdfError,
> {
    if i < 0 || i >= lines.len() {
        Err(BdfError::UnexpectedEnd)
    } else {
        let s = line_bytes(b, lines, i);
        match first_space(s) {
            None => Err(BdfError::SplitFailed),
            Some(k) => if s.subrange(0, k) != name {
                Err(BdfError::WrongName)
            } else {
                Ok(())
            },
        }
    }
}

/// Whether the byte ranges lie in `b`.
pub open spec fn ranges_in(b: Seq<u8>, lines: Seq<(int, int)>) -> bool {
    forall|i: int| 0 <= i < lines.len() ==> 0 <= (#[trigger] lines[i]).0 <= lines[i].1 <= b.len()
}

/// The position of the first space in `b[start..end]`, counted from `start`.
fn find_space(b: &[u8], start: usize, end: usize) -> (r: Option<usize>)
    requires
        start <= end <= b@.len(),
    ensures
        match first_space(b@.subrange(start as int, end as int)) {
            Some(k) => r == Some((start + k) as usize),
            None => r is None,
        },
{
    let ghost s = b@.subrange(start as int, end as int);
    let mut i = start;
    while i < end
        invariant
            start <= i <= end <= b@.len(),
            s == b@.subrange(start as int, end as int),
            forall|j: int| start <= j < i ==> b@[j] != 0x20,
        decreases end - i,
    {
        if b[i] == 0x20 {
            proof {
                lemma_first_space(s);
                lemma_first_space_is(s, i - start);
            }
            return Some(i);
        }
        i = i + 1;
    }
    proof {
        lemma_first_space(s);
        if first_space(s) is Some {
            let k = first_space(s)->0;
            assert(s[k] == b@[start + k]);
        }
    }
    None
}

/// A space with no space before it is the first space.
proof fn lemma_first_space_is(s: Seq<u8>, k: int)
    requires
        0 <= k < s.len(),
        s[k] == 0x20,
        forall|j: int| 0 <= j < k ==> s[j] != 0x20,
    ensures
        first_space(s) == Some(k),
    decreases k,
{
    if k > 0 {
        lemma_first_space_is(s.drop_first(), k - 1);
    }
}

/// Whether `b[start..end]` equals `lit`.
fn bytes_equal(b: &[u8], start: usize, end: usize, lit: &Vec<u8>) -> (r: bool)
    requires
        start <= end <= b@.len(),
    ensures
        r == (b@.subrange(start as int, end as int) == lit@),
{
    if end - start != lit.len() {
        return false;
    }
    let mut i: usize = 0;
    while i < lit.len()
        invariant
            start <= end <= b@.len(),
            end - start == lit@.len(),
            i <= lit@.len(),
            forall|j: int| 0 <= j < i ==> b@[start + j] == lit@[j],
        decreases lit@.len() - i,
    {
        if b[start + i] != lit[i] {
            proof {
                assert(b@.subrange(start as int, end as int)[i as int] != lit@[i as int]);
            }
            return false;
        }
        i = i + 1;
    }
    proof {
        assert(b@.subrange(start as int, end as int) =~= lit@);
    }
    true
}

/// Reads the values of `b[start..end]`: decimal `i64` separated by single
/// spaces.
pub fn values(b: &[u8], start: usize, end: usize) -> (r: Option<Vec<i64>>)
    requires
        start <= end <= b@.len(),
    ensures
        match spec_values(b@.subrange(start as int, end as int)) {
            Some(v) => r matches Some(w) && w@ == v,
            None => r is None,
        },
    decreases end - start,
{
    let ghost s = b@.subrange(start as int, end as int);
    match find_space(b, start, end) {
        None => match parse_i64(b, start, end) {
            Some(v) => {
                let mut w: Vec<i64> = Vec::new();
                w.push(v);
                proof {
                    assert(w@ =~= seq![v]);
                }
                Some(w)
            },
            None => None,
        },
        Some(k) => {
            proof {
                lemma_first_space(s);
                assert(s.subrange(0, k - start) =~= b@.subrange(start as int, k as int));
                assert(s.subrange(k - start + 1, s.len() as int) =~= b@.subrange(k + 1, end as int));
            }
            match parse_i64(b, start, k) {
                None => None,
                Some(v) => match values(b, k + 1, end) {
                    None => None,
                    Some(rest) => {
                        let mut w: Vec<i64> = Vec::new();
                        w.push(v);
                        let mut rest = rest;
                        w.append(&mut rest);
                        Some(w)
                    },
                },
            }
        },
    }
}

/// The name and the values of a line: the name is `b[start..r.0]`.
pub fn split(b: &[u8], start: usize, end: usize) -> (r: Result<(usize, Vec<i64>), BdfError>)
    requires
        start <= end <= b@.len(),
    ensures
        ({
            let s = b@.subrange(start as int, end as int);
            match first_space(s) {
                None => r == Err::<(usize, Vec<i64>), BdfError>(BdfError::SplitFailed),
                Some(k) => match spec_values(s.subrange(k + 1, s.len() as int)) {
                    None => r == Err::<(usize, Vec<i64>), BdfError>(BdfError::BadNumber),
                    Some(v) => r matches Ok(p) && p.0 == start + k && p.1@ == v,
                },
            }
        }),
{
    let ghost s = b@.subrange(start as int, end as int);
    match find_space(b, start, end) {
        None => Err(BdfError::SplitFailed),
        Some(k) => {
            proof {
                lemma_first_space(s);
                assert(s.subrange(k - start + 1, s.len() as int) =~= b@.subrange(k + 1, end as int));
            }
            match values(b, k + 1, end) {
                None => Err(BdfError::BadNumber),
                Some(v) => Ok((k, v)),
            }
        },
    }
}

/// The values of line `i`, which must be named `name`.
pub fn get(b: &[u8], lines: &Vec<(usize, usize)>, i: usize, name: &Vec<u8>) -> (r: Result<Vec<i64>, BdfError>)
    requires
        ranges_in(b@, int_ranges(lines@)),
    ensures
        match spec_get(b@, int_ranges(lines@), i as int, name@) {
            Ok(v) => r matches Ok(w) && w@ == v,
            Err(e) => r == Err::<Vec<i64>, BdfError>(e),
        },
{
    if i >= lines.len() {
        return Err(BdfError::UnexpectedEnd);
    }
    let (start, end) = lines[i];
    proof {
        assert(int_ranges(lines@)[i as int] == (start as int, end as int));
    }
    let ghost s = b@.subrange(start as int, end as int);
    match find_space(b, start, end) {
        None => Err(BdfError::SplitFailed),
        Some(k) => {
            proof {
                lemma_first_space(s);
                assert(s.subrange(0, k - start) =~= b@.subrange(start as int, k as int));
                assert(s.subrange(k - start + 1, s.len() as int) =~= b@.subrange(k + 1, end as int));
            }
            if !bytes_equal(b, start, k, name) {
                return Err(BdfError::WrongName);
            }
            match values(b, k + 1, end) {
                None => Err(BdfError::BadNumber),
                Some(v) => Ok(v),
            }
        },
    }
}

/// Checks that line `i` is named `name`.
pub fn expect(b: &[u8], lines: &Vec<(usize, usize)>, i: usize, name: &Vec<u8>) -> (r: Result<(), BdfError>)
    requires
        ranges_in(b@, int_ranges(lines@)),
    ensures
        r == spec_expect(b@, int_ranges(lines@), i as int, name@),
{
    if i >= lines.len() {
        return Err(BdfError::UnexpectedEnd);
    }
    let (start, end) = lines[i];
    proof {
        assert(int_ranges(lines@)[i as int] == (start as int, end as int));
    }
    let ghost s = b@.subrange(start as int, end as int);
    match find_space(b, start, end) {
        None => Err(BdfError::SplitFailed),
        Some(k) => {
            proof {
                lemma_first_space(s);
                assert(s.subrange(0, k - start) =~= b@.subrange(start as int, k as int));
            }
            if !bytes_equal(b, start, k, name) {
                return Err(BdfError::WrongName);
            }
            Ok(())
        },
    }
}

// ---------------------------------------------------------------------------
// The font
// ---------------------------------------------------------------------------

/// A glyph as the file gives it: code, bounding box, bitmap rows.
pub type GlyphSpec = (u32, BoundingBox, Seq<u32>);

/// The number of times a loop over `0..v as usize` runs.
pub open spec fn as_usize_count(v: i64) -> int {
    (v as usize) as int
}

/// The `count` bitmap rows starting at line `pos`.
pub open spec fn spec_rows(b: Seq<u8>, lines: Seq<(int, int)>, pos: int, count: nat) -> Result<
    Seq<u32>,
    BdfError,
>
    decreases count,
{
    if count == 0 {
        Ok(Seq::empty())
    } else if pos < 0 || pos >= lines.len() {
        Err(BdfError::UnexpectedEnd)
    } else {
        match spec_parse_hex_u32(line_bytes(b, lines, pos)) {
            None => Err(BdfError::BadBitmapRow),
            Some(v) => match spec_rows(b, lines, pos + 1, (count - 1) as nat) {
                Ok(rest) => Ok(seq![v] + rest),
                Err(e) => Err(e),
            },
        }
    }
}

/// Whether line `i` is exactly `word`.
pub open spec fn line_is(b: Seq<u8>, lines: Seq<(int, int)>, i: int, word: Seq<u8>) -> bool {
    line_bytes(b, lines, i) == word
}

/// The glyph whose block starts at line `pos` and the line after its block,
/// for a font of width `fw`.
pub open spec fn spec_char(b: Seq<u8>, lines: Seq<(int, int)>, pos: int, fw: i64) -> Result<
    (GlyphSpec, int),
    BdfError,
> {
    match spec_expect(b, lines, pos, keyword_bytes(Keyword::StartChar)) {
        Err(e) => Err(e),
        Ok(_) => match spec_get(b, lines, pos + 1, keyword_bytes(Keyword::Encoding)) {
            Err(e) => Err(e),
            Ok(enc) => if enc.len() < 1 {
                Err(BdfError::MissingValue)
            } else {
                match spec_expect(b, lines, pos + 2, keyword_bytes(Keyword::SWidth)) {
                    Err(e) => Err(e),
                    Ok(_) => match spec_get(b, lines, pos + 3, keyword_bytes(Keyword::DWidth)) {
                        Err(e) => Err(e),
                        Ok(dw) => if dw.len() < 1 {
                            Err(BdfError::MissingValue)
                        } else if dw[0] != fw {
                            Err(BdfError::NotMonospace)
                        } else {
                            match spec_get(b, lines, pos + 4, keyword_bytes(Keyword::Bbx)) {
                                Err(e) => Err(e),
                                Ok(bx) => if bx.len() < 4 {
                                    Err(BdfError::MissingValue)
                                } else if pos + 5 >= lines.len() {
                                    Err(BdfError::UnexpectedEnd)
                                } else if !line_is(b, lines, pos + 5, keyword_bytes(Keyword::Bitmap)) {
                                    Err(BdfError::ExpectedBitmap)
                                } else {
                                    let count = as_usize_count(bx[1]);
                                    match spec_rows(b, lines, pos + 6, count as nat) {
                                        Err(e) => Err(e),
                                        Ok(rows) => {
                                            let end = pos + 6 + count;
                                            if end >= lines.len() {
                                                Err(BdfError::UnexpectedEnd)
                                            } else if !line_is(b, lines, end, keyword_bytes(Keyword::EndChar)) {
                                                Err(BdfError::ExpectedEndChar)
                                            } else {
                                                Ok(((enc[0] as u32, BoundingBox(bx[0], bx[1], bx[2], bx[3]), rows), end + 1))
                                            }
                                        },
                                    }
                                },
                            }
                        },
                    },
                }
            },
        },
    }
}

/// The `n` glyphs whose blocks start at line `pos`, for a font of width `fw`.
pub open spec fn spec_chars(b: Seq<u8>, lines: Seq<(int, int)>, pos: int, n: int, fw: i64) -> Result<
    Seq<GlyphSpec>,
    BdfError,
>
    decreases n,
{
    if n <= 0 {
        Ok(Seq::empty())
    } else {
        match spec_char(b, lines, pos, fw) {
            Err(e) => Err(e),
            Ok((g, next)) => match spec_chars(b, lines, next, n - 1, fw) {
                Err(e) => Err(e),
                Ok(rest) => Ok(seq![g] + rest),
            },
        }
    }
}

/// The font that the file `b` describes: its bounding box and its glyphs,
/// or why it cannot be read.
pub open spec fn spec_bdf(b: Seq<u8>) -> Result<(BoundingBox, Seq<GlyphSpec>), BdfError> {
    let lines = lines_from(b, 0);
    if lines.len() == 0 {
        Err(BdfError::UnexpectedEnd)
    } else if !line_is(b, lines, 0, keyword_bytes(Keyword::StartFont)) {
        Err(BdfError::UnrecognizedFont)
    } else {
        match spec_expect(b, lines, 1, keyword_bytes(Keyword::Font)) {
            Err(e) => Err(e),
            Ok(_) => match spec_expect(b, lines, 2, keyword_bytes(Keyword::Size)) {
                Err(e) => Err(e),
                Ok(_) => match spec_get(b, lines, 3, keyword_bytes(Keyword::FontBoundingBox)) {
                    Err(e) => Err(e),
                    Ok(bb) => if bb.len() < 4 {
                        Err(BdfError::MissingValue)
                    } else {
                        match spec_get(b, lines, 4, keyword_bytes(Keyword::StartProperties)) {
                            Err(e) => Err(e),
                            Ok(pc) => if pc.len() < 1 {
                                Err(BdfError::MissingValue)
                            } else if as_usize_count(pc[0]) + 1 > usize::MAX {
                                Err(BdfError::PropertyCountOverflow)
                            } else {
                                let cpos = 5 + as_usize_count(pc[0]) + 1;
                                match spec_get(b, lines, cpos, keyword_bytes(Keyword::Chars)) {
                                    Err(e) => Err(e),
                                    Ok(cc) => if cc.len() < 1 {
                                        Err(BdfError::MissingValue)
                                    } else if cc[0] < 0 {
                                        Err(BdfError::NegativeCharCount)
                                    } else {
                                        match spec_chars(b, lines, cpos + 1, cc[0] as int, bb[0]) {
                                            Err(e) => Err(e),
                                            Ok(glyphs) => Ok((BoundingBox(bb[0], bb[1], bb[2], bb[3]), glyphs)),
                                        }
                                    },
                                }
                            },
                        }
                    },
                },
            },
        }
    }
}

/// Whether the glyph `c` is the glyph `g` of the file.
pub open spec fn char_is(c: Char, g: GlyphSpec) -> bool {
    c.0 == g.0 && c.1 == g.1 && c.2@ == g.2
}

/// Reads the `count` bitmap rows starting at line `pos`.
fn read_rows(b: &[u8], lines: &Vec<(usize, usize)>, pos: usize, count: usize) -> (r: Result<Vec<u32>, BdfError>)
    requires
        ranges_in(b@, int_ranges(lines@)),
    ensures
        match spec_rows(b@, int_ranges(lines@), pos as int, count as nat) {
            Ok(v) => r matches Ok(w) && w@ == v,
            Err(e) => r == Err::<Vec<u32>, BdfError>(e),
        },
{
    let ghost ls = int_ranges(lines@);
    let mut rows: Vec<u32> = Vec::new();
    let mut j: usize = 0;
    while j < count
        invariant
            ranges_in(b@, ls),
            ls == int_ranges(lines@),
            j <= count,
            pos + j <= usize::MAX || j == count,
            match spec_rows(b@, ls, pos as int, count as nat) {
                Ok(v) => spec_rows(b@, ls, pos + j, (count - j) as nat) matches Ok(t) && v == rows@ + t,
                Err(e) => spec_rows(b@, ls, pos + j, (count - j) as nat) == Err::<Seq<u32>, BdfError>(e),
            },
        decreases count - j,
    {
        if pos >= lines.len() || j >= lines.len() - pos {
            return Err(BdfError::UnexpectedEnd);
        }
        let (start, end) = lines[pos + j];
        proof {
            assert(ls[pos + j] == (start as int, end as int));
        }
        match parse_hex_u32(b, start, end) {
            None => {
                return Err(BdfError::BadBitmapRow);
            },
            Some(v) => {
                proof {
                    let ghost old_rows = rows@;
                    match spec_rows(b@, ls, pos as int, count as nat) {
                        Ok(whole) => {
                            let t = spec_rows(b@, ls, pos + j, (count - j) as nat)->Ok_0;
                            let t2 = spec_rows(b@, ls, pos + j + 1, (count - j - 1) as nat)->Ok_0;
                            assert(t == seq![v] + t2);
                            assert(whole == old_rows + t);
                            assert(whole =~= old_rows.push(v) + t2);
                        },
                        Err(e) => {},
                    }
                }
                rows.push(v);
            },
        }
        j = j + 1;
    }
    proof {
        assert(rows@ + Seq::<u32>::empty() =~= rows@);
    }
    Ok(rows)
}

/// Reads the glyph whose block starts at line `pos`; returns it with the line
/// after its block.
fn read_char(b: &[u8], lines: &Vec<(usize, usize)>, pos: usize, fw: i64) -> (r: Result<(Char, usize), BdfError>)
    requires
        ranges_in(b@, int_ranges(lines@)),
    ensures
        match spec_char(b@, int_ranges(lines@), pos as int, fw) {
            Ok((g, next)) => r matches Ok((c, n)) && char_is(c, g) && n == next,
            Err(e) => r matches Err(e2) && e2 == e,
        },
{
    let ghost ls = int_ranges(lines@);
    let n = lines.len();
    expect(b, lines, pos, &keyword(Keyword::StartChar))?;
    if pos >= n {
        return Err(BdfError::UnexpectedEnd);
    }
    let enc = get(b, lines, pos + 1, &keyword(Keyword::Encoding))?;
    if enc.len() < 1 {
        return Err(BdfError::MissingValue);
    }
    let encoding = enc[0] as u32;
    expect(b, lines, pos + 2, &keyword(Keyword::SWidth))?;
    let dw = get(b, lines, pos + 3, &keyword(Keyword::DWidth))?;
    if dw.len() < 1 {
        return Err(BdfError::MissingValue);
    }
    if dw[0] != fw {
        return Err(BdfError::NotMonospace);
    }
    let bx = get(b, lines, pos + 4, &keyword(Keyword::Bbx))?;
    if bx.len() < 4 {
        return Err(BdfError::MissingValue);
    }
    if pos + 5 >= n {
        return Err(BdfError::UnexpectedEnd);
    }
    let (ls5, le5) = lines[pos + 5];
    proof {
        assert(ls[pos + 5] == (ls5 as int, le5 as int));
    }
    if !bytes_equal(b, ls5, le5, &keyword(Keyword::Bitmap)) {
        return Err(BdfError::ExpectedBitmap);
    }
    let count = bx[1] as usize;
    let rows = read_rows(b, lines, pos + 6, count)?;
    proof {
        lemma_rows_fit(b@, ls, pos + 6, count as nat);
    }
    let end = pos + 6 + count;
    if end >= n {
        return Err(BdfError::UnexpectedEnd);
    }
    let (es, ee) = lines[end];
    proof {
        assert(ls[end as int] == (es as int, ee as int));
    }
    if !bytes_equal(b, es, ee, &keyword(Keyword::EndChar)) {
        return Err(BdfError::ExpectedEndChar);
    }
    let c = Char::new(encoding, BoundingBox::new(bx[0], bx[1], bx[2], bx[3]), rows);
    Ok((c, end + 1))
}

/// Rows that can all be read lie within the lines.
proof fn lemma_rows_fit(b: Seq<u8>, lines: Seq<(int, int)>, pos: int, count: nat)
    requires
        spec_rows(b, lines, pos, count) is Ok,
    ensures
        count == 0 || (0 <= pos && pos + count <= lines.len()),
    decreases count,
{
    if count > 0 {
        lemma_rows_fit(b, lines, pos + 1, (count - 1) as nat);
    }
}

/// Reads a font from the contents of a BDF file.
pub fn parse_bdf(b: &[u8]) -> (r: Result<Font, BdfError>)
    ensures
        match spec_bdf(b@) {
            Ok((bb, glyphs)) => r matches Ok(f) && f.0 == bb && f.1@.len() == glyphs.len()
                && forall|i: int| 0 <= i < glyphs.len() ==> char_is(#[trigger] f.1@[i], glyphs[i]),
            Err(e) => r matches Err(e2) && e2 == e,
        },
{
    let lines = split_lines(b);
    let ghost ls = int_ranges(lines@);
    proof {
        assert forall|i: int| 0 <= i < ls.len() implies 0 <= (#[trigger] ls[i]).0 <= ls[i].1 <= b@.len() by {
            assert(lines@[i].0 <= lines@[i].1);
        }
    }
    let n = lines.len();
    if n == 0 {
        return Err(BdfError::UnexpectedEnd);
    }
    let (s0, e0) = lines[0];
    proof {
        assert(ls[0] == (s0 as int, e0 as int));
    }
    if !bytes_equal(b, s0, e0, &keyword(Keyword::StartFont)) {
        return Err(BdfError::UnrecognizedFont);
    }
    expect(b, &lines, 1, &keyword(Keyword::Font))?;
    expect(b, &lines, 2, &keyword(Keyword::Size))?;
    let bb = get(b, &lines, 3, &keyword(Keyword::FontBoundingBox))?;
    if bb.len() < 4 {
        return Err(BdfError::MissingValue);
    }
    let pc = get(b, &lines, 4, &keyword(Keyword::StartProperties))?;
    if pc.len() < 1 {
        return Err(BdfError::MissingValue);
    }
    let skip = pc[0] as usize;
    if skip == usize::MAX {
        return Err(BdfError::PropertyCountOverflow);
    }
    let skip = skip + 1;
    if skip >= n || skip > usize::MAX - 5 {
        return Err(BdfError::UnexpectedEnd);
    }
    let cpos = 5 + skip;
    let cc = get(b, &lines, cpos, &keyword(Keyword::Chars))?;
    if cc.len() < 1 {
        return Err(BdfError::MissingValue);
    }
    let c_count = cc[0];
    if c_count < 0 {
        return Err(BdfError::NegativeCharCount);
    }
    let fw = bb[0];
    let ghost total = spec_chars(b@, ls, cpos + 1, c_count as int, fw);
    let ghost font_bb = BoundingBox(bb@[0], bb@[1], bb@[2], bb@[3]);
    assert(spec_bdf(b@) == match total {
        Ok(g) => Ok::<(BoundingBox, Seq<GlyphSpec>), BdfError>((font_bb, g)),
        Err(e) => Err(e),
    });
    let mut chars: Vec<Char> = Vec::new();
    let mut pos = cpos + 1;
    let mut k: i64 = 0;
    while k < c_count
        invariant
            ranges_in(b@, ls),
            ls == int_ranges(lines@),
            0 <= k <= c_count,
            total == spec_chars(b@, ls, cpos + 1, c_count as int, fw),
            spec_bdf(b@) == match total {
                Ok(g) => Ok::<(BoundingBox, Seq<GlyphSpec>), BdfError>((font_bb, g)),
                Err(e) => Err(e),
            },
            font_bb == BoundingBox(bb@[0], bb@[1], bb@[2], bb@[3]),
            bb@.len() >= 4,
            chars@.len() == k,
            match total {
                Ok(all) => spec_chars(b@, ls, pos as int, (c_count - k) as int, fw) matches Ok(rest)
                    && all.len() == k + rest.len()
                    && (forall|i: int| 0 <= i < k ==> char_is(#[trigger] chars@[i], all[i]))
                    && (forall|i: int| 0 <= i < rest.len() ==> #[trigger] rest[i] == all[k + i]),
                Err(e) => spec_chars(b@, ls, pos as int, (c_count - k) as int, fw) == Err::<Seq<GlyphSpec>, BdfError>(e),
            },
        decreases c_count - k,
    {
        let (c, next) = read_char(b, &lines, pos, fw)?;
        proof {
            match total {
                Ok(all) => {
                    let rest = spec_chars(b@, ls, pos as int, (c_count - k) as int, fw)->Ok_0;
                    let g = spec_char(b@, ls, pos as int, fw)->Ok_0.0;
                    let rest2 = spec_chars(b@, ls, next as int, (c_count - k - 1) as int, fw)->Ok_0;
                    assert(rest == seq![g] + rest2);
                    assert(rest[0] == g);
                    assert forall|i: int| 0 <= i < rest2.len() implies #[trigger] rest2[i] == all[k + 1 + i] by {
                        assert(rest[i + 1] == rest2[i]);
                    }
                },
                Err(e) => {},
            }
        }
        chars.push(c);
        pos = next;
        k = k + 1;
    }
    proof {
        match total {
            Ok(all) => {
                assert(forall|i: int| 0 <= i < k ==> char_is(#[trigger] chars@[i], all[i]));
            },
            Err(e) => {},
        }
    }
    Ok(Font(BoundingBox::new(bb[0], bb[1], bb[2], bb[3]), chars))
}

} // verus!
