//! The text that the bootloader writes to the UEFI console: UTF-16 strings,
//! and numbers in hexadecimal and decimal.

use vstd::prelude::*;

verus! {

/// The UTF-16 code units of one character.
pub open spec fn spec_utf16_char(c: char) -> Seq<u16> {
    let v = c as int;
    if v < 0x10000 {
        seq![v as u16]
    } else {
        seq![(0xD800 + (v - 0x10000) / 0x400) as u16, (0xDC00 + (v - 0x10000) % 0x400) as u16]
    }
}

/// The UTF-16 code units of a string.
pub open spec fn spec_utf16(s: Seq<char>) -> Seq<u16>
    decreases s.len(),
{
    if s.len() == 0 {
        Seq::empty()
    } else {
        spec_utf16(s.drop_last()) + spec_utf16_char(s.last())
    }
}

/// The code units the console prints for a string: its UTF-16 code units,
/// with a carriage return after each line feed.
pub open spec fn spec_console_units(units: Seq<u16>) -> Seq<u16>
    decreases units.len(),
{
    if units.len() == 0 {
        Seq::empty()
    } else {
        spec_console_units(units.drop_last()) + if units.last() == 0x0A {
            seq![0x0Au16, 0x0Du16]
        } else {
            seq![units.last()]
        }
    }
}

/// Appends the UTF-16 code units of `c` to `out`.
pub fn push_utf16(out: &mut Vec<u16>, c: char)
    ensures
        final(out)@ == old(out)@ + spec_utf16_char(c),
{
    let v = c as u32;
    if v < 0x10000 {
        out.push(v as u16);
    } else {
        proof {
            assert(v <= 0x10FFFF);
        }
        let w = v - 0x10000;
        out.push((0xD800 + w / 0x400) as u16);
        out.push((0xDC00 + w % 0x400) as u16);
    }
    proof {
        assert(final(out)@ =~= old(out)@ + spec_utf16_char(c));
    }
}

/// The UTF-16 code units of `s`.
pub fn utf16_units(s: &str) -> (r: Vec<u16>)
    ensures
        r@ == spec_utf16(s@),
{
    let mut out: Vec<u16> = Vec::new();
    for c in it: s.chars()
        invariant
            it.seq() == s@,
            out@ == spec_utf16(s@.take(it.index() as int)),
    {
        proof {
            let t = s@.take(it.index() + 1);
            assert(t.drop_last() =~= s@.take(it.index() as int));
        }
        push_utf16(&mut out, c);
    }
    proof {
        assert(s@.take(s@.len() as int) =~= s@);
    }
    out
}

/// The null-terminated UTF-16 string that UEFI takes for `s`.
pub fn uefi_string(s: &str) -> (r: Vec<u16>)
    ensures
        r@ == spec_utf16(s@).push(0),
{
    let mut out = utf16_units(s);
    out.push(0);
    out
}

/// The code units the console prints for the string `s`: each line feed is
/// followed by a carriage return.
pub fn console_units(s: &str) -> (r: Vec<u16>)
    ensures
        r@ == spec_console_units(spec_utf16(s@)),
{
    let units = utf16_units(s);
    let mut out: Vec<u16> = Vec::new();
    let mut i: usize = 0;
    while i < units.len()
        invariant
            i <= units@.len(),
            out@ == spec_console_units(units@.take(i as int)),
        decreases units@.len() - i,
    {
        proof {
            let t = units@.take(i + 1);
            assert(t.drop_last() =~= units@.take(i as int));
        }
        let c = units[i];
        if c == 0x0A {
            out.push(0x0A);
            out.push(0x0D);
        } else {
            out.push(c);
        }
        proof {
            let t = units@.take(i + 1);
            assert(out@ =~= spec_console_units(t));
        }
        i = i + 1;
    }
    proof {
        assert(units@.take(units@.len() as int) =~= units@);
    }
    out
}

/// The ASCII code of the hexadecimal digit `d`, in upper case.
pub open spec fn hex_char(d: nat) -> u16 {
    if d < 10 {
        (0x30 + d) as u16
    } else {
        (0x37 + d) as u16
    }
}

/// The hexadecimal digits of `n`, most significant first, without leading
/// zeros; `0` for zero.
pub open spec fn spec_hex(n: nat) -> Seq<u16>
    decreases n,
{
    if n < 16 {
        seq![hex_char(n)]
    } else {
        spec_hex(n / 16).push(hex_char(n % 16))
    }
}

/// The decimal digits of `n`, most significant first, without leading zeros;
/// nothing for zero.
pub open spec fn spec_dec_digits(n: nat) -> Seq<u16>
    decreases n,
{
    if n == 0 {
        Seq::empty()
    } else {
        spec_dec_digits(n / 10).push((0x30 + n % 10) as u16)
    }
}

/// `10` to the power 38, the largest power of ten the console prints a digit
/// for.
pub const DEC_LIMIT: u128 = 100000000000000000000000000000000000000u128;

/// What the console prints for `n` in decimal: `0` for zero; otherwise the
/// digits of the lower 38 decimal places of `n` without leading zeros, which
/// is nothing when those places are all zero.
pub open spec fn spec_dec(n: nat) -> Seq<u16> {
    if n == 0 {
        seq![0x30u16]
    } else {
        spec_dec_digits(n % DEC_LIMIT as nat)
    }
}

fn push_hex(out: &mut Vec<u16>, n: u128)
    ensures
        final(out)@ == old(out)@ + spec_hex(n as nat),
    decreases n,
{
    if n >= 16 {
        push_hex(out, n / 16);
    }
    let d = (n % 16) as u16;
    let c = if d < 10 {
        0x30 + d
    } else {
        0x37 + d
    };
    out.push(c);
    proof {
        assert(final(out)@ =~= old(out)@ + spec_hex(n as nat));
    }
}

fn push_dec(out: &mut Vec<u16>, n: u128)
    ensures
        final(out)@ == old(out)@ + spec_dec_digits(n as nat),
    decreases n,
{
    if n == 0 {
        proof {
            assert(final(out)@ =~= old(out)@ + spec_dec_digits(n as nat));
        }
        return;
    }
    push_dec(out, n / 10);
    let d = (n % 10) as u16;
    out.push(0x30 + d);
    proof {
        assert(final(out)@ =~= old(out)@ + spec_dec_digits(n as nat));
    }
}

/// The characters the console prints for `num` in hexadecimal.
pub fn hex_digits(num: u128) -> (r: Vec<u16>)
    ensures
        r@ == spec_hex(num as nat),
{
    let mut out: Vec<u16> = Vec::new();
    push_hex(&mut out, num);
    proof {
        assert(out@ =~= spec_hex(num as nat));
    }
    out
}

/// The characters the console prints for `num` in decimal.
pub fn dec_digits(num: u128) -> (r: Vec<u16>)
    ensures
        r@ == spec_dec(num as nat),
{
    let mut out: Vec<u16> = Vec::new();
    if num == 0 {
        out.push(0x30);
        proof {
            assert(out@ =~= spec_dec(num as nat));
        }
        return out;
    }
    push_dec(&mut out, num % DEC_LIMIT);
    proof {
        assert(out@ =~= spec_dec(num as nat));
    }
    out
}

/// The value of a hexadecimal digit character.
pub open spec fn hex_char_value(c: u16) -> int {
    if c <= 0x39 {
        c - 0x30
    } else {
        c - 0x37
    }
}

/// The number that a sequence of upper-case hexadecimal digit characters
/// writes.
pub open spec fn read_hex(s: Seq<u16>) -> int
    decreases s.len(),
{
    if s.len() == 0 {
        0
    } else {
        read_hex(s.drop_last()) * 16 + hex_char_value(s.last())
    }
}

/// The number that a sequence of decimal digit characters writes.
pub open spec fn read_dec(s: Seq<u16>) -> int
    decreases s.len(),
{
    if s.len() == 0 {
        0
    } else {
        read_dec(s.drop_last()) * 10 + (s.last() - 0x30)
    }
}

/// Reading back what the console prints in hexadecimal gives the number, and
/// the first digit is not a zero unless the number is zero.
pub proof fn lemma_hex_roundtrip(n: nat)
    ensures
        read_hex(spec_hex(n)) == n,
        spec_hex(n).len() >= 1,
        n > 0 ==> spec_hex(n)[0] != 0x30,
    decreases n,
{
    if n >= 16 {
        lemma_hex_roundtrip(n / 16);
        lemma_hex_char(n % 16);
        assert(spec_hex(n).drop_last() =~= spec_hex(n / 16));
        assert(spec_hex(n)[0] == spec_hex(n / 16)[0]);
    } else {
        lemma_hex_char(n);
        assert(spec_hex(n).drop_last() =~= Seq::<u16>::empty());
        reveal_with_fuel(read_hex, 2);
    }
}

proof fn lemma_hex_char(d: nat)
    requires
        d < 16,
    ensures
        hex_char_value(hex_char(d)) == d,
        d > 0 ==> hex_char(d) != 0x30,
{
}

/// Reading back what the console prints in decimal gives the number modulo
/// `10` to the power 38 (the console prints no digit beyond), or 0 for
/// zero, and the first digit is never a zero unless it is the only one.
pub proof fn lemma_dec_roundtrip(n: nat)
    ensures
        read_dec(spec_dec(n)) == n % (DEC_LIMIT as nat),
        spec_dec(n).len() > 1 ==> spec_dec(n)[0] != 0x30,
{
    if n != 0 {
        lemma_dec_digits_roundtrip(n % (DEC_LIMIT as nat));
    } else {
        assert(read_dec(seq![0x30u16]) == 0) by {
            assert(seq![0x30u16].drop_last() =~= Seq::<u16>::empty());
            reveal_with_fuel(read_dec, 2);
        }
    }
}

proof fn lemma_dec_digits_roundtrip(m: nat)
    ensures
        read_dec(spec_dec_digits(m)) == m,
        spec_dec_digits(m).len() > 0 ==> spec_dec_digits(m)[0] != 0x30,
        m > 0 <==> spec_dec_digits(m).len() > 0,
    decreases m,
{
    if m > 0 {
        lemma_dec_digits_roundtrip(m / 10);
        assert(spec_dec_digits(m).drop_last() =~= spec_dec_digits(m / 10));
        if m / 10 > 0 {
            assert(spec_dec_digits(m)[0] == spec_dec_digits(m / 10)[0]);
        }
    }
}

} // verus!
