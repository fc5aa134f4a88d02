//! Reading and writing little- and big-endian integers in byte buffers.

use vstd::prelude::*;

verus! {

/// `256` to the power `n`.
pub open spec fn pow256(n: nat) -> nat
    decreases n,
{
    if n == 0 {
        1
    } else {
        256 * pow256((n - 1) as nat)
    }
}

/// The unsigned integer that the bytes `s` encode, least significant first.
pub open spec fn le_value(s: Seq<u8>) -> nat
    decreases s.len(),
{
    if s.len() == 0 {
        0
    } else {
        s[0] as nat + 256 * le_value(s.drop_first())
    }
}

/// The unsigned integer that the bytes `s` encode, most significant first.
pub open spec fn be_value(s: Seq<u8>) -> nat
    decreases s.len(),
{
    if s.len() == 0 {
        0
    } else {
        be_value(s.drop_last()) * 256 + s.last() as nat
    }
}

/// The `size`-byte integer at `offset` in `bytes`, big-endian if `flip`,
/// little-endian otherwise.
pub open spec fn field_value(bytes: Seq<u8>, offset: int, size: int, flip: bool) -> nat {
    let s = bytes.subrange(offset, offset + size);
    if flip {
        be_value(s)
    } else {
        le_value(s)
    }
}

/// The little-endian `size`-byte integer at `offset` in `bytes`.
pub open spec fn le_at(bytes: Seq<u8>, offset: int, size: int) -> nat {
    le_value(bytes.subrange(offset, offset + size))
}

/// The powers of 256 that byte fields use.
pub proof fn lemma_pow256_values()
    ensures
        pow256(0) == 1,
        pow256(1) == 0x100,
        pow256(2) == 0x1_0000,
        pow256(4) == 0x1_0000_0000,
        pow256(7) == 0x100_0000_0000_0000,
        pow256(8) == 0x1_0000_0000_0000_0000,
{
    reveal_with_fuel(pow256, 9);
}

/// Powers of 256 grow with the exponent and are at least 1.
pub proof fn lemma_pow256_mono(a: nat, b: nat)
    requires
        a <= b,
    ensures
        pow256(a) <= pow256(b),
        pow256(a) >= 1,
    decreases b,
{
    if b > a {
        lemma_pow256_mono(a, (b - 1) as nat);
    } else if a > 0 {
        lemma_pow256_mono((a - 1) as nat, (a - 1) as nat);
    }
}

pub proof fn lemma_le_value_bound(s: Seq<u8>)
    ensures
        le_value(s) < pow256(s.len()),
    decreases s.len(),
{
    if s.len() > 0 {
        lemma_le_value_bound(s.drop_first());
    }
}

pub proof fn lemma_be_value_bound(s: Seq<u8>)
    ensures
        be_value(s) < pow256(s.len()),
    decreases s.len(),
{
    if s.len() > 0 {
        lemma_be_value_bound(s.drop_last());
    }
}

/// A field of at most eight bytes fits in a `u64`.
pub proof fn lemma_field_bound(bytes: Seq<u8>, offset: int, size: int, flip: bool)
    requires
        0 <= offset,
        0 <= size <= 8,
        offset + size <= bytes.len(),
    ensures
        field_value(bytes, offset, size, flip) < pow256(size as nat),
        field_value(bytes, offset, size, flip) < 0x1_0000_0000_0000_0000,
{
    let s = bytes.subrange(offset, offset + size);
    lemma_le_value_bound(s);
    lemma_be_value_bound(s);
    lemma_pow256_mono(size as nat, 8);
    lemma_pow256_values();
}

/// Reads the `size`-byte integer at `offset` in `binary`, most significant
/// byte first if `flip_bytes`, least significant byte first otherwise.
pub fn read_value(binary: &[u8], offset: usize, size: usize, flip_bytes: bool) -> (r: u64)
    requires
        size <= 8,
        offset + size <= binary@.len(),
    ensures
        r == field_value(binary@, offset as int, size as int, flip_bytes),
{
    let ghost b = binary@;
    let _len = binary.len();
    proof {
        lemma_pow256_values();
    }
    if flip_bytes {
        let mut v: u64 = 0;
        let mut i: usize = 0;
        while i < size
            invariant
                size <= 8,
                offset + size <= b.len(),
                offset + size <= usize::MAX,
                b == binary@,
                i <= size,
                v == be_value(b.subrange(offset as int, offset + i)),
                pow256(7) == 0x100_0000_0000_0000,
            decreases size - i,
        {
            proof {
                let s = b.subrange(offset as int, offset + i + 1);
                assert(s.drop_last() =~= b.subrange(offset as int, offset + i));
                lemma_be_value_bound(b.subrange(offset as int, offset + i));
                lemma_pow256_mono(i as nat, 7);
            }
            v = v * 256 + binary[offset + i] as u64;
            i = i + 1;
        }
        v
    } else {
        let mut v: u64 = 0;
        let mut i: usize = size;
        while i > 0
            invariant
                size <= 8,
                offset + size <= b.len(),
                offset + size <= usize::MAX,
                b == binary@,
                i <= size,
                v == le_value(b.subrange(offset + i, offset + size)),
                pow256(7) == 0x100_0000_0000_0000,
            decreases i,
        {
            proof {
                let s = b.subrange(offset + i - 1, offset + size);
                assert(s.drop_first() =~= b.subrange(offset + i, offset + size));
                lemma_le_value_bound(b.subrange(offset + i, offset + size));
                lemma_pow256_mono((size - i) as nat, 7);
            }
            i = i - 1;
            v = v * 256 + binary[offset + i] as u64;
        }
        v
    }
}

/// Reads the `u16` at `offset`, big-endian if `flip_bytes`.
pub fn read_u16(binary: &[u8], offset: usize, flip_bytes: bool) -> (r: u16)
    requires
        offset + 2 <= binary@.len(),
    ensures
        r == field_value(binary@, offset as int, 2, flip_bytes),
{
    proof {
        lemma_field_bound(binary@, offset as int, 2, flip_bytes);
        lemma_pow256_values();
    }
    read_value(binary, offset, 2, flip_bytes) as u16
}

/// Reads the `u32` at `offset`, big-endian if `flip_bytes`.
pub fn read_u32(binary: &[u8], offset: usize, flip_bytes: bool) -> (r: u32)
    requires
        offset + 4 <= binary@.len(),
    ensures
        r == field_value(binary@, offset as int, 4, flip_bytes),
{
    proof {
        lemma_field_bound(binary@, offset as int, 4, flip_bytes);
        lemma_pow256_values();
    }
    read_value(binary, offset, 4, flip_bytes) as u32
}

/// Reads the `u64` at `offset`, big-endian if `flip_bytes`.
pub fn read_u64(binary: &[u8], offset: usize, flip_bytes: bool) -> (r: u64)
    requires
        offset + 8 <= binary@.len(),
    ensures
        r == field_value(binary@, offset as int, 8, flip_bytes),
{
    read_value(binary, offset, 8, flip_bytes)
}

} // verus!
