//! Bounds-checked accessors for fixed-width integers stored in byte buffers.
//!
//! Every accessor takes the buffer and the offset of the first byte of the
//! field. The value of a field is the number whose base-256 digits are the
//! field's bytes, in the order that the accessor's name gives.

use vstd::prelude::*;

verus! {

/// The value of the two bytes at `i`, least significant byte first.
pub open spec fn le16(s: Seq<u8>, i: int) -> nat {
    (s[i] as nat) + 0x100 * (s[i + 1] as nat)
}

/// The value of the four bytes at `i`, least significant byte first.
pub open spec fn le32(s: Seq<u8>, i: int) -> nat {
    le16(s, i) + 0x1_0000 * le16(s, i + 2)
}

/// The value of the eight bytes at `i`, least significant byte first.
pub open spec fn le64(s: Seq<u8>, i: int) -> nat {
    le32(s, i) + 0x1_0000_0000 * le32(s, i + 4)
}

/// The value of the two bytes at `i`, most significant byte first.
pub open spec fn be16(s: Seq<u8>, i: int) -> nat {
    0x100 * (s[i] as nat) + (s[i + 1] as nat)
}

/// The value of the four bytes at `i`, most significant byte first.
pub open spec fn be32(s: Seq<u8>, i: int) -> nat {
    0x1_0000 * be16(s, i) + be16(s, i + 2)
}

/// The value of the eight bytes at `i`, most significant byte first.
pub open spec fn be64(s: Seq<u8>, i: int) -> nat {
    0x1_0000_0000 * be32(s, i) + be32(s, i + 4)
}

/// Digit `k` of `v` in base 256, digit 0 being the least significant.
pub open spec fn digit(v: nat, k: nat) -> u8 {
    if k == 0 {
        (v % 0x100) as u8
    } else if k == 1 {
        (v / 0x100 % 0x100) as u8
    } else if k == 2 {
        (v / 0x1_0000 % 0x100) as u8
    } else if k == 3 {
        (v / 0x100_0000 % 0x100) as u8
    } else if k == 4 {
        (v / 0x1_0000_0000 % 0x100) as u8
    } else if k == 5 {
        (v / 0x100_0000_0000 % 0x100) as u8
    } else if k == 6 {
        (v / 0x1_0000_0000_0000 % 0x100) as u8
    } else {
        (v / 0x100_0000_0000_0000 % 0x100) as u8
    }
}

/// `s` with the `n` bytes at `i` replaced by the `n` low digits of `v`, least
/// significant first.
pub open spec fn put_le(s: Seq<u8>, i: int, v: nat, n: nat) -> Seq<u8> {
    Seq::new(s.len(), |j: int| if i <= j < i + n { digit(v, (j - i) as nat) } else { s[j] })
}

/// `s` with the `n` bytes at `i` replaced by the `n` low digits of `v`, most
/// significant first.
pub open spec fn put_be(s: Seq<u8>, i: int, v: nat, n: nat) -> Seq<u8> {
    Seq::new(s.len(), |j: int| if i <= j < i + n { digit(v, (i + n - 1 - j) as nat) } else { s[j] })
}

/// Reads the byte at offset `i` of `p`.
pub fn read_u8(p: &[u8], i: usize) -> (v: u8)
    requires
        i < p.len(),
    ensures
        v == p@[i as int],
{
    p[i]
}

/// Reads the little-endian `u16` at offset `i` of `p`.
pub fn read_u16_le(p: &[u8], i: usize) -> (v: u16)
    requires
        i + 2 <= p.len(),
    ensures
        v == le16(p@, i as int),
{
    p[i] as u16 + p[i + 1] as u16 * 0x100
}

/// Stores `v` at offset `i` of `p`, least significant byte first. The rest of
/// the buffer is unchanged, and reading the field back gives `v`.
pub fn write_u16_le(p: &mut [u8], i: usize, v: u16)
    requires
        i + 2 <= old(p).len(),
    ensures
        final(p)@ == put_le(old(p)@, i as int, v as nat, 2),
        le16(final(p)@, i as int) == v,
{
    p[i] = (v % 0x100) as u8;
    p[i + 1] = (v / 0x100) as u8;
    assert(p@ =~= put_le(old(p)@, i as int, v as nat, 2));
}

/// Reads the big-endian `u16` at offset `i` of `p`.
pub fn read_u16_be(p: &[u8], i: usize) -> (v: u16)
    requires
        i + 2 <= p.len(),
    ensures
        v == be16(p@, i as int),
{
    p[i] as u16 * 0x100 + p[i + 1] as u16
}

/// Stores `v` at offset `i` of `p`, most significant byte first. The rest of
/// the buffer is unchanged, and reading the field back gives `v`.
pub fn write_u16_be(p: &mut [u8], i: usize, v: u16)
    requires
        i + 2 <= old(p).len(),
    ensures
        final(p)@ == put_be(old(p)@, i as int, v as nat, 2),
        be16(final(p)@, i as int) == v,
{
    p[i] = (v / 0x100) as u8;
    p[i + 1] = (v % 0x100) as u8;
    assert(p@ =~= put_be(old(p)@, i as int, v as nat, 2));
}

/// Reads the little-endian `u32` at offset `i` of `p`.
pub fn read_u32_le(p: &[u8], i: usize) -> (v: u32)
    requires
        i + 4 <= p.len(),
    ensures
        v == le32(p@, i as int),
{
    read_u16_le(p, i) as u32 + read_u16_le(p, i + 2) as u32 * 0x1_0000
}

/// Stores `v` at offset `i` of `p`, least significant byte first. The rest of
/// the buffer is unchanged, and reading the field back gives `v`.
pub fn write_u32_le(p: &mut [u8], i: usize, v: u32)
    requires
        i + 4 <= old(p).len(),
    ensures
        final(p)@ == put_le(old(p)@, i as int, v as nat, 4),
        le32(final(p)@, i as int) == v,
{
    write_u16_le(p, i, (v % 0x1_0000) as u16);
    write_u16_le(p, i + 2, (v / 0x1_0000) as u16);
    assert(p@ =~= put_le(old(p)@, i as int, v as nat, 4));
}

/// Reads the big-endian `u32` at offset `i` of `p`.
pub fn read_u32_be(p: &[u8], i: usize) -> (v: u32)
    requires
        i + 4 <= p.len(),
    ensures
        v == be32(p@, i as int),
{
    read_u16_be(p, i) as u32 * 0x1_0000 + read_u16_be(p, i + 2) as u32
}

/// Stores `v` at offset `i` of `p`, most significant byte first. The rest of
/// the buffer is unchanged, and reading the field back gives `v`.
pub fn write_u32_be(p: &mut [u8], i: usize, v: u32)
    requires
        i + 4 <= old(p).len(),
    ensures
        final(p)@ == put_be(old(p)@, i as int, v as nat, 4),
        be32(final(p)@, i as int) == v,
{
    write_u16_be(p, i, (v / 0x1_0000) as u16);
    write_u16_be(p, i + 2, (v % 0x1_0000) as u16);
    assert(p@ =~= put_be(old(p)@, i as int, v as nat, 4));
}

/// The digits of the two halves of a 64-bit value are the digits of the value.
proof fn lemma_digits_of_halves(v: u64)
    ensures
        forall|k: nat|
            k < 4 ==> #[trigger] digit((v % 0x1_0000_0000) as nat, k) == digit(v as nat, k),
        forall|k: nat|
            k < 4 ==> #[trigger] digit((v / 0x1_0000_0000) as nat, k) == digit(v as nat, k + 4),
{
    let lo = v % 0x1_0000_0000;
    let hi = v / 0x1_0000_0000;
    assert(lo % 0x100 == v % 0x100) by (bit_vector)
        requires
            lo == v % 0x1_0000_0000,
    ;
    assert(lo / 0x100 % 0x100 == v / 0x100 % 0x100) by (bit_vector)
        requires
            lo == v % 0x1_0000_0000,
    ;
    assert(lo / 0x1_0000 % 0x100 == v / 0x1_0000 % 0x100) by (bit_vector)
        requires
            lo == v % 0x1_0000_0000,
    ;
    assert(lo / 0x100_0000 % 0x100 == v / 0x100_0000 % 0x100) by (bit_vector)
        requires
            lo == v % 0x1_0000_0000,
    ;
    assert(hi % 0x100 == v / 0x1_0000_0000 % 0x100) by (bit_vector)
        requires
            hi == v / 0x1_0000_0000,
    ;
    assert(hi / 0x100 % 0x100 == v / 0x100_0000_0000 % 0x100) by (bit_vector)
        requires
            hi == v / 0x1_0000_0000,
    ;
    assert(hi / 0x1_0000 % 0x100 == v / 0x1_0000_0000_0000 % 0x100) by (bit_vector)
        requires
            hi == v / 0x1_0000_0000,
    ;
    assert(hi / 0x100_0000 % 0x100 == v / 0x100_0000_0000_0000 % 0x100) by (bit_vector)
        requires
            hi == v / 0x1_0000_0000,
    ;
}

/// Reads the little-endian `u64` at offset `i` of `p`.
pub fn read_u64_le(p: &[u8], i: usize) -> (v: u64)
    requires
        i + 8 <= p.len(),
    ensures
        v == le64(p@, i as int),
{
    read_u32_le(p, i) as u64 + read_u32_le(p, i + 4) as u64 * 0x1_0000_0000
}

/// Stores `v` at offset `i` of `p`, least significant byte first. The rest of
/// the buffer is unchanged, and reading the field back gives `v`.
pub fn write_u64_le(p: &mut [u8], i: usize, v: u64)
    requires
        i + 8 <= old(p).len(),
    ensures
        final(p)@ == put_le(old(p)@, i as int, v as nat, 8),
        le64(final(p)@, i as int) == v,
{
    write_u32_le(p, i, (v % 0x1_0000_0000) as u32);
    write_u32_le(p, i + 4, (v / 0x1_0000_0000) as u32);
    proof {
        lemma_digits_of_halves(v);
    }
    assert(p@ =~= put_le(old(p)@, i as int, v as nat, 8));
}

/// Reads the big-endian `u64` at offset `i` of `p`.
pub fn read_u64_be(p: &[u8], i: usize) -> (v: u64)
    requires
        i + 8 <= p.len(),
    ensures
        v == be64(p@, i as int),
{
    read_u32_be(p, i) as u64 * 0x1_0000_0000 + read_u32_be(p, i + 4) as u64
}

/// Stores `v` at offset `i` of `p`, most significant byte first. The rest of
/// the buffer is unchanged, and reading the field back gives `v`.
pub fn write_u64_be(p: &mut [u8], i: usize, v: u64)
    requires
        i + 8 <= old(p).len(),
    ensures
        final(p)@ == put_be(old(p)@, i as int, v as nat, 8),
        be64(final(p)@, i as int) == v,
{
    write_u32_be(p, i, (v / 0x1_0000_0000) as u32);
    write_u32_be(p, i + 4, (v % 0x1_0000_0000) as u32);
    proof {
        lemma_digits_of_halves(v);
    }
    assert(p@ =~= put_be(old(p)@, i as int, v as nat, 8));
}

/// A value of `n` bytes is the number that its `n` low digits spell.
pub proof fn lemma_digits_spell(v: nat)
    ensures
        v < 0x1_0000 ==> v == digit(v, 0) + 0x100 * digit(v, 1),
        v < 0x1_0000_0000 ==> v == digit(v, 0) + 0x100 * digit(v, 1) + 0x1_0000 * (digit(v, 2)
            + 0x100 * digit(v, 3)),
{
}

/// Reading a little-endian field of two bytes that was put gives the value.
pub proof fn lemma_le16_put(s: Seq<u8>, i: int, v: nat)
    requires
        0 <= i,
        i + 2 <= s.len(),
        v < 0x1_0000,
    ensures
        le16(put_le(s, i, v, 2), i) == v,
{
    lemma_digits_spell(v);
}

/// Reading a little-endian field of four bytes that was put gives the value.
pub proof fn lemma_le32_put(s: Seq<u8>, i: int, v: nat)
    requires
        0 <= i,
        i + 4 <= s.len(),
        v < 0x1_0000_0000,
    ensures
        le32(put_le(s, i, v, 4), i) == v,
{
    lemma_digits_spell(v);
}

/// Putting a field changes no byte outside the field.
pub proof fn lemma_put_le_frame(s: Seq<u8>, i: int, v: nat, n: nat, j: int)
    requires
        0 <= j < s.len(),
        j < i || j >= i + n,
    ensures
        put_le(s, i, v, n)[j] == s[j],
        put_le(s, i, v, n).len() == s.len(),
{
}

} // verus!
