//! Big-endian conversion between integers and bytes.
use vstd::prelude::*;

verus! {

/// The four bytes of `v`, most significant first.
pub open spec fn be32(v: u32) -> Seq<u8> {
    seq![(v >> 24u32) as u8, (v >> 16u32) as u8, (v >> 8u32) as u8, v as u8]
}

/// The value of four bytes read most significant first.
pub open spec fn be32_value(b0: u8, b1: u8, b2: u8, b3: u8) -> u32 {
    ((b0 as u32) << 24u32) | ((b1 as u32) << 16u32) | ((b2 as u32) << 8u32) | (b3 as u32)
}

pub fn to_be32(v: u32) -> (r: [u8; 4])
    ensures
        r@ == be32(v),
{
    let r = [(v >> 24u32) as u8, (v >> 16u32) as u8, (v >> 8u32) as u8, v as u8];
    assert(r@ =~= be32(v));
    r
}

pub fn from_be32(b0: u8, b1: u8, b2: u8, b3: u8) -> (r: u32)
    ensures
        r == be32_value(b0, b1, b2, b3),
{
    ((b0 as u32) << 24u32) | ((b1 as u32) << 16u32) | ((b2 as u32) << 8u32) | (b3 as u32)
}

pub proof fn lemma_be32_roundtrip(v: u32)
    ensures
        be32_value(be32(v)[0], be32(v)[1], be32(v)[2], be32(v)[3]) == v,
{
    assert((((((v >> 24u32) as u8) as u32) << 24u32) | ((((v >> 16u32) as u8) as u32) << 16u32)
        | ((((v >> 8u32) as u8) as u32) << 8u32) | (((v as u8) as u32))) == v) by (bit_vector);
}

pub proof fn lemma_be32_value_roundtrip(b0: u8, b1: u8, b2: u8, b3: u8)
    ensures
        be32(be32_value(b0, b1, b2, b3)) == seq![b0, b1, b2, b3],
{
    let v = be32_value(b0, b1, b2, b3);
    assert(((v >> 24u32) as u8) == b0 && ((v >> 16u32) as u8) == b1 && ((v >> 8u32) as u8) == b2 && (v as u8) == b3) by (bit_vector)
        requires v == ((b0 as u32) << 24u32) | ((b1 as u32) << 16u32) | ((b2 as u32) << 8u32) | (b3 as u32);
    assert(be32(v) =~= seq![b0, b1, b2, b3]);
}

/// Appends the bytes of `src` to `buf`.
pub fn extend_bytes(buf: &mut Vec<u8>, src: &[u8])
    ensures
        final(buf)@ == old(buf)@ + src@,
{
    let ghost before = buf@;
    buf.extend_from_slice(src);
    assert forall|i: int| 0 <= i < buf@.len() implies buf@[i] == (before + src@)[i] by {
        if i >= before.len() {
            assert(cloned::<u8>(src@[i - before.len()], buf@[i]));
        }
    }
    assert(buf@ =~= before + src@);
}

/// The bytes of `v` expressed with division and remainder.
pub proof fn lemma_be32_arith(v: u32)
    ensures
        (v >> 24u32) as u8 == v / 0x100_0000,
        (v >> 16u32) as u8 == (v / 0x1_0000) % 0x100,
        (v >> 8u32) as u8 == (v / 0x100) % 0x100,
        v as u8 == v % 0x100,
{
    assert((v >> 24u32) as u8 == v / 0x100_0000 && (v >> 16u32) as u8 == (v / 0x1_0000) % 0x100
        && (v >> 8u32) as u8 == (v / 0x100) % 0x100 && v as u8 == v % 0x100) by (bit_vector);
}

/// The two bytes of `v`, most significant first.
pub open spec fn be16(v: u16) -> Seq<u8> {
    seq![(v >> 8u16) as u8, v as u8]
}

/// The value of two bytes read most significant first.
pub open spec fn be16_value(b0: u8, b1: u8) -> u16 {
    ((b0 as u16) << 8u16) | (b1 as u16)
}

/// The big-endian 32-bit value stored at offset `i` of `s`.
pub open spec fn be32_at(s: Seq<u8>, i: int) -> u32 {
    be32_value(s[i], s[i + 1], s[i + 2], s[i + 3])
}

/// The big-endian 16-bit value stored at offset `i` of `s`.
pub open spec fn be16_at(s: Seq<u8>, i: int) -> u16 {
    be16_value(s[i], s[i + 1])
}

pub fn to_be16(v: u16) -> (r: [u8; 2])
    ensures
        r@ == be16(v),
{
    let r = [(v >> 8u16) as u8, v as u8];
    assert(r@ =~= be16(v));
    r
}

pub fn from_be16(b0: u8, b1: u8) -> (r: u16)
    ensures
        r == be16_value(b0, b1),
{
    ((b0 as u16) << 8u16) | (b1 as u16)
}

pub proof fn lemma_be16_roundtrip(v: u16)
    ensures
        be16_value(be16(v)[0], be16(v)[1]) == v,
{
    assert((((((v >> 8u16) as u8) as u16) << 8u16) | (((v as u8) as u16))) == v) by (bit_vector);
}

pub proof fn lemma_be16_value_roundtrip(b0: u8, b1: u8)
    ensures
        be16(be16_value(b0, b1)) == seq![b0, b1],
{
    let v = be16_value(b0, b1);
    assert(((v >> 8u16) as u8) == b0 && (v as u8) == b1) by (bit_vector)
        requires
            v == ((b0 as u16) << 8u16) | (b1 as u16),
    ;
    assert(be16(v) =~= seq![b0, b1]);
}

/// Decoding the four bytes at offset `i` of a sequence that holds `be32(v)` there gives `v`.
pub proof fn lemma_be32_at(s: Seq<u8>, i: int, v: u32)
    requires
        0 <= i,
        i + 4 <= s.len(),
        s.subrange(i, i + 4) == be32(v),
    ensures
        be32_at(s, i) == v,
{
    assert(s[i] == s.subrange(i, i + 4)[0]);
    assert(s[i + 1] == s.subrange(i, i + 4)[1]);
    assert(s[i + 2] == s.subrange(i, i + 4)[2]);
    assert(s[i + 3] == s.subrange(i, i + 4)[3]);
    lemma_be32_roundtrip(v);
}

/// Decoding the two bytes at offset `i` of a sequence that holds `be16(v)` there gives `v`.
pub proof fn lemma_be16_at(s: Seq<u8>, i: int, v: u16)
    requires
        0 <= i,
        i + 2 <= s.len(),
        s.subrange(i, i + 2) == be16(v),
    ensures
        be16_at(s, i) == v,
{
    assert(s[i] == s.subrange(i, i + 2)[0]);
    assert(s[i + 1] == s.subrange(i, i + 2)[1]);
    lemma_be16_roundtrip(v);
}

/// Re-encoding the value stored at offset `i` gives back the four bytes there.
pub proof fn lemma_be32_at_bytes(s: Seq<u8>, i: int)
    requires
        0 <= i,
        i + 4 <= s.len(),
    ensures
        be32(be32_at(s, i)) == s.subrange(i, i + 4),
{
    lemma_be32_value_roundtrip(s[i], s[i + 1], s[i + 2], s[i + 3]);
    assert(s.subrange(i, i + 4) =~= seq![s[i], s[i + 1], s[i + 2], s[i + 3]]);
}

/// Re-encoding the value stored at offset `i` gives back the two bytes there.
pub proof fn lemma_be16_at_bytes(s: Seq<u8>, i: int)
    requires
        0 <= i,
        i + 2 <= s.len(),
    ensures
        be16(be16_at(s, i)) == s.subrange(i, i + 2),
{
    lemma_be16_value_roundtrip(s[i], s[i + 1]);
    assert(s.subrange(i, i + 2) =~= seq![s[i], s[i + 1]]);
}

} // verus!
