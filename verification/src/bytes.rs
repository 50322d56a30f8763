//! Big- and little-endian byte encodings of fixed-width integers.

use vstd::prelude::*;

verus! {

/// The two bytes of `v`, most significant first.
pub open spec fn be16(v: u16) -> Seq<u8> {
    seq![(v >> 8u16) as u8, v as u8]
}

/// The low three bytes of `v`, most significant first.
pub open spec fn be24(v: u32) -> Seq<u8> {
    seq![(v >> 16u32) as u8, (v >> 8u32) as u8, v as u8]
}

/// The four bytes of `v`, most significant first.
pub open spec fn be32(v: u32) -> Seq<u8> {
    seq![(v >> 24u32) as u8, (v >> 16u32) as u8, (v >> 8u32) as u8, v as u8]
}

/// The eight bytes of `v`, most significant first.
pub open spec fn be64(v: u64) -> Seq<u8> {
    seq![
        (v >> 56u64) as u8,
        (v >> 48u64) as u8,
        (v >> 40u64) as u8,
        (v >> 32u64) as u8,
        (v >> 24u64) as u8,
        (v >> 16u64) as u8,
        (v >> 8u64) as u8,
        v as u8,
    ]
}

/// The value of two bytes read most significant first.
pub open spec fn from_be16(b: Seq<u8>) -> u16 {
    ((b[0] as u16) << 8u16) | (b[1] as u16)
}

/// The value of three bytes read most significant first.
pub open spec fn from_be24(b: Seq<u8>) -> u32 {
    ((b[0] as u32) << 16u32) | ((b[1] as u32) << 8u32) | (b[2] as u32)
}

/// The value of four bytes read most significant first.
pub open spec fn from_be32(b: Seq<u8>) -> u32 {
    ((b[0] as u32) << 24u32) | ((b[1] as u32) << 16u32) | ((b[2] as u32) << 8u32) | (b[3] as u32)
}

/// The value of eight bytes read most significant first.
pub open spec fn from_be64(b: Seq<u8>) -> u64 {
    ((b[0] as u64) << 56u64) | ((b[1] as u64) << 48u64) | ((b[2] as u64) << 40u64) | ((
    b[3] as u64) << 32u64) | ((b[4] as u64) << 24u64) | ((b[5] as u64) << 16u64) | ((
    b[6] as u64) << 8u64) | (b[7] as u64)
}

/// Reading back the bytes of a 16-bit value gives the value.
pub proof fn lemma_be16_roundtrip(v: u16)
    ensures
        from_be16(be16(v)) == v,
{
    let b0 = (v >> 8u16) as u8;
    let b1 = v as u8;
    assert((((b0 as u16) << 8u16) | (b1 as u16)) == v) by (bit_vector)
        requires
            b0 == (v >> 8u16) as u8,
            b1 == v as u8,
    ;
}

/// Reading back the bytes of a 24-bit value gives the value.
pub proof fn lemma_be24_roundtrip(v: u32)
    requires
        v < 0x100_0000,
    ensures
        from_be24(be24(v)) == v,
{
    let b0 = (v >> 16u32) as u8;
    let b1 = (v >> 8u32) as u8;
    let b2 = v as u8;
    assert((((b0 as u32) << 16u32) | ((b1 as u32) << 8u32) | (b2 as u32)) == v) by (bit_vector)
        requires
            v < 0x100_0000,
            b0 == (v >> 16u32) as u8,
            b1 == (v >> 8u32) as u8,
            b2 == v as u8,
    ;
}

/// Reading back the bytes of a 32-bit value gives the value.
pub proof fn lemma_be32_roundtrip(v: u32)
    ensures
        from_be32(be32(v)) == v,
{
    let b0 = (v >> 24u32) as u8;
    let b1 = (v >> 16u32) as u8;
    let b2 = (v >> 8u32) as u8;
    let b3 = v as u8;
    assert((((b0 as u32) << 24u32) | ((b1 as u32) << 16u32) | ((b2 as u32) << 8u32) | (
    b3 as u32)) == v) by (bit_vector)
        requires
            b0 == (v >> 24u32) as u8,
            b1 == (v >> 16u32) as u8,
            b2 == (v >> 8u32) as u8,
            b3 == v as u8,
    ;
}

/// Reading back the bytes of a 64-bit value gives the value.
pub proof fn lemma_be64_roundtrip(v: u64)
    ensures
        from_be64(be64(v)) == v,
{
    let b0 = (v >> 56u64) as u8;
    let b1 = (v >> 48u64) as u8;
    let b2 = (v >> 40u64) as u8;
    let b3 = (v >> 32u64) as u8;
    let b4 = (v >> 24u64) as u8;
    let b5 = (v >> 16u64) as u8;
    let b6 = (v >> 8u64) as u8;
    let b7 = v as u8;
    assert((((b0 as u64) << 56u64) | ((b1 as u64) << 48u64) | ((b2 as u64) << 40u64) | ((
    b3 as u64) << 32u64) | ((b4 as u64) << 24u64) | ((b5 as u64) << 16u64) | ((b6 as u64)
        << 8u64) | (b7 as u64)) == v) by (bit_vector)
        requires
            b0 == (v >> 56u64) as u8,
            b1 == (v >> 48u64) as u8,
            b2 == (v >> 40u64) as u8,
            b3 == (v >> 32u64) as u8,
            b4 == (v >> 24u64) as u8,
            b5 == (v >> 16u64) as u8,
            b6 == (v >> 8u64) as u8,
            b7 == v as u8,
    ;
}

/// Appends the two bytes of `v`, most significant first.
pub fn push_be16(out: &mut Vec<u8>, v: u16)
    ensures
        final(out)@ == old(out)@ + be16(v),
{
    out.push((v >> 8u16) as u8);
    out.push(v as u8);
}

/// Appends the low three bytes of `v`, most significant first.
pub fn push_be24(out: &mut Vec<u8>, v: u32)
    ensures
        final(out)@ == old(out)@ + be24(v),
{
    out.push((v >> 16u32) as u8);
    out.push((v >> 8u32) as u8);
    out.push(v as u8);
}

/// Appends the four bytes of `v`, most significant first.
pub fn push_be32(out: &mut Vec<u8>, v: u32)
    ensures
        final(out)@ == old(out)@ + be32(v),
{
    out.push((v >> 24u32) as u8);
    out.push((v >> 16u32) as u8);
    out.push((v >> 8u32) as u8);
    out.push(v as u8);
}

/// Appends the eight bytes of `v`, most significant first.
pub fn push_be64(out: &mut Vec<u8>, v: u64)
    ensures
        final(out)@ == old(out)@ + be64(v),
{
    out.push((v >> 56u64) as u8);
    out.push((v >> 48u64) as u8);
    out.push((v >> 40u64) as u8);
    out.push((v >> 32u64) as u8);
    out.push((v >> 24u64) as u8);
    out.push((v >> 16u64) as u8);
    out.push((v >> 8u64) as u8);
    out.push(v as u8);
}

/// Reads two bytes at `pos`, most significant first.
pub fn read_be16(data: &[u8], pos: usize) -> (r: u16)
    requires
        pos + 2 <= data@.len(),
    ensures
        r == from_be16(data@.subrange(pos as int, pos + 2)),
{
    ((data[pos] as u16) << 8u16) | (data[pos + 1] as u16)
}

/// Reads three bytes at `pos`, most significant first.
pub fn read_be24(data: &[u8], pos: usize) -> (r: u32)
    requires
        pos + 3 <= data@.len(),
    ensures
        r == from_be24(data@.subrange(pos as int, pos + 3)),
{
    ((data[pos] as u32) << 16u32) | ((data[pos + 1] as u32) << 8u32) | (data[pos + 2] as u32)
}

/// Reads four bytes at `pos`, most significant first.
pub fn read_be32(data: &[u8], pos: usize) -> (r: u32)
    requires
        pos + 4 <= data@.len(),
    ensures
        r == from_be32(data@.subrange(pos as int, pos + 4)),
{
    ((data[pos] as u32) << 24u32) | ((data[pos + 1] as u32) << 16u32) | ((data[pos + 2] as u32)
        << 8u32) | (data[pos + 3] as u32)
}

/// Reads eight bytes at `pos`, most significant first.
pub fn read_be64(data: &[u8], pos: usize) -> (r: u64)
    requires
        pos + 8 <= data@.len(),
    ensures
        r == from_be64(data@.subrange(pos as int, pos + 8)),
{
    ((data[pos] as u64) << 56u64) | ((data[pos + 1] as u64) << 48u64) | ((data[pos + 2] as u64)
        << 40u64) | ((data[pos + 3] as u64) << 32u64) | ((data[pos + 4] as u64) << 24u64) | ((
    data[pos + 5] as u64) << 16u64) | ((data[pos + 6] as u64) << 8u64) | (data[pos + 7] as u64)
}

/// The sixteen bytes of `v`, most significant first.
pub open spec fn be128(v: u128) -> Seq<u8> {
    be64((v >> 64u128) as u64) + be64(v as u64)
}

/// The value of sixteen bytes read most significant first.
pub open spec fn from_be128(b: Seq<u8>) -> u128 {
    ((from_be64(b.subrange(0, 8)) as u128) << 64u128) | (from_be64(b.subrange(8, 16)) as u128)
}

/// Reading back the bytes of a 128-bit value gives the value.
pub proof fn lemma_be128_roundtrip(v: u128)
    ensures
        from_be128(be128(v)) == v,
{
    let hi = (v >> 64u128) as u64;
    let lo = v as u64;
    lemma_be64_roundtrip(hi);
    lemma_be64_roundtrip(lo);
    assert(be128(v).subrange(0, 8) =~= be64(hi));
    assert(be128(v).subrange(8, 16) =~= be64(lo));
    assert((((hi as u128) << 64u128) | (lo as u128)) == v) by (bit_vector)
        requires
            hi == (v >> 64u128) as u64,
            lo == v as u64,
    ;
}

/// Appends the sixteen bytes of `v`, most significant first.
pub fn push_be128(out: &mut Vec<u8>, v: u128)
    ensures
        final(out)@ == old(out)@ + be128(v),
{
    push_be64(out, (v >> 64u128) as u64);
    push_be64(out, v as u64);
    proof {
        assert(final(out)@ =~= old(out)@ + be128(v));
    }
}

/// Reads sixteen bytes at `pos`, most significant first.
pub fn read_be128(data: &[u8], pos: usize) -> (r: u128)
    requires
        pos + 16 <= data@.len(),
    ensures
        r == from_be128(data@.subrange(pos as int, pos + 16)),
{
    let n = data.len();
    let hi = read_be64(data, pos);
    let lo = read_be64(data, pos + 8);
    proof {
        let b = data@.subrange(pos as int, pos + 16);
        assert(b.subrange(0, 8) =~= data@.subrange(pos as int, pos + 8));
        assert(b.subrange(8, 16) =~= data@.subrange(pos + 8, pos + 16));
    }
    ((hi as u128) << 64u128) | (lo as u128)
}

/// The bytes of a big-endian encoding in the order that `little` asks for:
/// as they are, or reversed.
pub open spec fn ordered(be: Seq<u8>, little: bool) -> Seq<u8> {
    if little {
        be.reverse()
    } else {
        be
    }
}

/// Ordering twice gives back the bytes.
pub proof fn lemma_ordered_twice(b: Seq<u8>, little: bool)
    ensures
        ordered(ordered(b, little), little) == b,
        ordered(b, little).len() == b.len(),
{
    if little {
        assert(b.reverse().reverse() =~= b);
    }
}

/// The bytes of `b`, reversed where `little` holds.
pub fn ordered_vec(b: &[u8], little: bool) -> (r: Vec<u8>)
    ensures
        r@ == ordered(b@, little),
{
    let mut out: Vec<u8> = Vec::new();
    let n = b.len();
    let mut i: usize = 0;
    while i < n
        invariant
            n == b@.len(),
            i <= n,
            out@.len() == i,
            forall|j: int|
                0 <= j < i ==> out@[j] == (if little {
                    b@[n - 1 - j]
                } else {
                    b@[j]
                }),
        decreases n - i,
    {
        if little {
            out.push(b[n - 1 - i]);
        } else {
            out.push(b[i]);
        }
        i = i + 1;
    }
    proof {
        assert(out@ =~= ordered(b@, little));
    }
    out
}

} // verus!
