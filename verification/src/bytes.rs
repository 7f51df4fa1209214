//! Little-endian fixed-width integer encodings used by the wire and artifact formats.

use vstd::prelude::*;

verus! {

/// Little-endian bytes of a `u16`.
pub open spec fn le16(v: u16) -> Seq<u8> {
    seq![(v & 0xff) as u8, ((v >> 8u16) & 0xff) as u8]
}

/// Little-endian bytes of a `u32`.
pub open spec fn le32(v: u32) -> Seq<u8> {
    seq![(v & 0xff) as u8, ((v >> 8u32) & 0xff) as u8, ((v >> 16u32) & 0xff) as u8, ((v >> 24u32) & 0xff) as u8]
}

/// Little-endian bytes of a `u64`.
pub open spec fn le64(v: u64) -> Seq<u8> {
    seq![
        (v & 0xff) as u8, ((v >> 8u64) & 0xff) as u8, ((v >> 16u64) & 0xff) as u8, ((v >> 24u64) & 0xff) as u8,
        ((v >> 32u64) & 0xff) as u8, ((v >> 40u64) & 0xff) as u8, ((v >> 48u64) & 0xff) as u8, ((v >> 56u64) & 0xff) as u8,
    ]
}

pub open spec fn compose16(b0: u8, b1: u8) -> u16 {
    (b0 as u16) | ((b1 as u16) << 8u16)
}

pub open spec fn compose32(b0: u8, b1: u8, b2: u8, b3: u8) -> u32 {
    (b0 as u32) | ((b1 as u32) << 8u32) | ((b2 as u32) << 16u32) | ((b3 as u32) << 24u32)
}

pub open spec fn compose64(b0: u8, b1: u8, b2: u8, b3: u8, b4: u8, b5: u8, b6: u8, b7: u8) -> u64 {
    (b0 as u64) | ((b1 as u64) << 8u64) | ((b2 as u64) << 16u64) | ((b3 as u64) << 24u64)
        | ((b4 as u64) << 32u64) | ((b5 as u64) << 40u64) | ((b6 as u64) << 48u64) | ((b7 as u64) << 56u64)
}

/// The value whose little-endian encoding starts `b` at `at`.
pub open spec fn from_le16(b: Seq<u8>, at: int) -> u16 {
    compose16(b[at], b[at + 1])
}

pub open spec fn from_le32(b: Seq<u8>, at: int) -> u32 {
    compose32(b[at], b[at + 1], b[at + 2], b[at + 3])
}

pub open spec fn from_le64(b: Seq<u8>, at: int) -> u64 {
    compose64(b[at], b[at + 1], b[at + 2], b[at + 3], b[at + 4], b[at + 5], b[at + 6], b[at + 7])
}

proof fn lemma_bytes_of_compose16(b0: u8, b1: u8)
    by (bit_vector)
    ensures
        ((compose16(b0, b1) & 0xff) as u8) == b0,
        (((compose16(b0, b1) >> 8u16) & 0xff) as u8) == b1,
{
}

proof fn lemma_compose_of_bytes16(v: u16)
    by (bit_vector)
    ensures
        compose16((v & 0xff) as u8, ((v >> 8u16) & 0xff) as u8) == v,
{
}

proof fn lemma_bytes_of_compose32(b0: u8, b1: u8, b2: u8, b3: u8)
    by (bit_vector)
    ensures
        ((compose32(b0, b1, b2, b3) & 0xff) as u8) == b0,
        (((compose32(b0, b1, b2, b3) >> 8u32) & 0xff) as u8) == b1,
        (((compose32(b0, b1, b2, b3) >> 16u32) & 0xff) as u8) == b2,
        (((compose32(b0, b1, b2, b3) >> 24u32) & 0xff) as u8) == b3,
{
}

proof fn lemma_compose_of_bytes32(v: u32)
    by (bit_vector)
    ensures
        compose32((v & 0xff) as u8, ((v >> 8u32) & 0xff) as u8, ((v >> 16u32) & 0xff) as u8, ((v >> 24u32) & 0xff) as u8) == v,
{
}

proof fn lemma_bytes_of_compose64(b0: u8, b1: u8, b2: u8, b3: u8, b4: u8, b5: u8, b6: u8, b7: u8)
    by (bit_vector)
    ensures
        ((compose64(b0, b1, b2, b3, b4, b5, b6, b7) & 0xff) as u8) == b0,
        (((compose64(b0, b1, b2, b3, b4, b5, b6, b7) >> 8u64) & 0xff) as u8) == b1,
        (((compose64(b0, b1, b2, b3, b4, b5, b6, b7) >> 16u64) & 0xff) as u8) == b2,
        (((compose64(b0, b1, b2, b3, b4, b5, b6, b7) >> 24u64) & 0xff) as u8) == b3,
        (((compose64(b0, b1, b2, b3, b4, b5, b6, b7) >> 32u64) & 0xff) as u8) == b4,
        (((compose64(b0, b1, b2, b3, b4, b5, b6, b7) >> 40u64) & 0xff) as u8) == b5,
        (((compose64(b0, b1, b2, b3, b4, b5, b6, b7) >> 48u64) & 0xff) as u8) == b6,
        (((compose64(b0, b1, b2, b3, b4, b5, b6, b7) >> 56u64) & 0xff) as u8) == b7,
{
}

proof fn lemma_compose_of_bytes64(v: u64)
    by (bit_vector)
    ensures
        compose64((v & 0xff) as u8, ((v >> 8u64) & 0xff) as u8, ((v >> 16u64) & 0xff) as u8, ((v >> 24u64) & 0xff) as u8,
            ((v >> 32u64) & 0xff) as u8, ((v >> 40u64) & 0xff) as u8, ((v >> 48u64) & 0xff) as u8, ((v >> 56u64) & 0xff) as u8) == v,
{
}

/// Decoding an encoding gives the value back.
pub proof fn lemma_le_roundtrip_values(a: u16, b: u32, c: u64)
    ensures
        from_le16(le16(a), 0) == a,
        from_le32(le32(b), 0) == b,
        from_le64(le64(c), 0) == c,
{
    lemma_compose_of_bytes16(a);
    lemma_compose_of_bytes32(b);
    lemma_compose_of_bytes64(c);
}

/// Encoding a decoded value gives the bytes back.
pub proof fn lemma_le_roundtrip_bytes(b: Seq<u8>, at: int)
    requires
        0 <= at,
        at + 8 <= b.len(),
    ensures
        le16(from_le16(b, at)) == b.subrange(at, at + 2),
        le32(from_le32(b, at)) == b.subrange(at, at + 4),
        le64(from_le64(b, at)) == b.subrange(at, at + 8),
{
    lemma_bytes_of_compose16(b[at], b[at + 1]);
    lemma_bytes_of_compose32(b[at], b[at + 1], b[at + 2], b[at + 3]);
    lemma_bytes_of_compose64(b[at], b[at + 1], b[at + 2], b[at + 3], b[at + 4], b[at + 5], b[at + 6], b[at + 7]);
    assert(le16(from_le16(b, at)) =~= b.subrange(at, at + 2));
    assert(le32(from_le32(b, at)) =~= b.subrange(at, at + 4));
    assert(le64(from_le64(b, at)) =~= b.subrange(at, at + 8));
}

/// Encoding a decoded 2-byte or 4-byte value gives the bytes back (for shorter tails).
pub proof fn lemma_le_roundtrip_bytes_short(b: Seq<u8>, at: int)
    requires
        0 <= at,
        at + 2 <= b.len(),
    ensures
        le16(from_le16(b, at)) == b.subrange(at, at + 2),
        at + 4 <= b.len() ==> le32(from_le32(b, at)) == b.subrange(at, at + 4),
{
    lemma_bytes_of_compose16(b[at], b[at + 1]);
    assert(le16(from_le16(b, at)) =~= b.subrange(at, at + 2));
    if at + 4 <= b.len() {
        lemma_bytes_of_compose32(b[at], b[at + 1], b[at + 2], b[at + 3]);
        assert(le32(from_le32(b, at)) =~= b.subrange(at, at + 4));
    }
}

/// Reading bytes that hold an encoding gives the encoded value.
pub proof fn lemma_read_encoded(b: Seq<u8>, at: int, x: u16, y: u32, z: u64)
    requires
        0 <= at,
    ensures
        at + 2 <= b.len() && b.subrange(at, at + 2) == le16(x) ==> from_le16(b, at) == x,
        at + 4 <= b.len() && b.subrange(at, at + 4) == le32(y) ==> from_le32(b, at) == y,
        at + 8 <= b.len() && b.subrange(at, at + 8) == le64(z) ==> from_le64(b, at) == z,
{
    lemma_le_roundtrip_values(x, y, z);
    if at + 2 <= b.len() && b.subrange(at, at + 2) == le16(x) {
        assert(b[at] == le16(x)[0] && b[at + 1] == le16(x)[1]) by {
            assert(b.subrange(at, at + 2)[0] == b[at]);
            assert(b.subrange(at, at + 2)[1] == b[at + 1]);
        }
    }
    if at + 4 <= b.len() && b.subrange(at, at + 4) == le32(y) {
        let s = b.subrange(at, at + 4);
        assert(s[0] == b[at] && s[1] == b[at + 1] && s[2] == b[at + 2] && s[3] == b[at + 3]);
    }
    if at + 8 <= b.len() && b.subrange(at, at + 8) == le64(z) {
        let s = b.subrange(at, at + 8);
        assert(s[0] == b[at] && s[1] == b[at + 1] && s[2] == b[at + 2] && s[3] == b[at + 3]);
        assert(s[4] == b[at + 4] && s[5] == b[at + 5] && s[6] == b[at + 6] && s[7] == b[at + 7]);
    }
}

/// Appends the little-endian bytes of a `u16`.
pub fn push_le16(out: &mut Vec<u8>, v: u16)
    ensures
        final(out)@ == old(out)@ + le16(v),
{
    out.push((v & 0xff) as u8);
    out.push(((v >> 8u16) & 0xff) as u8);
    assert(final(out)@ =~= old(out)@ + le16(v));
}

/// Appends the little-endian bytes of a `u32`.
pub fn push_le32(out: &mut Vec<u8>, v: u32)
    ensures
        final(out)@ == old(out)@ + le32(v),
{
    out.push((v & 0xff) as u8);
    out.push(((v >> 8u32) & 0xff) as u8);
    out.push(((v >> 16u32) & 0xff) as u8);
    out.push(((v >> 24u32) & 0xff) as u8);
    assert(final(out)@ =~= old(out)@ + le32(v));
}

/// Appends the little-endian bytes of a `u64`.
pub fn push_le64(out: &mut Vec<u8>, v: u64)
    ensures
        final(out)@ == old(out)@ + le64(v),
{
    out.push((v & 0xff) as u8);
    out.push(((v >> 8u64) & 0xff) as u8);
    out.push(((v >> 16u64) & 0xff) as u8);
    out.push(((v >> 24u64) & 0xff) as u8);
    out.push(((v >> 32u64) & 0xff) as u8);
    out.push(((v >> 40u64) & 0xff) as u8);
    out.push(((v >> 48u64) & 0xff) as u8);
    out.push(((v >> 56u64) & 0xff) as u8);
    assert(final(out)@ =~= old(out)@ + le64(v));
}

/// Appends a byte string.
pub fn push_bytes(out: &mut Vec<u8>, bytes: &[u8])
    ensures
        final(out)@ == old(out)@ + bytes@,
{
    let mut i: usize = 0;
    while i < bytes.len()
        invariant
            0 <= i <= bytes@.len(),
            out@ == old(out)@ + bytes@.subrange(0, i as int),
        decreases bytes@.len() - i,
    {
        out.push(bytes[i]);
        assert(bytes@.subrange(0, i + 1) =~= bytes@.subrange(0, i as int).push(bytes@[i as int]));
        i = i + 1;
    }
    assert(bytes@.subrange(0, bytes@.len() as int) =~= bytes@);
}

/// Reads a little-endian `u16` at `at`.
pub fn read_le16(b: &[u8], at: usize) -> (v: u16)
    requires
        at + 2 <= b@.len(),
    ensures
        v == from_le16(b@, at as int),
{
    (b[at] as u16) | ((b[at + 1] as u16) << 8u16)
}

/// Reads a little-endian `u32` at `at`.
pub fn read_le32(b: &[u8], at: usize) -> (v: u32)
    requires
        at + 4 <= b@.len(),
    ensures
        v == from_le32(b@, at as int),
{
    (b[at] as u32) | ((b[at + 1] as u32) << 8u32) | ((b[at + 2] as u32) << 16u32) | ((b[at + 3] as u32) << 24u32)
}

/// Reads a little-endian `u64` at `at`.
pub fn read_le64(b: &[u8], at: usize) -> (v: u64)
    requires
        at + 8 <= b@.len(),
    ensures
        v == from_le64(b@, at as int),
{
    (b[at] as u64) | ((b[at + 1] as u64) << 8u64) | ((b[at + 2] as u64) << 16u64) | ((b[at + 3] as u64) << 24u64)
        | ((b[at + 4] as u64) << 32u64) | ((b[at + 5] as u64) << 40u64) | ((b[at + 6] as u64) << 48u64)
        | ((b[at + 7] as u64) << 56u64)
}

} // verus!
