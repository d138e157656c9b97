//! Fixed-width big-endian encoding of unsigned 64-bit numbers.

use vstd::prelude::*;

verus! {

/// The width of an encoded `u64`, in bytes.
pub const U64_SIZE: usize = 8;

/// Byte `i` of `v`, counted from the most significant one.
pub open spec fn be_byte(v: u64, i: int) -> u8 {
    ((v >> ((8 * (7 - i)) as u64)) & 0xff) as u8
}

/// The eight bytes of `v`, most significant first.
pub open spec fn be_bytes(v: u64) -> Seq<u8> {
    Seq::new(8, |i: int| be_byte(v, i))
}

/// The number whose big-endian bytes are the first eight of `b`.
pub open spec fn be_value(b: Seq<u8>) -> u64 {
    ((b[0] as u64) << 56) | ((b[1] as u64) << 48) | ((b[2] as u64) << 40) | ((b[3] as u64) << 32)
        | ((b[4] as u64) << 24) | ((b[5] as u64) << 16) | ((b[6] as u64) << 8) | (b[7] as u64)
}

/// Decoding undoes encoding.
pub proof fn lemma_be_value_of_bytes(v: u64)
    ensures
        be_value(be_bytes(v)) == v,
        be_bytes(v).len() == 8,
{
    let b = be_bytes(v);
    assert(b[0] == be_byte(v, 0) && b[1] == be_byte(v, 1) && b[2] == be_byte(v, 2) && b[3]
        == be_byte(v, 3) && b[4] == be_byte(v, 4) && b[5] == be_byte(v, 5) && b[6] == be_byte(v, 6)
        && b[7] == be_byte(v, 7));
    assert((((((v >> 56) & 0xff) as u8) as u64) << 56) | (((((v >> 48) & 0xff) as u8) as u64) << 48)
        | (((((v >> 40) & 0xff) as u8) as u64) << 40) | (((((v >> 32) & 0xff) as u8) as u64) << 32)
        | (((((v >> 24) & 0xff) as u8) as u64) << 24) | (((((v >> 16) & 0xff) as u8) as u64) << 16)
        | (((((v >> 8) & 0xff) as u8) as u64) << 8) | ((((v >> 0) & 0xff) as u8) as u64) == v)
        by (bit_vector);
}

/// Encoding undoes decoding on eight bytes.
pub proof fn lemma_be_bytes_of_value(b: Seq<u8>)
    requires
        b.len() == 8,
    ensures
        be_bytes(be_value(b)) == b,
{
    let v = be_value(b);
    let (b0, b1, b2, b3, b4, b5, b6, b7) = (b[0], b[1], b[2], b[3], b[4], b[5], b[6], b[7]);
    assert({
        let v = ((b0 as u64) << 56) | ((b1 as u64) << 48) | ((b2 as u64) << 40) | ((b3 as u64)
            << 32) | ((b4 as u64) << 24) | ((b5 as u64) << 16) | ((b6 as u64) << 8) | (b7 as u64);
        &&& ((v >> 56) & 0xff) as u8 == b0
        &&& ((v >> 48) & 0xff) as u8 == b1
        &&& ((v >> 40) & 0xff) as u8 == b2
        &&& ((v >> 32) & 0xff) as u8 == b3
        &&& ((v >> 24) & 0xff) as u8 == b4
        &&& ((v >> 16) & 0xff) as u8 == b5
        &&& ((v >> 8) & 0xff) as u8 == b6
        &&& ((v >> 0) & 0xff) as u8 == b7
    }) by (bit_vector);
    assert(be_bytes(v) =~= b);
}

/// Different numbers have different encodings.
pub proof fn lemma_be_bytes_injective(a: u64, b: u64)
    ensures
        be_bytes(a) == be_bytes(b) <==> a == b,
{
    lemma_be_value_of_bytes(a);
    lemma_be_value_of_bytes(b);
}

/// Appends the eight big-endian bytes of `v` to `buf`.
pub fn encode_u64_into(buf: &mut Vec<u8>, v: u64)
    ensures
        final(buf)@ == old(buf)@ + be_bytes(v),
{
    buf.push(((v >> 56) & 0xff) as u8);
    buf.push(((v >> 48) & 0xff) as u8);
    buf.push(((v >> 40) & 0xff) as u8);
    buf.push(((v >> 32) & 0xff) as u8);
    buf.push(((v >> 24) & 0xff) as u8);
    buf.push(((v >> 16) & 0xff) as u8);
    buf.push(((v >> 8) & 0xff) as u8);
    buf.push((v & 0xff) as u8);
    proof {
        assert((v >> 0) & 0xff == v & 0xff) by (bit_vector);
        assert(buf@ =~= old(buf)@ + be_bytes(v));
    }
}

/// The eight big-endian bytes of `v`.
pub fn encode_u64(v: u64) -> (r: Vec<u8>)
    ensures
        r@ == be_bytes(v),
{
    let mut r: Vec<u8> = Vec::new();
    encode_u64_into(&mut r, v);
    assert(r@ =~= be_bytes(v));
    r
}

/// The number whose big-endian bytes stand at `b[at..at + 8]`.
pub fn decode_u64_at(b: &[u8], at: usize) -> (v: u64)
    requires
        at + 8 <= b@.len(),
    ensures
        v == be_value(b@.subrange(at as int, at + 8)),
{
    let v = ((b[at] as u64) << 56) | ((b[at + 1] as u64) << 48) | ((b[at + 2] as u64) << 40) | ((
    b[at + 3] as u64) << 32) | ((b[at + 4] as u64) << 24) | ((b[at + 5] as u64) << 16) | ((b[at
        + 6] as u64) << 8) | (b[at + 7] as u64);
    proof {
        let s = b@.subrange(at as int, at + 8);
        assert(s[0] == b@[at as int] && s[1] == b@[at + 1] && s[2] == b@[at + 2] && s[3] == b@[at
            + 3] && s[4] == b@[at + 4] && s[5] == b@[at + 5] && s[6] == b@[at + 6] && s[7] == b@[at
            + 7]);
    }
    v
}

} // verus!
