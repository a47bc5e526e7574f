//! Bit masks and little-endian byte helpers shared by the packet codecs.

use vstd::prelude::*;

verus! {

/// A mask of the `n` lowest bits of a `u64`.
pub fn bits(n: u64) -> (r: u64)
    requires
        n < 64,
    ensures
        r as int == (1u64 << n) - 1,
{
    assert(1u64 << n >= 1) by (bit_vector)
        requires
            n < 64,
    ;
    (1u64 << n) - 1
}

/// The masks that the packet codecs use.
pub proof fn lemma_mask_values()
    ensures
        (1u64 << 2u64) - 1 == 0x3,
        (1u64 << 3u64) - 1 == 0x7,
        (1u64 << 8u64) - 1 == 0xFF,
        (1u64 << 16u64) - 1 == 0xFFFF,
        (1u64 << 32u64) - 1 == 0xFFFF_FFFF,
        (1u8 << 3u8) - 1 == 0x7,
        (1u8 << 5u8) - 1 == 0x1F,
{
    assert((1u64 << 2u64) == 0x4) by (bit_vector);
    assert((1u64 << 3u64) == 0x8) by (bit_vector);
    assert((1u64 << 8u64) == 0x100) by (bit_vector);
    assert((1u64 << 16u64) == 0x10000) by (bit_vector);
    assert((1u64 << 32u64) == 0x1_0000_0000) by (bit_vector);
    assert((1u8 << 3u8) == 0x8) by (bit_vector);
    assert((1u8 << 5u8) == 0x20) by (bit_vector);
}

/// A mask of the `n` lowest bits of a `u8`.
pub fn bits_u8(n: u8) -> (r: u8)
    requires
        n < 8,
    ensures
        r as int == (1u8 << n) - 1,
{
    assert(1u8 << n >= 1) by (bit_vector)
        requires
            n < 8,
    ;
    (1u8 << n) - 1
}

/// The `u64` whose little-endian bytes are `b[0..8]`.
pub open spec fn le_u64(b: Seq<u8>) -> u64 {
    (b[0] as u64) | (b[1] as u64) << 8 | (b[2] as u64) << 16 | (b[3] as u64) << 24 | (b[4] as u64)
        << 32 | (b[5] as u64) << 40 | (b[6] as u64) << 48 | (b[7] as u64) << 56
}

/// The eight little-endian bytes of `x`.
pub open spec fn le_bytes(x: u64) -> Seq<u8> {
    seq![
        (x & 0xFF) as u8,
        ((x >> 8) & 0xFF) as u8,
        ((x >> 16) & 0xFF) as u8,
        ((x >> 24) & 0xFF) as u8,
        ((x >> 32) & 0xFF) as u8,
        ((x >> 40) & 0xFF) as u8,
        ((x >> 48) & 0xFF) as u8,
        ((x >> 56) & 0xFF) as u8,
    ]
}

/// Reads eight bytes as a little-endian `u64`.
pub fn u64_from_le(b: [u8; 8]) -> (r: u64)
    ensures
        r == le_u64(b@),
{
    (b[0] as u64) | (b[1] as u64) << 8 | (b[2] as u64) << 16 | (b[3] as u64) << 24 | (b[4] as u64)
        << 32 | (b[5] as u64) << 40 | (b[6] as u64) << 48 | (b[7] as u64) << 56
}

/// Writes `x` as eight little-endian bytes.
pub fn u64_to_le(x: u64) -> (r: [u8; 8])
    ensures
        r@ == le_bytes(x),
{
    let r = [
        (x & 0xFF) as u8,
        ((x >> 8) & 0xFF) as u8,
        ((x >> 16) & 0xFF) as u8,
        ((x >> 24) & 0xFF) as u8,
        ((x >> 32) & 0xFF) as u8,
        ((x >> 40) & 0xFF) as u8,
        ((x >> 48) & 0xFF) as u8,
        ((x >> 56) & 0xFF) as u8,
    ];
    assert(r@ =~= le_bytes(x));
    r
}

/// Reading back the bytes of `x` gives `x`.
pub proof fn lemma_le_roundtrip(x: u64)
    ensures
        le_u64(le_bytes(x)) == x,
{
    assert(((x & 0xFF) as u8 as u64) | (((x >> 8) & 0xFF) as u8 as u64) << 8 | (((x >> 16) & 0xFF) as u8
        as u64) << 16 | (((x >> 24) & 0xFF) as u8 as u64) << 24 | (((x >> 32) & 0xFF) as u8 as u64)
        << 32 | (((x >> 40) & 0xFF) as u8 as u64) << 40 | (((x >> 48) & 0xFF) as u8 as u64) << 48 | (((x
        >> 56) & 0xFF) as u8 as u64) << 56 == x)
        by (bit_vector);
}

} // verus!

verus! {

/// Byte `i` of `data`, or 0 past its end.
pub open spec fn byte_or_zero(data: Seq<u8>, i: int) -> u8 {
    if 0 <= i < data.len() {
        data[i]
    } else {
        0
    }
}

/// The `n` bytes of `data` from `start`, zero-filled past its end.
pub open spec fn window(data: Seq<u8>, start: int, n: nat) -> Seq<u8> {
    Seq::new(n, |k: int| byte_or_zero(data, start + k))
}

/// The two little-endian bytes of `x`.
pub open spec fn le16_bytes(x: u16) -> Seq<u8> {
    seq![(x & 0xFF) as u8, ((x >> 8) & 0xFF) as u8]
}

/// The `u16` whose little-endian bytes are `lo` and `hi`.
pub open spec fn le16(lo: u8, hi: u8) -> u16 {
    (lo as u16) | (hi as u16) << 8
}

/// Reading back the two bytes of `x` gives `x`.
pub proof fn lemma_le16_roundtrip(x: u16)
    ensures
        le16(le16_bytes(x)[0], le16_bytes(x)[1]) == x,
{
    assert(((x & 0xFF) as u8 as u16) | (((x >> 8) & 0xFF) as u8 as u16) << 8 == x) by (bit_vector);
}

/// Byte `i` of `data`, or 0 past its end.
pub fn get_or_zero(data: &[u8], i: usize) -> (b: u8)
    ensures
        b == byte_or_zero(data@, i as int),
{
    if i < data.len() {
        data[i]
    } else {
        0
    }
}

/// The 32 bytes of `data` from `start`, zero-filled past its end.
pub fn read_window_32(data: &[u8], start: usize) -> (r: [u8; 32])
    requires
        start + 32 <= usize::MAX,
    ensures
        r@ == window(data@, start as int, 32),
{
    let mut r = [0u8; 32];
    let mut k: usize = 0;
    while k < 32
        invariant
            k <= 32,
            start + 32 <= usize::MAX,
            r@.len() == 32,
            forall|j: int| 0 <= j < k ==> r@[j] == byte_or_zero(data@, start + j),
        decreases 32 - k,
    {
        r[k] = get_or_zero(data, start + k);
        k = k + 1;
    }
    assert(r@ =~= window(data@, start as int, 32));
    r
}

/// A 32-byte string field holding `s`, cut at 32 bytes and zero-padded.
pub fn fixed_string(s: &[u8]) -> (r: [u8; 32])
    ensures
        r@ == window(s@, 0, 32),
{
    read_window_32(s, 0)
}

} // verus!

verus! {

/// The four little-endian bytes of `x`.
pub open spec fn le32_bytes(x: u32) -> Seq<u8> {
    seq![
        (x & 0xFF) as u8,
        ((x >> 8) & 0xFF) as u8,
        ((x >> 16) & 0xFF) as u8,
        ((x >> 24) & 0xFF) as u8,
    ]
}

/// The four big-endian bytes of `x`.
pub open spec fn be32_bytes(x: u32) -> Seq<u8> {
    seq![
        ((x >> 24) & 0xFF) as u8,
        ((x >> 16) & 0xFF) as u8,
        ((x >> 8) & 0xFF) as u8,
        (x & 0xFF) as u8,
    ]
}

/// The `u32` whose big-endian bytes are `b[0..4]`.
pub open spec fn be_u32(b: Seq<u8>) -> u32 {
    (b[0] as u32) << 24 | (b[1] as u32) << 16 | (b[2] as u32) << 8 | (b[3] as u32)
}

/// Appends the two little-endian bytes of `x`.
pub fn push_le16(out: &mut Vec<u8>, x: u16)
    ensures
        final(out)@ == old(out)@ + le16_bytes(x),
{
    out.push((x & 0xFF) as u8);
    out.push(((x >> 8) & 0xFF) as u8);
    assert(out@ =~= old(out)@ + le16_bytes(x));
}

/// Appends the four little-endian bytes of `x`.
pub fn push_le32(out: &mut Vec<u8>, x: u32)
    ensures
        final(out)@ == old(out)@ + le32_bytes(x),
{
    out.push((x & 0xFF) as u8);
    out.push(((x >> 8) & 0xFF) as u8);
    out.push(((x >> 16) & 0xFF) as u8);
    out.push(((x >> 24) & 0xFF) as u8);
    assert(out@ =~= old(out)@ + le32_bytes(x));
}

/// Reads four bytes as a big-endian `u32`.
pub fn u32_from_be(b: [u8; 4]) -> (r: u32)
    ensures
        r == be_u32(b@),
{
    (b[0] as u32) << 24 | (b[1] as u32) << 16 | (b[2] as u32) << 8 | (b[3] as u32)
}

/// Reading back the big-endian bytes of `x` gives `x`.
pub proof fn lemma_be32_roundtrip(x: u32)
    ensures
        be_u32(be32_bytes(x)) == x,
{
    assert((((x >> 24) & 0xFF) as u8 as u32) << 24 | (((x >> 16) & 0xFF) as u8 as u32) << 16 | (((x
        >> 8) & 0xFF) as u8 as u32) << 8 | ((x & 0xFF) as u8 as u32) == x) by (bit_vector);
}

} // verus!
