//! The TCP bridge's frame format: a CAN frame travels as its identifier in
//! four big-endian bytes, a length byte, and that many data bytes.

use vstd::prelude::*;

use crate::util::{be32_bytes, be_u32, get_or_zero, lemma_be32_roundtrip, u32_from_be, window};

verus! {

/// The bytes that carry a frame with identifier `identifier` and the first
/// `length` of its data bytes.
pub open spec fn api_frame(identifier: u32, length: u8, data: Seq<u8>) -> Seq<u8> {
    be32_bytes(identifier) + seq![length] + data.subrange(0, length as int)
}

/// The frame read from the wire: the identifier from its four bytes, and the
/// payload in the first data bytes, the rest zero.
pub fn api_packet(ident: [u8; 4], payload: &[u8]) -> (r: (u32, [u8; 8]))
    requires
        payload@.len() <= 8,
    ensures
        r.0 == be_u32(ident@),
        r.1@ == window(payload@, 0, 8),
{
    let mut data = [0u8; 8];
    let mut i: usize = 0;
    while i < 8
        invariant
            i <= 8,
            data@.len() == 8,
            forall|j: int| 0 <= j < i ==> data@[j] == crate::util::byte_or_zero(payload@, j),
        decreases 8 - i,
    {
        data[i] = get_or_zero(payload, i);
        i = i + 1;
    }
    assert(data@ =~= window(payload@, 0, 8));
    (u32_from_be(ident), data)
}

/// The bytes that send a received frame to a TCP client; a data length code
/// above 8 does not describe a CAN frame.
pub fn encode_api_frame(identifier: u32, data_length_code: u8, data: [u8; 8]) -> (r: Vec<u8>)
    requires
        data_length_code <= 8,
    ensures
        r@ == api_frame(identifier, data_length_code, data@),
{
    let mut out: Vec<u8> = Vec::new();
    out.push(((identifier >> 24) & 0xFF) as u8);
    out.push(((identifier >> 16) & 0xFF) as u8);
    out.push(((identifier >> 8) & 0xFF) as u8);
    out.push((identifier & 0xFF) as u8);
    out.push(data_length_code);
    let mut i: usize = 0;
    while i < data_length_code as usize
        invariant
            i <= data_length_code <= 8,
            out@ == be32_bytes(identifier) + seq![data_length_code] + data@.subrange(0, i as int),
        decreases data_length_code - i,
    {
        out.push(data[i]);
        i = i + 1;
        assert(out@ =~= be32_bytes(identifier) + seq![data_length_code] + data@.subrange(0, i as int));
    }
    out
}

/// Reading back a sent frame gives its identifier and the data bytes it
/// carried, zero past its length.
pub proof fn lemma_api_roundtrip(identifier: u32, length: u8, data: Seq<u8>)
    requires
        length <= 8,
        data.len() == 8,
    ensures
        ({
            let bytes = api_frame(identifier, length, data);
            &&& bytes.len() == 5 + length
            &&& bytes[4] == length
            &&& be_u32(bytes.subrange(0, 4)) == identifier
            &&& window(bytes.subrange(5, 5 + length), 0, 8) == window(
                data.subrange(0, length as int),
                0,
                8,
            )
        }),
{
    let bytes = api_frame(identifier, length, data);
    lemma_be32_roundtrip(identifier);
    assert(bytes.subrange(0, 4) =~= be32_bytes(identifier));
    assert(bytes.subrange(5, 5 + length) =~= data.subrange(0, length as int));
}

} // verus!
