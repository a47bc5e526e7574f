//! Manufacturer-proprietary fast-packet PGNs.

use vstd::prelude::*;

use crate::util::{bits_u8, lemma_mask_values};

verus! {

/// Simrad/Navico (manufacturer 1857, marine industry) autopilot command,
/// PGN 130850.
#[derive(Debug, Clone, Copy, PartialEq, Eq, Structural)]
pub struct SimnetAp {
    pub address: u8,
    pub proprietary: u8,
    pub command: u8,
    pub event: u8,
}

/// The manufacturer code of a proprietary payload: 11 bits over its first
/// two bytes.
pub open spec fn manufacturer_of(data: Seq<u8>) -> u16 {
    (data[0] as u16) | ((data[1] & 0x7) as u16) << 8
}

/// The industry code of a proprietary payload: the top 3 bits of its second
/// byte.
pub open spec fn industry_of(data: Seq<u8>) -> u8 {
    (data[1] >> 5) & 0x7
}

/// A payload that the autopilot decoder accepts: at least seven bytes, from
/// manufacturer 1857 in the marine industry (4).
pub open spec fn is_simnet_payload(data: Seq<u8>) -> bool {
    &&& data.len() >= 7
    &&& manufacturer_of(data) == 1857
    &&& industry_of(data) == 4
}

impl SimnetAp {
    pub const PGN: u32 = 0x1FF22;

    /// The 12-byte payload of a command.
    pub open spec fn encoded(self) -> Seq<u8> {
        seq![
            0x41u8,
            0x87u8,
            self.address,
            0xFFu8,
            self.proprietary,
            self.command,
            self.event,
            0xFFu8,
            0xFFu8,
            0xFFu8,
            0xFFu8,
            0xFFu8,
        ]
    }

    /// Decodes a command; payloads of another manufacturer or industry are
    /// rejected by the caller's obligation (they would be a protocol error).
    pub fn deserialize(data: &[u8]) -> (r: Self)
        requires
            is_simnet_payload(data@),
        ensures
            r == (SimnetAp { address: data@[2], proprietary: data@[4], command: data@[5], event: data@[6] }),
    {
        proof {
            lemma_mask_values();
        }
        let manufacturer = (data[0] as u16) | ((data[1] & bits_u8(3)) as u16) << 8;
        let industry = (data[1] >> 5) & bits_u8(3);
        assert(manufacturer == 1857);
        assert(industry == 4);
        Self { address: data[2], proprietary: data[4], command: data[5], event: data[6] }
    }

    pub fn serialize(&self) -> (out: [u8; 12])
        ensures
            out@ == self.encoded(),
    {
        let mut out = [0u8; 12];
        out[0] = 0x41;
        out[1] = 0x07;
        let industry_bits: u8 = 4 << 5;
        assert(0x07u8 | industry_bits == 0x87u8) by (bit_vector)
            requires
                industry_bits == 4u8 << 5u8,
        ;
        out[1] = out[1] | industry_bits;
        out[2] = self.address;
        out[3] = 0xFF;
        out[4] = self.proprietary;
        out[5] = self.command;
        out[6] = self.event;
        let mut i: usize = 7;
        while i < 12
            invariant
                7 <= i <= 12,
                out@.len() == 12,
                out@[0] == 0x41u8,
                out@[1] == 0x87u8,
                out@[2] == self.address,
                out@[3] == 0xFFu8,
                out@[4] == self.proprietary,
                out@[5] == self.command,
                out@[6] == self.event,
                forall|j: int| 7 <= j < i ==> out@[j] == 0xFFu8,
            decreases 12 - i,
        {
            out[i] = 0xFF;
            i = i + 1;
        }
        assert(out@ =~= self.encoded());
        out
    }
}

/// Every encoded command is accepted by the decoder and decodes to itself.
pub proof fn lemma_simnet_roundtrip(s: SimnetAp)
    ensures
        is_simnet_payload(s.encoded()),
        ({
            let d = s.encoded();
            (SimnetAp { address: d[2], proprietary: d[4], command: d[5], event: d[6] }) == s
        }),
{
    let d = s.encoded();
    assert((0x41u8 as u16) | ((0x87u8 & 0x7) as u16) << 8 == 1857u16) by (bit_vector);
    assert((0x87u8 >> 5) & 0x7 == 4u8) by (bit_vector);
}

} // verus!
