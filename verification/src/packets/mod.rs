//! NMEA 2000 parameter groups and their CAN frames.

pub mod fast;
pub mod handshake;
pub mod motion;
pub mod proprietary;

use vstd::prelude::*;

use crate::header::{header_of_id, id_of_header, id_pgn, Header};
use crate::util::{le_bytes, le_u64, u64_from_le, u64_to_le};
use handshake::{AddressClaim, IsoRequest, ProductInformation};
use motion::{CogSogRapidUpdate, PositionRapidUpdate, VesselHeading, WindData};

pub use fast::FastPacket;

verus! {

/// A decoded parameter group.
#[derive(Debug, Clone, Copy)]
pub enum Packet {
    IsoRequest(IsoRequest),
    AddressClaim(AddressClaim),
    ProductInformation(ProductInformation),
    PositionRapidUpdate(PositionRapidUpdate),
    CogSogRapidUpdate(CogSogRapidUpdate),
    VesselHeading(VesselHeading),
    WindData(WindData),
}

/// One CAN frame: a 29-bit identifier and eight data bytes.
#[derive(Debug, Clone, Copy, PartialEq, Eq)]
pub struct RawPacket {
    pub id: u32,
    pub data: [u8; 8],
}

impl View for RawPacket {
    type V = (u32, Seq<u8>);

    open spec fn view(&self) -> (u32, Seq<u8>) {
        (self.id, self.data@)
    }
}

/// The identifier and data bytes of each frame.
pub open spec fn frame_views(frames: Seq<RawPacket>) -> Seq<(u32, Seq<u8>)> {
    frames.map_values(|r: RawPacket| r@)
}

/// The frames that this node sends for `p`: an ISO request as one frame,
/// product information as a fast packet with counter bytes from 0 and
/// padding 0, and nothing for the other groups.
pub open spec fn sent_frames(p: Packet) -> Seq<(u32, Seq<u8>)> {
    match p {
        Packet::IsoRequest(q) => seq![
            (id_of_header(send_header(IsoRequest::PGN)), le_bytes(q.encoded())),
        ],
        Packet::ProductInformation(q) => fast::fast_frames(
            id_of_header(send_header(ProductInformation::PGN)),
            0,
            q.encoded().len() as u8,
            q.encoded(),
            0,
        ),
        _ => Seq::empty(),
    }
}

/// The packet that a single-frame payload of `pgn` decodes to, if `pgn` is
/// one of the single-frame groups understood here.
pub open spec fn decode_single(pgn: u32, data: u64) -> Option<Packet> {
    if pgn == IsoRequest::PGN {
        Some(Packet::IsoRequest(IsoRequest::decoded(data)))
    } else if pgn == AddressClaim::PGN {
        Some(Packet::AddressClaim(AddressClaim::decoded(data)))
    } else if pgn == PositionRapidUpdate::PGN {
        Some(Packet::PositionRapidUpdate(PositionRapidUpdate::decoded(data)))
    } else if pgn == CogSogRapidUpdate::PGN {
        Some(Packet::CogSogRapidUpdate(CogSogRapidUpdate::decoded(data)))
    } else if pgn == VesselHeading::PGN {
        Some(Packet::VesselHeading(VesselHeading::decoded(data)))
    } else if pgn == WindData::PGN {
        Some(Packet::WindData(WindData::decoded(data)))
    } else {
        None
    }
}

/// What a single frame's eight data bytes `d` decode to, field by field,
/// for each of the six single-frame PGNs: each field is its bytes read
/// little-endian (bits within a byte counted from the lowest); every other
/// PGN decodes to nothing.
pub proof fn lemma_single_frame_fields(pgn: u32, d: Seq<u8>)
    requires
        d.len() == 8,
    ensures
        pgn == 0xEA00 ==> (decode_single(pgn, le_u64(d)) matches Some(Packet::IsoRequest(q))
            && q.pgn == d[0] + 256 * d[1] + 65536 * d[2]),
        pgn == 0xEE00 ==> (decode_single(pgn, le_u64(d)) matches Some(Packet::AddressClaim(c))
            && c.unique_number == d[0] + 256 * d[1] + 65536 * (d[2] % 32)
            && c.manufacturer_code == d[2] / 32 + 8 * d[3] && c.device_instance_lower == d[4] % 8
            && c.device_instance_upper == d[4] / 8 && c.device_function == d[5]
            && c.device_class == d[6] / 2 && c.system_instance == d[7] % 16
            && c.arbitrary_address_capable == (d[7] >= 128)),
        pgn == 0x1F801 ==> (decode_single(pgn, le_u64(d)) matches Some(
            Packet::PositionRapidUpdate(p),
        ) && p.latitude as u32 == d[0] + 256 * d[1] + 65536 * d[2] + 16777216 * d[3]
            && p.longitude as u32 == d[4] + 256 * d[5] + 65536 * d[6] + 16777216 * d[7]),
        pgn == 0x1F802 ==> (decode_single(pgn, le_u64(d)) matches Some(
            Packet::CogSogRapidUpdate(c),
        ) && c.sid == d[0] && c.cog_reference == d[1] % 4 && c.cog == d[2] + 256 * d[3] && c.sog
            == d[4] + 256 * d[5]),
        pgn == 0x1F112 ==> (decode_single(pgn, le_u64(d)) matches Some(Packet::VesselHeading(h))
            && h.sid == d[0] && h.heading == d[1] + 256 * d[2] && h.deviation == d[3] + 256 * d[4]
            && h.variation == d[5] + 256 * d[6] && h.reference == d[7] % 4),
        pgn == 0x1FD02 ==> (decode_single(pgn, le_u64(d)) matches Some(Packet::WindData(w))
            && w.sid == d[0] && w.wind_speed == d[1] + 256 * d[2] && w.wind_angle == d[3] + 256
            * d[4] && w.reference == d[5] % 8),
        pgn != 0xEA00 && pgn != 0xEE00 && pgn != 0x1F801 && pgn != 0x1F802 && pgn != 0x1F112
            && pgn != 0x1FD02 ==> decode_single(pgn, le_u64(d)) is None,
{
    let (b0, b1, b2, b3, b4, b5, b6, b7) = (d[0], d[1], d[2], d[3], d[4], d[5], d[6], d[7]);
    let x = le_u64(d);
    assert(x == (b0 as u64) | (b1 as u64) << 8 | (b2 as u64) << 16 | (b3 as u64) << 24 | (
    b4 as u64) << 32 | (b5 as u64) << 40 | (b6 as u64) << 48 | (b7 as u64) << 56);
    assert(x & 0xFF == b0 && (x >> 8) & 0x3 == b1 % 4 && (x >> 16) & 0xFFFF == b2 + 256 * b3 && (x
        >> 32) & 0xFFFF == b4 + 256 * b5 && (x >> 8) & 0xFFFF == b1 + 256 * b2 && (x >> 24)
        & 0xFFFF == b3 + 256 * b4 && (x >> 40) & 0xFFFF == b5 + 256 * b6 && (x >> 56) & 0x3 == b7
        % 4 && (x >> 40) & 0x7 == b5 % 8 && x & 0xFF_FFFF == b0 + 256 * b1 + 65536 * b2)
        by (bit_vector)
        requires
            x == (b0 as u64) | (b1 as u64) << 8 | (b2 as u64) << 16 | (b3 as u64) << 24 | (
            b4 as u64) << 32 | (b5 as u64) << 40 | (b6 as u64) << 48 | (b7 as u64) << 56,
    ;
    assert(x & 0x1F_FFFF == b0 + 256 * b1 + 65536 * (b2 % 32) && (x >> 21) & 0x7FF == b2 / 32 + 8
        * b3 && (x >> 32) & 0x7 == b4 % 8 && (x >> 35) & 0x1F == b4 / 8 && (x >> 40) & 0xFF == b5
        && (x >> 49) & 0x7F == b6 / 2 && (x >> 56) & 0xF == b7 % 16 && ((x >> 63) == 1) == (b7
        >= 128)) by (bit_vector)
        requires
            x == (b0 as u64) | (b1 as u64) << 8 | (b2 as u64) << 16 | (b3 as u64) << 24 | (
            b4 as u64) << 32 | (b5 as u64) << 40 | (b6 as u64) << 48 | (b7 as u64) << 56,
    ;
    assert((x & 0xFFFF_FFFF) as i32 as u32 == b0 + 256 * b1 + 65536 * b2 + 16777216 * b3 && ((x
        >> 32) & 0xFFFF_FFFF) as i32 as u32 == b4 + 256 * b5 + 65536 * b6 + 16777216 * b7)
        by (bit_vector)
        requires
            x == (b0 as u64) | (b1 as u64) << 8 | (b2 as u64) << 16 | (b3 as u64) << 24 | (
            b4 as u64) << 32 | (b5 as u64) << 40 | (b6 as u64) << 48 | (b7 as u64) << 56,
    ;
}

/// `r` is what a reassembled fast-packet payload of `pgn` decodes to: product
/// information for its PGN, nothing for any other.
pub open spec fn is_fast_decoding(pgn: u32, data: Seq<u8>, r: Option<Packet>) -> bool {
    if pgn == ProductInformation::PGN {
        r matches Some(Packet::ProductInformation(p)) && p.decodes_from(data)
    } else {
        r is None
    }
}

/// The header with which this node sends `pgn`: priority 6, source 0.
pub open spec fn send_header(pgn: u32) -> Header {
    Header { priority: 6, source: 0, pgn }
}

impl Packet {
    /// Decodes a single-frame payload of `pgn`, read as a little-endian
    /// `u64`.
    pub fn deserialize_single(pgn: u32, data: [u8; 8]) -> (r: Option<Self>)
        ensures
            r == decode_single(pgn, le_u64(data@)),
    {
        let data = u64_from_le(data);
        if pgn == IsoRequest::PGN {
            Some(Packet::IsoRequest(IsoRequest::deserialize(data)))
        } else if pgn == AddressClaim::PGN {
            Some(Packet::AddressClaim(AddressClaim::deserialize(data)))
        } else if pgn == PositionRapidUpdate::PGN {
            Some(Packet::PositionRapidUpdate(PositionRapidUpdate::deserialize(data)))
        } else if pgn == CogSogRapidUpdate::PGN {
            Some(Packet::CogSogRapidUpdate(CogSogRapidUpdate::deserialize(data)))
        } else if pgn == VesselHeading::PGN {
            Some(Packet::VesselHeading(VesselHeading::deserialize(data)))
        } else if pgn == WindData::PGN {
            Some(Packet::WindData(WindData::deserialize(data)))
        } else {
            None
        }
    }

    /// Decodes a reassembled fast-packet payload of `pgn`.
    pub fn deserialize_fast(pgn: u32, data: Vec<u8>) -> (r: Option<Self>)
        ensures
            is_fast_decoding(pgn, data@, r),
    {
        if pgn == ProductInformation::PGN {
            Some(Packet::ProductInformation(ProductInformation::deserialize(data.as_slice())))
        } else {
            None
        }
    }

    /// Appends the frames that send this packet: an ISO request as one frame,
    /// product information as a fast packet (counter bytes from 0, padding 0);
    /// the other groups are not sent by this node and append nothing.
    pub fn serialize(&self, out: &mut Vec<RawPacket>)
        ensures
            frame_views(final(out)@) == frame_views(old(out)@) + sent_frames(*self),
    {
        match self {
            Packet::IsoRequest(packet) => {
                let frame = RawPacket::new(Header::new(IsoRequest::PGN, 6), packet.serialize());
                let ghost prev = out@;
                out.push(frame);
                assert(frame_views(out@) =~= frame_views(prev) + sent_frames(*self));
            },
            Packet::ProductInformation(packet) => {
                let header = Header::new(ProductInformation::PGN, 6);
                let bytes = packet.serialize();
                proof {
                    handshake::lemma_product_information_roundtrip(*packet);
                }
                fast::push_fast_frames(header, 0, bytes.len() as u8, bytes.as_slice(), 0, out);
            },
            _ => {
                assert(frame_views(out@) =~= frame_views(old(out)@) + sent_frames(*self));
            },
        }
    }
}

impl RawPacket {
    /// A frame of `header` whose data bytes are `data`, little-endian.
    pub fn new(header: Header, data: u64) -> (r: Self)
        ensures
            r@ == (id_of_header(header), le_bytes(data)),
    {
        Self { id: header.serialize(), data: u64_to_le(data) }
    }

    /// A frame of `header` carrying `data`.
    pub fn new_bytes(header: Header, data: [u8; 8]) -> (r: Self)
        ensures
            r.id == id_of_header(header),
            r.data == data,
    {
        Self { id: header.serialize(), data }
    }

    /// A frame with a raw identifier.
    pub fn new_raw(id: u32, data: [u8; 8]) -> (r: Self)
        ensures
            r.id == id,
            r.data == data,
    {
        Self { id, data }
    }

    /// Replaces the source address in the identifier.
    pub fn overwrite_source(&mut self, source: u8)
        ensures
            final(self).id == (old(self).id & 0xFFFF_FF00) | source as u32,
            final(self).data == old(self).data,
    {
        self.id = self.id & 0xFFFF_FF00 | source as u32;
    }
}

/// Overwriting the source keeps priority and PGN and sets the source.
pub proof fn lemma_overwrite_source(id: u32, source: u8)
    ensures
        header_of_id(((id & 0xFFFF_FF00) | source as u32) & 0x1FFF_FFFF) == (Header {
            source,
            ..header_of_id(id & 0x1FFF_FFFF)
        }),
{
    let n = ((id & 0xFFFF_FF00) | source as u32) & 0x1FFF_FFFF;
    let o = id & 0x1FFF_FFFF;
    assert(((n >> 26) & 0x7) == ((o >> 26) & 0x7) && (n & 0xFF) == source as u32 && id_pgn(n) == id_pgn(o))
        by (bit_vector)
        requires
            n == ((id & 0xFFFF_FF00) | source as u32) & 0x1FFF_FFFF,
            o == id & 0x1FFF_FFFF,
    ;
}

/// A request sent by this node reaches another node as the same request:
/// its frame carries the ISO request PGN from the sender's source, and its
/// data decodes to the request, when the requested PGN fits in 24 bits.
pub proof fn lemma_sent_request_decodes(q: IsoRequest)
    requires
        q.pgn < 0x100_0000,
    ensures
        header_of_id(sent_frames(Packet::IsoRequest(q))[0].0 & 0x1FFF_FFFF) == send_header(
            IsoRequest::PGN,
        ),
        decode_single(IsoRequest::PGN, le_u64(sent_frames(Packet::IsoRequest(q))[0].1)) == Some(
            Packet::IsoRequest(q),
        ),
{
    assert(((0xEA00u32 >> 8u32) & 0xFF) < 0xF0 && 0xEA00u32 & 0xFF == 0) by (bit_vector);
    crate::header::lemma_header_roundtrip(send_header(IsoRequest::PGN));
    crate::util::lemma_le_roundtrip(q.encoded());
    handshake::lemma_iso_request_roundtrip(q);
}

} // verus!
