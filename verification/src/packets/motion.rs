//! Single-frame navigation PGNs: position, course/speed, heading and wind.

use vstd::prelude::*;

use crate::util::{bits, lemma_mask_values};

verus! {

/// PGN 129025 - Position, Rapid Update, in units of 1e-7 degree.
#[derive(Debug, Clone, Copy, PartialEq, Eq, Structural)]
pub struct PositionRapidUpdate {
    pub latitude: i32,
    pub longitude: i32,
}

impl PositionRapidUpdate {
    pub const PGN: u32 = 0x1F801;

    /// The fields carried by a payload: latitude in the low 32 bits,
    /// longitude in the high 32 bits.
    pub open spec fn decoded(data: u64) -> Self {
        PositionRapidUpdate {
            latitude: (data & 0xFFFF_FFFF) as i32,
            longitude: ((data >> 32) & 0xFFFF_FFFF) as i32,
        }
    }

    /// The payload of the fields: latitude in bytes 0..4 and longitude in
    /// bytes 4..8, each a little-endian two's-complement 32-bit value.
    pub open spec fn encoded(self) -> u64 {
        (self.latitude as u32 as u64) | (self.longitude as u32 as u64) << 32
    }

    pub fn deserialize(data: u64) -> (r: Self)
        ensures
            r == Self::decoded(data),
    {
        proof {
            lemma_mask_values();
        }
        Self { latitude: (data & bits(32)) as i32, longitude: (data >> 32 & bits(32)) as i32 }
    }

    pub fn serialize(&self) -> (r: u64)
        ensures
            r == self.encoded(),
    {
        (self.latitude as u32 as u64) | (self.longitude as u32 as u64) << 32
    }
}

/// PGN 129026 - COG & SOG, Rapid Update.
#[derive(Debug, Clone, Copy, PartialEq, Eq, Structural)]
pub struct CogSogRapidUpdate {
    pub sid: u8,
    pub cog_reference: u8,
    pub cog: u16,
    pub sog: u16,
}

impl CogSogRapidUpdate {
    pub const PGN: u32 = 0x1F802;

    /// Sequence id in bits 0..8, COG reference in bits 8..10, COG in bits
    /// 16..32, SOG in bits 32..48.
    pub open spec fn decoded(data: u64) -> Self {
        CogSogRapidUpdate {
            sid: (data & 0xFF) as u8,
            cog_reference: ((data >> 8) & 0x3) as u8,
            cog: ((data >> 16) & 0xFFFF) as u16,
            sog: ((data >> 32) & 0xFFFF) as u16,
        }
    }

    pub open spec fn encoded(self) -> u64 {
        self.sid as u64 | (self.cog_reference as u64) << 8 | (self.cog as u64) << 16 | (
        self.sog as u64) << 32
    }

    pub fn deserialize(data: u64) -> (r: Self)
        ensures
            r == Self::decoded(data),
    {
        proof {
            lemma_mask_values();
        }
        Self {
            sid: (data & bits(8)) as u8,
            cog_reference: (data >> 8 & bits(2)) as u8,
            cog: (data >> 16 & bits(16)) as u16,
            sog: (data >> 32 & bits(16)) as u16,
        }
    }

    pub fn serialize(&self) -> (r: u64)
        ensures
            r == self.encoded(),
    {
        self.sid as u64 | (self.cog_reference as u64) << 8 | (self.cog as u64) << 16
            | (self.sog as u64) << 32
    }
}

/// PGN 127250 - Vessel Heading.
#[derive(Debug, Clone, Copy, PartialEq, Eq, Structural)]
pub struct VesselHeading {
    pub sid: u8,
    pub heading: u16,
    pub deviation: u16,
    pub variation: u16,
    pub reference: u8,
}

impl VesselHeading {
    pub const PGN: u32 = 0x1F112;

    /// Sequence id in bits 0..8, heading in 8..24, deviation in 24..40,
    /// variation in 40..56, reference in 56..58.
    pub open spec fn decoded(data: u64) -> Self {
        VesselHeading {
            sid: (data & 0xFF) as u8,
            heading: ((data >> 8) & 0xFFFF) as u16,
            deviation: ((data >> 24) & 0xFFFF) as u16,
            variation: ((data >> 40) & 0xFFFF) as u16,
            reference: ((data >> 56) & 0x3) as u8,
        }
    }

    pub open spec fn encoded(self) -> u64 {
        self.sid as u64 | (self.heading as u64) << 8 | (self.deviation as u64) << 24 | (
        self.variation as u64) << 40 | (self.reference as u64) << 56
    }

    pub fn deserialize(data: u64) -> (r: Self)
        ensures
            r == Self::decoded(data),
    {
        proof {
            lemma_mask_values();
        }
        Self {
            sid: (data & bits(8)) as u8,
            heading: (data >> 8 & bits(16)) as u16,
            deviation: (data >> 24 & bits(16)) as u16,
            variation: (data >> 40 & bits(16)) as u16,
            reference: (data >> 56 & bits(2)) as u8,
        }
    }

    pub fn serialize(&self) -> (r: u64)
        ensures
            r == self.encoded(),
    {
        self.sid as u64 | (self.heading as u64) << 8 | (self.deviation as u64) << 24
            | (self.variation as u64) << 40 | (self.reference as u64) << 56
    }
}

/// PGN 130306 - Wind Data.
#[derive(Debug, Clone, Copy, PartialEq, Eq, Structural)]
pub struct WindData {
    pub sid: u8,
    pub wind_speed: u16,
    pub wind_angle: u16,
    pub reference: u8,
}

impl WindData {
    pub const PGN: u32 = 0x1FD02;

    /// Sequence id in bits 0..8, speed in 8..24, angle in 24..40, reference
    /// in 40..43.
    pub open spec fn decoded(data: u64) -> Self {
        WindData {
            sid: (data & 0xFF) as u8,
            wind_speed: ((data >> 8) & 0xFFFF) as u16,
            wind_angle: ((data >> 24) & 0xFFFF) as u16,
            reference: ((data >> 40) & 0x7) as u8,
        }
    }

    pub open spec fn encoded(self) -> u64 {
        self.sid as u64 | (self.wind_speed as u64) << 8 | (self.wind_angle as u64) << 24 | (
        self.reference as u64) << 40
    }

    pub fn deserialize(data: u64) -> (r: Self)
        ensures
            r == Self::decoded(data),
    {
        proof {
            lemma_mask_values();
        }
        Self {
            sid: (data & bits(8)) as u8,
            wind_speed: (data >> 8 & bits(16)) as u16,
            wind_angle: (data >> 24 & bits(16)) as u16,
            reference: (data >> 40 & bits(3)) as u8,
        }
    }

    pub fn serialize(&self) -> (r: u64)
        ensures
            r == self.encoded(),
    {
        self.sid as u64 | (self.wind_speed as u64) << 8 | (self.wind_angle as u64) << 24
            | (self.reference as u64) << 40
    }
}

/// Every position survives encoding and decoding.
pub proof fn lemma_position_roundtrip(p: PositionRapidUpdate)
    ensures
        PositionRapidUpdate::decoded(p.encoded()) == p,
{
    let (a, b) = (p.latitude, p.longitude);
    assert(((((a as u32 as u64) | (b as u32 as u64) << 32) & 0xFFFF_FFFF) as i32) == a && (((((
    a as u32 as u64) | (b as u32 as u64) << 32) >> 32) & 0xFFFF_FFFF) as i32) == b) by (bit_vector);
}

/// Every payload survives decoding and encoding.
pub proof fn lemma_position_payload_roundtrip(data: u64)
    ensures
        PositionRapidUpdate::decoded(data).encoded() == data,
{
    assert(((((data & 0xFFFF_FFFF) as i32) as u32 as u64) | ((((data >> 32) & 0xFFFF_FFFF) as i32)
        as u32 as u64) << 32) == data) by (bit_vector);
}

/// COG/SOG fields with a 2-bit reference survive encoding and decoding.
pub proof fn lemma_cog_sog_roundtrip(p: CogSogRapidUpdate)
    requires
        p.cog_reference < 4,
    ensures
        CogSogRapidUpdate::decoded(p.encoded()) == p,
{
    let (s, r, c, g) = (p.sid, p.cog_reference, p.cog, p.sog);
    let e = p.encoded();
    assert((e & 0xFF) as u8 == s && ((e >> 8) & 0x3) as u8 == r && ((e >> 16) & 0xFFFF) as u16 == c
        && ((e >> 32) & 0xFFFF) as u16 == g) by (bit_vector)
        requires
            r < 4,
            e == s as u64 | (r as u64) << 8 | (c as u64) << 16 | (g as u64) << 32,
    ;
}

/// Decoding and re-encoding a COG/SOG payload keeps exactly the bits that
/// carry fields.
pub proof fn lemma_cog_sog_payload(data: u64)
    ensures
        CogSogRapidUpdate::decoded(data).encoded() == data & 0x0000_FFFF_FFFF_03FF,
{
    assert(((data & 0xFF) as u8 as u64 | (((data >> 8) & 0x3) as u8 as u64) << 8 | (((data >> 16)
        & 0xFFFF) as u16 as u64) << 16 | (((data >> 32) & 0xFFFF) as u16 as u64) << 32) == data
        & 0x0000_FFFF_FFFF_03FF) by (bit_vector);
}

/// Heading fields with a 2-bit reference survive encoding and decoding.
pub proof fn lemma_heading_roundtrip(p: VesselHeading)
    requires
        p.reference < 4,
    ensures
        VesselHeading::decoded(p.encoded()) == p,
{
    let (s, h, d, v, r) = (p.sid, p.heading, p.deviation, p.variation, p.reference);
    let e = p.encoded();
    assert((e & 0xFF) as u8 == s && ((e >> 8) & 0xFFFF) as u16 == h && ((e >> 24) & 0xFFFF) as u16
        == d && ((e >> 40) & 0xFFFF) as u16 == v && ((e >> 56) & 0x3) as u8 == r) by (bit_vector)
        requires
            r < 4,
            e == s as u64 | (h as u64) << 8 | (d as u64) << 24 | (v as u64) << 40 | (r as u64)
                << 56,
    ;
}

/// Decoding and re-encoding a heading payload keeps exactly the bits that
/// carry fields.
pub proof fn lemma_heading_payload(data: u64)
    ensures
        VesselHeading::decoded(data).encoded() == data & 0x03FF_FFFF_FFFF_FFFF,
{
    assert(((data & 0xFF) as u8 as u64 | (((data >> 8) & 0xFFFF) as u16 as u64) << 8 | (((data
        >> 24) & 0xFFFF) as u16 as u64) << 24 | (((data >> 40) & 0xFFFF) as u16 as u64) << 40 | (((
    data >> 56) & 0x3) as u8 as u64) << 56) == data & 0x03FF_FFFF_FFFF_FFFF) by (bit_vector);
}

/// Wind fields with a 3-bit reference survive encoding and decoding.
pub proof fn lemma_wind_roundtrip(p: WindData)
    requires
        p.reference < 8,
    ensures
        WindData::decoded(p.encoded()) == p,
{
    let (s, w, a, r) = (p.sid, p.wind_speed, p.wind_angle, p.reference);
    let e = p.encoded();
    assert((e & 0xFF) as u8 == s && ((e >> 8) & 0xFFFF) as u16 == w && ((e >> 24) & 0xFFFF) as u16
        == a && ((e >> 40) & 0x7) as u8 == r) by (bit_vector)
        requires
            r < 8,
            e == s as u64 | (w as u64) << 8 | (a as u64) << 24 | (r as u64) << 40,
    ;
}

/// Decoding and re-encoding a wind payload keeps exactly the bits that carry
/// fields.
pub proof fn lemma_wind_payload(data: u64)
    ensures
        WindData::decoded(data).encoded() == data & 0x0000_07FF_FFFF_FFFF,
{
    assert(((data & 0xFF) as u8 as u64 | (((data >> 8) & 0xFFFF) as u16 as u64) << 8 | (((data
        >> 24) & 0xFFFF) as u16 as u64) << 24 | (((data >> 40) & 0x7) as u8 as u64) << 40) == data
        & 0x0000_07FF_FFFF_FFFF) by (bit_vector);
}

} // verus!
