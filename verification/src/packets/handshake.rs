//! Network-management PGNs: ISO request, ISO address claim and product
//! information.

use vstd::prelude::*;

use crate::util::{byte_or_zero, get_or_zero, le16, le16_bytes, lemma_le16_roundtrip, read_window_32, window};

verus! {

/// PGN 59904 - ISO Request: asks the bus for the PGN it names.
#[derive(Debug, Clone, Copy, PartialEq, Eq, Structural)]
pub struct IsoRequest {
    pub pgn: u32,
}

impl IsoRequest {
    pub const PGN: u32 = 0xEA00;

    /// The requested PGN is the first three payload bytes.
    pub open spec fn decoded(data: u64) -> Self {
        IsoRequest { pgn: (data & 0xFF_FFFF) as u32 }
    }

    pub open spec fn encoded(self) -> u64 {
        (self.pgn & 0xFF_FFFF) as u64
    }

    pub fn deserialize(data: u64) -> (r: Self)
        ensures
            r == Self::decoded(data),
    {
        Self { pgn: (data & 0xFF_FFFF) as u32 }
    }

    pub fn serialize(&self) -> (r: u64)
        ensures
            r == self.encoded(),
    {
        (self.pgn & 0xFF_FFFF) as u64
    }
}

/// PGN 60928 - ISO Address Claim: the 64-bit NAME of a device. The NAME
/// with the lower numeric value wins a contested address.
#[derive(Debug, Clone, Copy, PartialEq, Eq, Structural)]
pub struct AddressClaim {
    pub unique_number: u32,
    pub manufacturer_code: u16,
    pub device_instance_lower: u8,
    pub device_instance_upper: u8,
    pub device_function: u8,
    pub device_class: u8,
    pub system_instance: u8,
    pub arbitrary_address_capable: bool,
}

/// The industry group that every NAME sent here carries: marine.
pub const MARINE_INDUSTRY: u64 = 4;

impl AddressClaim {
    pub const PGN: u32 = 0xEE00;

    /// The NAME fields: unique number (bits 0..21), manufacturer (21..32),
    /// device instance lower (32..35) and upper (35..40), function (40..48),
    /// class (49..56), system instance (56..60), arbitrary-address flag (63).
    pub open spec fn decoded(data: u64) -> Self {
        AddressClaim {
            unique_number: (data & 0x1F_FFFF) as u32,
            manufacturer_code: ((data >> 21) & 0x7FF) as u16,
            device_instance_lower: ((data >> 32) & 0x7) as u8,
            device_instance_upper: ((data >> 35) & 0x1F) as u8,
            device_function: ((data >> 40) & 0xFF) as u8,
            device_class: ((data >> 49) & 0x7F) as u8,
            system_instance: ((data >> 56) & 0xF) as u8,
            arbitrary_address_capable: (data >> 63) == 1,
        }
    }

    /// The NAME; each field is cut to its width and the industry group
    /// (bits 60..63) is marine.
    pub open spec fn encoded(self) -> u64 {
        (self.unique_number as u64 & 0x1F_FFFF) | (self.manufacturer_code as u64 & 0x7FF) << 21 | (
        self.device_instance_lower as u64 & 0x7) << 32 | (self.device_instance_upper as u64 & 0x1F)
            << 35 | (self.device_function as u64) << 40 | (self.device_class as u64 & 0x7F) << 49 | (
        self.system_instance as u64 & 0xF) << 56 | MARINE_INDUSTRY << 60 | (if self.arbitrary_address_capable {
            1u64
        } else {
            0u64
        }) << 63
    }

    /// Every field fits its width in the NAME.
    pub open spec fn fits(self) -> bool {
        &&& self.unique_number < 0x20_0000
        &&& self.manufacturer_code < 0x800
        &&& self.device_instance_lower < 0x8
        &&& self.device_instance_upper < 0x20
        &&& self.device_class < 0x80
        &&& self.system_instance < 0x10
    }

    pub fn deserialize(data: u64) -> (r: Self)
        ensures
            r == Self::decoded(data),
    {
        Self {
            unique_number: (data & 0x1F_FFFF) as u32,
            manufacturer_code: ((data >> 21) & 0x7FF) as u16,
            device_instance_lower: ((data >> 32) & 0x7) as u8,
            device_instance_upper: ((data >> 35) & 0x1F) as u8,
            device_function: ((data >> 40) & 0xFF) as u8,
            device_class: ((data >> 49) & 0x7F) as u8,
            system_instance: ((data >> 56) & 0xF) as u8,
            arbitrary_address_capable: (data >> 63) == 1,
        }
    }

    pub fn serialize(&self) -> (r: u64)
        ensures
            r == self.encoded(),
    {
        let aac: u64 = if self.arbitrary_address_capable {
            1
        } else {
            0
        };
        (self.unique_number as u64 & 0x1F_FFFF) | (self.manufacturer_code as u64 & 0x7FF) << 21 | (
        self.device_instance_lower as u64 & 0x7) << 32 | (self.device_instance_upper as u64 & 0x1F)
            << 35 | (self.device_function as u64) << 40 | (self.device_class as u64 & 0x7F) << 49 | (
        self.system_instance as u64 & 0xF) << 56 | MARINE_INDUSTRY << 60 | aac << 63
    }
}

/// PGN 126996 - Product Information, a 134-byte fast packet.
#[derive(Debug, Clone, Copy)]
pub struct ProductInformation {
    pub version: u16,
    pub product_code: u16,
    pub model_id: [u8; 32],
    pub software_version: [u8; 32],
    pub model_version: [u8; 32],
    pub serial_code: [u8; 32],
    pub certification_level: u8,
    pub load_equivalency: u8,
}

/// The length of an encoded product information payload.
pub const PRODUCT_INFORMATION_LEN: usize = 134;

impl ProductInformation {
    pub const PGN: u32 = 0x1F014;

    /// The payload: version and product code little-endian, the four string
    /// fields, certification level and load equivalency.
    pub open spec fn encoded(self) -> Seq<u8> {
        le16_bytes(self.version) + le16_bytes(self.product_code) + self.model_id@
            + self.software_version@ + self.model_version@ + self.serial_code@ + seq![
            self.certification_level,
            self.load_equivalency,
        ]
    }

    /// `self` is what `data` decodes to, reading bytes past its end as 0.
    pub open spec fn decodes_from(self, data: Seq<u8>) -> bool {
        &&& self.version == le16(byte_or_zero(data, 0), byte_or_zero(data, 1))
        &&& self.product_code == le16(byte_or_zero(data, 2), byte_or_zero(data, 3))
        &&& self.model_id@ == window(data, 4, 32)
        &&& self.software_version@ == window(data, 36, 32)
        &&& self.model_version@ == window(data, 68, 32)
        &&& self.serial_code@ == window(data, 100, 32)
        &&& self.certification_level == byte_or_zero(data, 132)
        &&& self.load_equivalency == byte_or_zero(data, 133)
    }

    pub fn deserialize(data: &[u8]) -> (r: Self)
        ensures
            r.decodes_from(data@),
    {
        Self {
            version: (get_or_zero(data, 0) as u16) | (get_or_zero(data, 1) as u16) << 8,
            product_code: (get_or_zero(data, 2) as u16) | (get_or_zero(data, 3) as u16) << 8,
            model_id: read_window_32(data, 4),
            software_version: read_window_32(data, 36),
            model_version: read_window_32(data, 68),
            serial_code: read_window_32(data, 100),
            certification_level: get_or_zero(data, 132),
            load_equivalency: get_or_zero(data, 133),
        }
    }

    pub fn serialize(&self) -> (out: Vec<u8>)
        ensures
            out@ == self.encoded(),
    {
        let mut out: Vec<u8> = Vec::with_capacity(PRODUCT_INFORMATION_LEN);
        out.push((self.version & 0xFF) as u8);
        out.push(((self.version >> 8) & 0xFF) as u8);
        out.push((self.product_code & 0xFF) as u8);
        out.push(((self.product_code >> 8) & 0xFF) as u8);
        push_all(&mut out, &self.model_id);
        push_all(&mut out, &self.software_version);
        push_all(&mut out, &self.model_version);
        push_all(&mut out, &self.serial_code);
        out.push(self.certification_level);
        out.push(self.load_equivalency);
        assert(out@ =~= self.encoded());
        out
    }
}

/// Appends the bytes of a string field.
fn push_all(out: &mut Vec<u8>, field: &[u8; 32])
    ensures
        final(out)@ == old(out)@ + field@,
{
    let mut i: usize = 0;
    while i < 32
        invariant
            i <= 32,
            field@.len() == 32,
            out@ == old(out)@ + field@.subrange(0, i as int),
        decreases 32 - i,
    {
        out.push(field[i]);
        i = i + 1;
        assert(out@ =~= old(out)@ + field@.subrange(0, i as int));
    }
    assert(field@.subrange(0, 32) =~= field@);
}

/// A request survives encoding and decoding when its PGN fits in 24 bits.
pub proof fn lemma_iso_request_roundtrip(r: IsoRequest)
    requires
        r.pgn < 0x100_0000,
    ensures
        IsoRequest::decoded(r.encoded()) == r,
{
    let p = r.pgn;
    assert((((p & 0xFF_FFFF) as u64) & 0xFF_FFFF) as u32 == p) by (bit_vector)
        requires
            p < 0x100_0000,
    ;
}

/// A NAME whose fields fit their widths survives encoding and decoding.
pub proof fn lemma_address_claim_roundtrip(c: AddressClaim)
    requires
        c.fits(),
    ensures
        AddressClaim::decoded(c.encoded()) == c,
{
    let u = c.unique_number;
    let m = c.manufacturer_code;
    let l = c.device_instance_lower;
    let h = c.device_instance_upper;
    let f = c.device_function;
    let k = c.device_class;
    let s = c.system_instance;
    let a: u64 = if c.arbitrary_address_capable {
        1
    } else {
        0
    };
    let e = c.encoded();
    assert(e == (u as u64 & 0x1F_FFFF) | (m as u64 & 0x7FF) << 21 | (l as u64 & 0x7) << 32 | (h as u64
        & 0x1F) << 35 | (f as u64) << 40 | (k as u64 & 0x7F) << 49 | (s as u64 & 0xF) << 56 | 4u64
        << 60 | a << 63);
    assert({
        &&& (e & 0x1F_FFFF) as u32 == u
        &&& ((e >> 21) & 0x7FF) as u16 == m
        &&& ((e >> 32) & 0x7) as u8 == l
        &&& ((e >> 35) & 0x1F) as u8 == h
        &&& ((e >> 40) & 0xFF) as u8 == f
        &&& ((e >> 49) & 0x7F) as u8 == k
        &&& ((e >> 56) & 0xF) as u8 == s
        &&& ((e >> 63) == 1) == (a == 1)
    }) by (bit_vector)
        requires
            u < 0x20_0000,
            m < 0x800,
            l < 0x8,
            h < 0x20,
            k < 0x80,
            s < 0x10,
            a <= 1,
            e == (u as u64 & 0x1F_FFFF) | (m as u64 & 0x7FF) << 21 | (l as u64 & 0x7) << 32 | (h as u64
                & 0x1F) << 35 | (f as u64) << 40 | (k as u64 & 0x7F) << 49 | (s as u64 & 0xF) << 56
                | 4u64 << 60 | a << 63,
    ;
}

/// Encoded product information is 134 bytes long and decodes to itself.
pub proof fn lemma_product_information_roundtrip(p: ProductInformation)
    ensures
        p.encoded().len() == PRODUCT_INFORMATION_LEN,
        p.decodes_from(p.encoded()),
{
    let d = p.encoded();
    lemma_le16_roundtrip(p.version);
    lemma_le16_roundtrip(p.product_code);
    assert(d.len() == 134);
    assert(window(d, 4, 32) =~= p.model_id@);
    assert(window(d, 36, 32) =~= p.software_version@);
    assert(window(d, 68, 32) =~= p.model_version@);
    assert(window(d, 100, 32) =~= p.serial_code@);
}

/// A payload decodes to at most one product information.
pub proof fn lemma_product_information_unique(a: ProductInformation, b: ProductInformation, data: Seq<u8>)
    requires
        a.decodes_from(data),
        b.decodes_from(data),
    ensures
        a == b,
{
    assert(a.model_id =~= b.model_id);
    assert(a.software_version =~= b.software_version);
    assert(a.model_version =~= b.model_version);
    assert(a.serial_code =~= b.serial_code);
}

} // verus!
