//! The 29-bit extended CAN identifier of an NMEA 2000 frame.

use vstd::prelude::*;

verus! {

/// Priority, source address and parameter group number (PGN) of a frame.
#[derive(Debug, Clone, Copy, PartialEq, Eq, Structural)]
pub struct Header {
    pub priority: u8,
    pub source: u8,
    pub pgn: u32,
}

/// The data-page bit of an identifier.
pub open spec fn id_data_page(id: u32) -> u32 {
    (id >> 24) & 1
}

/// The PDU-format byte of an identifier.
pub open spec fn id_pdu_format(id: u32) -> u32 {
    (id >> 16) & 0xFF
}

/// The PDU-specific byte of an identifier (destination or group extension).
pub open spec fn id_pdu_specific(id: u32) -> u32 {
    (id >> 8) & 0xFF
}

/// The PGN carried by an identifier: for PDU1 formats (below 0xF0) the
/// PDU-specific byte is a destination address and is not part of the PGN.
pub open spec fn id_pgn(id: u32) -> u32 {
    if id_pdu_format(id) < 0xF0 {
        (id_data_page(id) << 16) | (id_pdu_format(id) << 8)
    } else {
        (id_data_page(id) << 16) | (id_pdu_format(id) << 8) | id_pdu_specific(id)
    }
}

/// The header that an identifier decodes to.
pub open spec fn header_of_id(id: u32) -> Header {
    Header {
        priority: ((id >> 26) & 0x7) as u8,
        source: (id & 0xFF) as u8,
        pgn: id_pgn(id),
    }
}

/// The identifier a header encodes to; a PDU1 PGN is sent to the global
/// address 0xFF.
pub open spec fn id_of_header(h: Header) -> u32 {
    let data_page = (h.pgn >> 16) & 1;
    let pdu_format = (h.pgn >> 8) & 0xFF;
    let pdu_specific: u32 = if pdu_format < 0xF0 {
        0xFF
    } else {
        h.pgn & 0xFF
    };
    ((h.priority as u32 & 0x7) << 26) | (data_page << 24) | (pdu_format << 16) | (pdu_specific << 8)
        | (h.source as u32 & 0xFF)
}

/// A header that an identifier can carry unchanged: a 3-bit priority, a PGN of
/// at most 17 bits, and no PDU-specific byte in a PDU1 PGN.
pub open spec fn is_canonical_header(h: Header) -> bool {
    &&& h.priority < 8
    &&& h.pgn < 0x20000
    &&& ((h.pgn >> 8) & 0xFF) < 0xF0 ==> h.pgn & 0xFF == 0
}

impl Header {
    /// A header for `pgn` at `priority`, from source address 0.
    pub fn new(pgn: u32, priority: u8) -> (h: Self)
        ensures
            h == (Header { priority, source: 0, pgn }),
    {
        Self { priority, source: 0, pgn }
    }

    /// Decodes an extended CAN identifier; bits above the 29th are ignored.
    pub fn deserialize(id: u32) -> (h: Self)
        ensures
            h == header_of_id(id & 0x1FFFFFFF),
    {
        let id = id & 0x1FFFFFFF;
        let data_page = (id >> 24) & 1;
        let pdu_format = ((id >> 16) & 0xFF) as u8;
        let pdu_specific = ((id >> 8) & 0xFF) as u8;
        let pgn = if pdu_format < 0xF0 {
            (data_page << 16) | ((pdu_format as u32) << 8)
        } else {
            (data_page << 16) | ((pdu_format as u32) << 8) | (pdu_specific as u32)
        };
        assert(pdu_format as u32 == id_pdu_format(id) && pdu_specific as u32 == id_pdu_specific(id))
            by (bit_vector)
            requires
                pdu_format == ((id >> 16) & 0xFF) as u8,
                pdu_specific == ((id >> 8) & 0xFF) as u8,
        ;
        Self { priority: ((id >> 26) & 0x7) as u8, source: (id & 0xFF) as u8, pgn }
    }

    /// Encodes the header as an extended CAN identifier.
    pub fn serialize(&self) -> (id: u32)
        ensures
            id == id_of_header(*self),
    {
        let data_page = (self.pgn >> 16) & 1;
        let pdu_format = (self.pgn >> 8) & 0xFF;
        let pdu_specific = if pdu_format < 0xF0 {
            0xFF
        } else {
            self.pgn & 0xFF
        };
        ((self.priority as u32 & 0x7) << 26) | (data_page << 24) | (pdu_format << 16) | (pdu_specific
            << 8) | (self.source as u32 & 0xFF)
    }
}

/// Decoding the identifier of a canonical header gives the header back.
pub proof fn lemma_header_roundtrip(h: Header)
    requires
        is_canonical_header(h),
    ensures
        header_of_id(id_of_header(h) & 0x1FFFFFFF) == h,
{
    let p = h.priority as u32;
    let s = h.source as u32;
    let g = h.pgn;
    let id = id_of_header(h);
    assert(id == ((p & 0x7) << 26) | (((g >> 16) & 1) << 24) | (((g >> 8) & 0xFF) << 16) | ((if ((g
        >> 8) & 0xFF) < 0xF0 {
        0xFFu32
    } else {
        g & 0xFF
    }) << 8) | (s & 0xFF));
    assert({
        let i = id & 0x1FFFFFFF;
        &&& ((i >> 26) & 0x7) == p
        &&& (i & 0xFF) == s
        &&& id_pgn(i) == g
    }) by (bit_vector)
        requires
            p < 8,
            s < 256,
            g < 0x20000,
            ((g >> 8) & 0xFF) < 0xF0 ==> g & 0xFF == 0,
            id == ((p & 0x7) << 26) | (((g >> 16) & 1) << 24) | (((g >> 8) & 0xFF) << 16) | ((if ((g
                >> 8) & 0xFF) < 0xF0 {
                0xFFu32
            } else {
                g & 0xFF
            }) << 8) | (s & 0xFF),
    ;
}

/// Every decoded header is canonical, so decoding is a left inverse of
/// encoding on everything decoding produces.
pub proof fn lemma_decoded_header_canonical(id: u32)
    ensures
        is_canonical_header(header_of_id(id & 0x1FFFFFFF)),
        header_of_id(id_of_header(header_of_id(id & 0x1FFFFFFF)) & 0x1FFFFFFF) == header_of_id(
            id & 0x1FFFFFFF,
        ),
{
    let i = id & 0x1FFFFFFF;
    let g = id_pgn(i);
    assert(((i >> 26) & 0x7) < 8) by (bit_vector);
    assert(g < 0x20000 && (((g >> 8) & 0xFF) < 0xF0 ==> g & 0xFF == 0)) by (bit_vector)
        requires
            g == id_pgn(i),
    ;
    lemma_header_roundtrip(header_of_id(i));
}

} // verus!
