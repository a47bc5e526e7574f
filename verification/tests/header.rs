use windlink::Header;

#[test]
fn deserialize_pdu2_identifier() {
    let h = Header::deserialize(0x09F8_0103);
    assert_eq!(h, Header { priority: 2, source: 3, pgn: 0x1F801 });
}

#[test]
fn deserialize_pdu1_drops_destination() {
    let h = Header::deserialize(0x18EA_2305);
    assert_eq!(h, Header { priority: 6, source: 5, pgn: 0xEA00 });
}

#[test]
fn deserialize_ignores_bits_above_29() {
    assert_eq!(Header::deserialize(0xE9F8_0103), Header::deserialize(0x09F8_0103));
}

#[test]
fn serialize_pdu1_sends_to_global_address() {
    let h = Header { priority: 6, source: 5, pgn: 0xEA00 };
    assert_eq!(h.serialize(), 0x18EA_FF05);
}

#[test]
fn serialize_pdu2_keeps_group_extension() {
    let h = Header { priority: 2, source: 3, pgn: 0x1F801 };
    assert_eq!(h.serialize(), 0x09F8_0103);
}

#[test]
fn new_header_has_source_zero() {
    assert_eq!(Header::new(0x1F014, 6), Header { priority: 6, source: 0, pgn: 0x1F014 });
    assert_eq!(Header::new(0x1F014, 6).serialize(), 0x19F0_1400);
}

#[test]
fn header_roundtrip_on_canonical_headers() {
    for h in [
        Header { priority: 0, source: 0, pgn: 0 },
        Header { priority: 7, source: 255, pgn: 0x1FFFF },
        Header { priority: 3, source: 17, pgn: 0x1EE00 },
        Header { priority: 6, source: 200, pgn: 0xF004 },
    ] {
        assert_eq!(Header::deserialize(h.serialize()), h);
    }
}
