use windlink::packets::handshake::{AddressClaim, IsoRequest, ProductInformation};
use windlink::packets::motion::{
    CogSogRapidUpdate, PositionRapidUpdate, VesselHeading, WindData,
};
use windlink::packets::proprietary::SimnetAp;
use windlink::packets::{Packet, RawPacket};
use windlink::util::{bits, bits_u8, fixed_string, u64_from_le, u64_to_le};
use windlink::Header;

#[test]
fn bit_masks() {
    assert_eq!(bits(0), 0);
    assert_eq!(bits(5), 0x1F);
    assert_eq!(bits(32), 0xFFFF_FFFF);
    assert_eq!(bits(63), 0x7FFF_FFFF_FFFF_FFFF);
    assert_eq!(bits_u8(3), 7);
    assert_eq!(bits_u8(7), 0x7F);
}

#[test]
fn little_endian_bytes() {
    assert_eq!(u64_to_le(0x0807_0605_0403_0201), [1, 2, 3, 4, 5, 6, 7, 8]);
    assert_eq!(u64_from_le([1, 2, 3, 4, 5, 6, 7, 8]), 0x0807_0605_0403_0201);
}

#[test]
fn position_fields() {
    let p = PositionRapidUpdate::deserialize(0x0000_0002_0000_0001);
    assert_eq!(p, PositionRapidUpdate { latitude: 1, longitude: 2 });
    let q = PositionRapidUpdate::deserialize(0xFFFF_FFFE_7FFF_FFFF);
    assert_eq!(q, PositionRapidUpdate { latitude: i32::MAX, longitude: -2 });
    assert_eq!(q.serialize(), 0xFFFF_FFFE_7FFF_FFFF);
}

#[test]
fn position_negative_latitude_keeps_longitude() {
    let p = PositionRapidUpdate { latitude: -1, longitude: 0 };
    assert_eq!(p.serialize(), 0x0000_0000_FFFF_FFFF);
    assert_eq!(PositionRapidUpdate::deserialize(p.serialize()), p);
    assert_eq!(PositionRapidUpdate::deserialize(0x2_FFFF_FFFF).serialize(), 0x2_FFFF_FFFF);
}

#[test]
fn cog_sog_fields() {
    let p = CogSogRapidUpdate::deserialize(0x1234_5678_9ABC_FFAA);
    assert_eq!(p, CogSogRapidUpdate { sid: 0xAA, cog_reference: 3, cog: 0x9ABC, sog: 0x5678 });
    assert_eq!(p.serialize(), 0x0000_5678_9ABC_03AA);
}

#[test]
fn heading_fields() {
    let p = VesselHeading { sid: 1, heading: 0x2233, deviation: 0x4455, variation: 0x6677, reference: 1 };
    assert_eq!(p.serialize(), 0x0166_7744_5522_3301);
    assert_eq!(VesselHeading::deserialize(p.serialize()), p);
    assert_eq!(VesselHeading::deserialize(u64::MAX).reference, 3);
}

#[test]
fn wind_fields() {
    let p = WindData { sid: 9, wind_speed: 512, wind_angle: 31415, reference: 2 };
    assert_eq!(p.serialize(), 0x0000_027A_B702_0009);
    assert_eq!(WindData::deserialize(p.serialize()), p);
    assert_eq!(WindData::deserialize(u64::MAX).reference, 7);
}

#[test]
fn iso_request_fields() {
    let r = IsoRequest::deserialize(0xFFFF_FFFF_FF01_F014);
    assert_eq!(r, IsoRequest { pgn: 0x01F014 });
    assert_eq!(r.serialize(), 0x01F014);
}

#[test]
fn address_claim_name() {
    let c = AddressClaim {
        unique_number: 1824692,
        manufacturer_code: 2000,
        device_instance_lower: 0,
        device_instance_upper: 0,
        device_function: 150,
        device_class: 80,
        system_instance: 0,
        arbitrary_address_capable: true,
    };
    assert_eq!(c.serialize(), 0xC0A0_9600_FA1B_D7B4);
    assert_eq!(AddressClaim::deserialize(c.serialize()), c);
}

#[test]
fn simnet_roundtrip() {
    let s = SimnetAp { address: 6, proprietary: 255, command: 10, event: 6 };
    let bytes = s.serialize();
    assert_eq!(bytes, [0x41, 0x87, 6, 0xFF, 255, 10, 6, 0xFF, 0xFF, 0xFF, 0xFF, 0xFF]);
    assert_eq!(SimnetAp::deserialize(&bytes), s);
}

fn info() -> ProductInformation {
    ProductInformation {
        version: 2100,
        product_code: 7,
        model_id: fixed_string(b"windlink"),
        software_version: fixed_string(b"v0.1.0"),
        model_version: fixed_string(b"v1"),
        serial_code: fixed_string(b"1234"),
        certification_level: 1,
        load_equivalency: 2,
    }
}

#[test]
fn fixed_string_pads_and_cuts() {
    let s = fixed_string(b"v1");
    assert_eq!(&s[..3], &[b'v', b'1', 0]);
    assert!(s[2..].iter().all(|&b| b == 0));
    let long = [b'x'; 40];
    assert_eq!(fixed_string(&long), [b'x'; 32]);
}

#[test]
fn product_information_roundtrip() {
    let p = info();
    let bytes = p.serialize();
    assert_eq!(bytes.len(), 134);
    assert_eq!(&bytes[..4], &[0x34, 0x08, 7, 0]);
    assert_eq!(&bytes[4..12], b"windlink");
    assert_eq!(&bytes[132..], &[1, 2]);
    let q = ProductInformation::deserialize(&bytes);
    assert_eq!(q.version, 2100);
    assert_eq!(q.product_code, 7);
    assert_eq!(q.model_id, p.model_id);
    assert_eq!(q.software_version, p.software_version);
    assert_eq!(q.model_version, p.model_version);
    assert_eq!(q.serial_code, p.serial_code);
    assert_eq!(q.certification_level, 1);
    assert_eq!(q.load_equivalency, 2);
}

#[test]
fn product_information_short_payload_reads_zero() {
    let q = ProductInformation::deserialize(&[1, 2, 3]);
    assert_eq!(q.version, 0x0201);
    assert_eq!(q.product_code, 3);
    assert_eq!(q.model_id, [0; 32]);
    assert_eq!(q.load_equivalency, 0);
}

#[test]
fn deserialize_single_dispatches_on_pgn() {
    let data = u64_to_le(0x0000_0002_0000_0001);
    match Packet::deserialize_single(PositionRapidUpdate::PGN, data) {
        Some(Packet::PositionRapidUpdate(p)) => {
            assert_eq!(p, PositionRapidUpdate { latitude: 1, longitude: 2 })
        }
        other => panic!("unexpected {other:?}"),
    }
    match Packet::deserialize_single(IsoRequest::PGN, u64_to_le(0xEE00)) {
        Some(Packet::IsoRequest(r)) => assert_eq!(r.pgn, 0xEE00),
        other => panic!("unexpected {other:?}"),
    }
    assert!(Packet::deserialize_single(0x1F014, data).is_none());
    assert!(Packet::deserialize_single(SimnetAp::PGN, data).is_none());
}

#[test]
fn deserialize_fast_only_product_information() {
    let bytes = info().serialize();
    match Packet::deserialize_fast(ProductInformation::PGN, bytes.clone()) {
        Some(Packet::ProductInformation(p)) => assert_eq!(p.version, 2100),
        other => panic!("unexpected {other:?}"),
    }
    assert!(Packet::deserialize_fast(SimnetAp::PGN, bytes).is_none());
}

#[test]
fn serialize_iso_request_is_one_frame() {
    let mut out = vec![RawPacket::new_raw(1, [9; 8])];
    Packet::IsoRequest(IsoRequest { pgn: 0xEE00 }).serialize(&mut out);
    assert_eq!(out.len(), 2);
    assert_eq!(out[0], RawPacket::new_raw(1, [9; 8]));
    assert_eq!(out[1], RawPacket { id: 0x18EA_FF00, data: [0x00, 0xEE, 0, 0, 0, 0, 0, 0] });
}

#[test]
fn serialize_product_information_frames() {
    let mut out = Vec::new();
    let p = info();
    Packet::ProductInformation(p).serialize(&mut out);
    let bytes = p.serialize();
    assert_eq!(out.len(), 20);
    assert!(out.iter().all(|f| f.id == 0x19F0_1400));
    assert_eq!(out[0].data, [0, 134, 0x34, 0x08, 7, 0, b'w', b'i']);
    assert_eq!(out[1].data[0], 1);
    assert_eq!(&out[1].data[1..], &bytes[6..13]);
    assert_eq!(out[19].data[0], 19);
    assert_eq!(&out[19].data[1..], &[bytes[132], bytes[133], 0, 0, 0, 0, 0]);
}

#[test]
fn other_packets_send_nothing() {
    let mut out = Vec::new();
    Packet::WindData(WindData { sid: 0, wind_speed: 1, wind_angle: 2, reference: 0 })
        .serialize(&mut out);
    Packet::PositionRapidUpdate(PositionRapidUpdate { latitude: 1, longitude: 2 }).serialize(&mut out);
    assert!(out.is_empty());
}

#[test]
fn raw_packet_constructors() {
    let h = Header::new(WindData::PGN, 2);
    let r = RawPacket::new(h, 0x0807_0605_0403_0201);
    assert_eq!(r.id, h.serialize());
    assert_eq!(r.data, [1, 2, 3, 4, 5, 6, 7, 8]);
    assert_eq!(RawPacket::new_bytes(h, [7; 8]).data, [7; 8]);
}

#[test]
fn overwrite_source_keeps_priority_and_pgn() {
    let mut r = RawPacket::new(Header { priority: 3, source: 9, pgn: 0x1FD02 }, 0);
    r.overwrite_source(0x42);
    assert_eq!(Header::deserialize(r.id), Header { priority: 3, source: 0x42, pgn: 0x1FD02 });
    assert_eq!(r.data, [0; 8]);
}

#[test]
fn sent_request_decodes() {
    let mut out = Vec::new();
    Packet::IsoRequest(IsoRequest { pgn: 0x1F014 }).serialize(&mut out);
    let header = Header::deserialize(out[0].id);
    assert_eq!(header, Header { priority: 6, source: 0, pgn: IsoRequest::PGN });
    match Packet::deserialize_single(header.pgn, out[0].data) {
        Some(Packet::IsoRequest(r)) => assert_eq!(r, IsoRequest { pgn: 0x1F014 }),
        other => panic!("unexpected {other:?}"),
    }
}
