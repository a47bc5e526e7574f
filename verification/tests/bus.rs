use std::time::{Duration, Instant};

use windlink::bus::Nmea2000;
use windlink::packets::fast::{encode_fast_packet, is_known_fast_packet, FastPacket};
use windlink::packets::handshake::{AddressClaim, IsoRequest, ProductInformation};
use windlink::packets::motion::WindData;
use windlink::packets::proprietary::SimnetAp;
use windlink::packets::{Packet, RawPacket};
use windlink::util::{fixed_string, u64_to_le};
use windlink::Header;

fn wait(ms: u64) {
    let start = Instant::now();
    while start.elapsed() < Duration::from_millis(ms) {}
}

fn name(unique_number: u32) -> AddressClaim {
    AddressClaim {
        unique_number,
        manufacturer_code: 2000,
        device_instance_lower: 0,
        device_instance_upper: 0,
        device_function: 150,
        device_class: 80,
        system_instance: 0,
        arbitrary_address_capable: true,
    }
}

const CLAIM_ID: u32 = 0x18EE_FF00;

fn claim_data(c: &AddressClaim) -> [u8; 8] {
    u64_to_le(c.serialize())
}

#[test]
fn known_fast_packets() {
    assert!(is_known_fast_packet(ProductInformation::PGN));
    assert!(is_known_fast_packet(SimnetAp::PGN));
    assert!(!is_known_fast_packet(WindData::PGN));
}

#[test]
fn fast_packet_reassembly() {
    let data: Vec<u8> = (0..20).collect();
    let mut frames = Vec::new();
    encode_fast_packet(Header::new(SimnetAp::PGN, 2), 3, &data, &mut frames);
    assert_eq!(frames.len(), 3);
    assert_eq!(frames[0].data, [0x60, 20, 0, 1, 2, 3, 4, 5]);
    assert_eq!(frames[1].data, [0x61, 6, 7, 8, 9, 10, 11, 12]);
    assert_eq!(frames[2].data, [0x62, 13, 14, 15, 16, 17, 18, 19]);
    let mut packet = FastPacket::first(frames[0].data);
    assert_eq!(packet.total_length, 20);
    assert!(packet.finished().is_none());
    assert!(packet.append(frames[1].data).is_none());
    assert_eq!(packet.data.len(), 13);
    assert_eq!(packet.append(frames[2].data), Some(data));
    assert!(packet.data.is_empty());
}

#[test]
fn fast_packet_pads_with_ff() {
    let mut frames = Vec::new();
    encode_fast_packet(Header::new(SimnetAp::PGN, 2), 0, &[1, 2, 3, 4, 5, 6, 7], &mut frames);
    assert_eq!(frames.len(), 2);
    assert_eq!(frames[1].data, [1, 7, 0xFF, 0xFF, 0xFF, 0xFF, 0xFF, 0xFF]);
}

#[test]
fn fast_packet_short_payload_completes_at_once() {
    let mut packet = FastPacket::first([0, 3, 9, 8, 7, 6, 5, 4]);
    assert_eq!(packet.finished(), Some(vec![9, 8, 7]));
    assert!(packet.finished().is_none());
}

#[test]
fn new_node_claims_first() {
    let mut node = Nmea2000::new();
    let out = node.dequeue();
    assert_eq!(out.len(), 1);
    assert_eq!(out[0].id, CLAIM_ID);
    assert_eq!(out[0].data, claim_data(&name(1824692)));
    assert!(node.dequeue().is_empty());
}

#[test]
fn claim_holds_after_hold_off_when_bus_is_alive() {
    let mut node = Nmea2000::new().with_prefered_address(0x23);
    let first = node.dequeue();
    assert_eq!(first[0].id, 0x18EE_FF23);
    node.on_packet(0x09FD_0210, [0; 8]);
    node.enqueue(Packet::IsoRequest(IsoRequest { pgn: 0x1F014 }));
    assert!(node.dequeue().is_empty());
    wait(300);
    let out = node.dequeue();
    assert_eq!(out.len(), 1);
    assert_eq!(out[0].id, 0x18EA_FF23);
    assert_eq!(out[0].data, [0x14, 0xF0, 0x01, 0, 0, 0, 0, 0]);
    node.enqueue(Packet::IsoRequest(IsoRequest { pgn: 0xEE00 }));
    node.enqueue(Packet::IsoRequest(IsoRequest { pgn: 0xEA00 }));
    let out = node.dequeue();
    assert_eq!(out.len(), 2);
    assert_eq!(out[0].data[..3], [0x00, 0xEE, 0x00]);
    assert_eq!(out[1].data[..3], [0x00, 0xEA, 0x00]);
}

#[test]
fn quiet_bus_resets_hold_off_but_sends_queue() {
    let mut node = Nmea2000::new();
    node.dequeue();
    node.enqueue(Packet::IsoRequest(IsoRequest { pgn: 1 }));
    wait(300);
    assert_eq!(node.dequeue().len(), 1);
    let again = node.dequeue();
    assert_eq!(again.len(), 1);
    assert_eq!(again[0].id, CLAIM_ID);
}

#[test]
fn request_for_claims_is_answered() {
    let mut node = Nmea2000::new();
    node.dequeue();
    let request = Header { priority: 6, source: 9, pgn: IsoRequest::PGN }.serialize();
    match node.on_packet(request, u64_to_le(0xEE00)) {
        Some(Packet::IsoRequest(r)) => assert_eq!(r.pgn, 0xEE00),
        other => panic!("unexpected {other:?}"),
    }
    node.on_packet(0x09FD_0210, [0; 8]);
    wait(300);
    let out = node.dequeue();
    assert_eq!(out.len(), 1);
    assert_eq!(out[0].id, CLAIM_ID);
}

#[test]
fn lower_name_keeps_address() {
    let mut node = Nmea2000::new().with_address_claim(name(5));
    node.dequeue();
    node.on_packet(CLAIM_ID, claim_data(&name(6)));
    let out = node.dequeue();
    assert_eq!(out.len(), 1);
    assert_eq!(out[0].id, CLAIM_ID);
    assert_eq!(out[0].data, claim_data(&name(5)));
}

#[test]
fn higher_name_moves_on() {
    let mut node = Nmea2000::new().with_address_claim(name(7));
    node.dequeue();
    node.on_packet(CLAIM_ID, claim_data(&name(6)));
    let out = node.dequeue();
    assert_eq!(out.len(), 1);
    assert_eq!(out[0].id, 0x18EE_FF01);
}

#[test]
fn claim_from_other_address_is_ignored() {
    let mut node = Nmea2000::new().with_address_claim(name(7));
    node.dequeue();
    match node.on_packet(0x18EE_FF05, claim_data(&name(6))) {
        Some(Packet::AddressClaim(c)) => assert_eq!(c, name(6)),
        other => panic!("unexpected {other:?}"),
    }
    assert!(node.dequeue().is_empty());
}

#[test]
fn node_gives_up_after_every_address() {
    let mut node = Nmea2000::new().with_prefered_address(0xFB).with_address_claim(name(7));
    node.dequeue();
    let id = 0x18EE_FF00 | 0xFB;
    node.on_packet(id, claim_data(&name(6)));
    let out = node.dequeue();
    assert_eq!(out[0].id & 0xFF, 0);
    for address in 0..0xFBu32 {
        node.on_packet(0x18EE_FF00 | address, claim_data(&name(6)));
    }
    node.enqueue(Packet::IsoRequest(IsoRequest { pgn: 1 }));
    assert!(node.dequeue().is_empty());
    wait(300);
    assert!(node.dequeue().is_empty());
}

#[test]
fn product_information_travels_between_nodes() {
    let info = ProductInformation {
        version: 1,
        product_code: 1,
        model_id: fixed_string(b"windlink"),
        software_version: fixed_string(b"v0.1.0"),
        model_version: fixed_string(b"v1"),
        serial_code: fixed_string(b"1234"),
        certification_level: 0,
        load_equivalency: 0,
    };
    let mut frames: Vec<RawPacket> = Vec::new();
    Packet::ProductInformation(info).serialize(&mut frames);
    let mut receiver = Nmea2000::new();
    let mut got = None;
    for (i, frame) in frames.iter().enumerate() {
        let r = receiver.on_packet(frame.id, frame.data);
        if i + 1 < frames.len() {
            assert!(r.is_none());
        } else {
            got = r;
        }
    }
    match got {
        Some(Packet::ProductInformation(p)) => {
            assert_eq!(p.version, 1);
            assert_eq!(p.model_id, info.model_id);
            assert_eq!(p.serial_code, info.serial_code);
        }
        other => panic!("unexpected {other:?}"),
    }
}

#[test]
fn continuation_without_start_is_dropped() {
    let mut node = Nmea2000::new();
    let id = Header { priority: 6, source: 3, pgn: ProductInformation::PGN }.serialize();
    assert!(node.on_packet(id, [1, 1, 2, 3, 4, 5, 6, 7]).is_none());
}

#[test]
fn stale_reassembly_expires() {
    let mut frames: Vec<RawPacket> = Vec::new();
    let payload = [7u8; 20];
    encode_fast_packet(Header::new(ProductInformation::PGN, 6), 1, &payload, &mut frames);
    let mut node = Nmea2000::new();
    assert!(node.on_packet(frames[0].id, frames[0].data).is_none());
    wait(1100);
    assert!(node.on_packet(frames[1].id, frames[1].data).is_none());
    assert!(node.on_packet(frames[2].id, frames[2].data).is_none());
}

#[test]
fn single_frames_decode() {
    let mut node = Nmea2000::new();
    let w = WindData { sid: 1, wind_speed: 300, wind_angle: 1000, reference: 2 };
    let id = Header { priority: 2, source: 4, pgn: WindData::PGN }.serialize();
    match node.on_packet(id, u64_to_le(w.serialize())) {
        Some(Packet::WindData(got)) => assert_eq!(got, w),
        other => panic!("unexpected {other:?}"),
    }
}

#[test]
fn claim_frame_decodes() {
    let mut node = Nmea2000::new().with_address_claim(name(99));
    let out = node.dequeue();
    let header = Header::deserialize(out[0].id);
    assert_eq!(header.pgn, AddressClaim::PGN);
    match Packet::deserialize_single(header.pgn, out[0].data) {
        Some(Packet::AddressClaim(c)) => assert_eq!(c, name(99)),
        other => panic!("unexpected {other:?}"),
    }
    assert_eq!(node.address(), 0);
}

#[test]
fn hold_off_decision_at_250_ms() {
    let mut node = Nmea2000::new();
    let now = Instant::now();
    let out = node.flush_at(now, None);
    assert_eq!(out.len(), 1);
    assert_eq!(out[0].id, CLAIM_ID);
    node.enqueue(Packet::IsoRequest(IsoRequest { pgn: 1 }));
    assert!(node.flush_at(now, Some(249)).is_empty());
    node.on_packet(0x09FD_0210, [0; 8]);
    let out = node.flush_at(now, Some(250));
    assert_eq!(out.len(), 1);
    assert_eq!(out[0].data[0], 1);
    node.enqueue(Packet::IsoRequest(IsoRequest { pgn: 2 }));
    assert_eq!(node.flush_at(now, Some(0)).len(), 1);
}

#[test]
fn expire_drops_old_slots_only() {
    let mut frames: Vec<RawPacket> = Vec::new();
    let payload = [7u8; 20];
    encode_fast_packet(Header::new(ProductInformation::PGN, 6), 1, &payload, &mut frames);
    encode_fast_packet(Header::new(ProductInformation::PGN, 6), 2, &payload, &mut frames);
    let mut node = Nmea2000::new();
    assert!(node.on_packet(frames[0].id, frames[0].data).is_none());
    assert!(node.on_packet(frames[3].id, frames[3].data).is_none());
    let key = |seq: u64| (ProductInformation::PGN as u64) * 256 + seq;
    node.expire(&vec![(key(1), 999), (key(2), 1000)]);
    assert!(node.on_packet(frames[1].id, frames[1].data).is_none());
    match node.on_packet(frames[2].id, frames[2].data) {
        Some(Packet::ProductInformation(p)) => assert_eq!(p.version, 0x0707),
        other => panic!("unexpected {other:?}"),
    }
    assert!(node.on_packet(frames[4].id, frames[4].data).is_none());
    assert!(node.on_packet(frames[5].id, frames[5].data).is_none());
}

#[test]
fn raw_frames_leave_in_order() {
    let mut node = Nmea2000::new().with_prefered_address(7);
    node.dequeue();
    node.on_packet(0x09FD_0210, [0; 8]);
    wait(300);
    node.enqueue_raw(RawPacket::new_raw(0x09FF_2200, [1; 8]));
    node.enqueue(Packet::IsoRequest(IsoRequest { pgn: 3 }));
    node.enqueue_raw(RawPacket::new_raw(0x09FF_2200, [2; 8]));
    let out = node.dequeue();
    assert_eq!(out.len(), 3);
    assert_eq!(out[0], RawPacket { id: 0x09FF_2207, data: [1; 8] });
    assert_eq!(out[1].data[0], 3);
    assert_eq!(out[2], RawPacket { id: 0x09FF_2207, data: [2; 8] });
}

#[test]
fn first_and_append_rebuild_every_length() {
    for len in 0..=223usize {
        let data: Vec<u8> = (0..len).map(|i| i as u8).collect();
        let mut frames = Vec::new();
        encode_fast_packet(Header::new(SimnetAp::PGN, 2), 5, &data, &mut frames);
        let mut packet = FastPacket::first(frames[0].data);
        if len <= 6 {
            assert_eq!(frames.len(), 1);
            assert_eq!(packet.finished(), Some(data));
            continue;
        }
        for (j, frame) in frames.iter().enumerate().skip(1) {
            let r = packet.append(frame.data);
            if j + 1 < frames.len() {
                assert!(r.is_none());
            } else {
                assert_eq!(r, Some(data.clone()));
            }
        }
    }
}

fn product_info_key(seq: u64) -> u64 {
    (ProductInformation::PGN as u64) * 256 + seq
}

#[test]
fn interleaved_fast_packets_reassemble_with_fresh_ages() {
    let mut frames: Vec<RawPacket> = Vec::new();
    let payload = [7u8; 20];
    encode_fast_packet(Header::new(ProductInformation::PGN, 6), 1, &payload, &mut frames);
    encode_fast_packet(Header::new(ProductInformation::PGN, 6), 2, &payload, &mut frames);
    let mut node = Nmea2000::new();
    let fresh = vec![(product_info_key(1), 999), (product_info_key(2), 0)];
    let order = [0usize, 3, 1, 4, 2, 5];
    let mut done = 0;
    for &i in order.iter() {
        let r = node.on_packet_at(frames[i].id, frames[i].data, &fresh);
        if i == 2 || i == 5 {
            match r {
                Some(Packet::ProductInformation(p)) => assert_eq!(p.version, 0x0707),
                other => panic!("unexpected {other:?}"),
            }
            done += 1;
        } else {
            assert!(r.is_none());
        }
    }
    assert_eq!(done, 2);
}

#[test]
fn slot_aged_a_second_is_dropped_before_the_frame() {
    let mut frames: Vec<RawPacket> = Vec::new();
    let payload = [7u8; 20];
    encode_fast_packet(Header::new(ProductInformation::PGN, 6), 1, &payload, &mut frames);
    let mut node = Nmea2000::new();
    assert!(node.on_packet_at(frames[0].id, frames[0].data, &Vec::new()).is_none());
    let stale = vec![(product_info_key(1), 1000)];
    assert!(node.on_packet_at(frames[1].id, frames[1].data, &stale).is_none());
    assert!(node.on_packet_at(frames[2].id, frames[2].data, &Vec::new()).is_none());
}

#[test]
fn restarted_fast_packet_replaces_the_partial_one() {
    let mut frames: Vec<RawPacket> = Vec::new();
    encode_fast_packet(Header::new(ProductInformation::PGN, 6), 1, &[9u8; 20], &mut frames);
    encode_fast_packet(Header::new(ProductInformation::PGN, 6), 1, &[7u8; 20], &mut frames);
    let mut node = Nmea2000::new();
    assert!(node.on_packet_at(frames[0].id, frames[0].data, &Vec::new()).is_none());
    assert!(node.on_packet_at(frames[1].id, frames[1].data, &Vec::new()).is_none());
    assert!(node.on_packet_at(frames[3].id, frames[3].data, &Vec::new()).is_none());
    assert!(node.on_packet_at(frames[4].id, frames[4].data, &Vec::new()).is_none());
    match node.on_packet_at(frames[5].id, frames[5].data, &Vec::new()) {
        Some(Packet::ProductInformation(p)) => assert_eq!(p.version, 0x0707),
        other => panic!("unexpected {other:?}"),
    }
}
