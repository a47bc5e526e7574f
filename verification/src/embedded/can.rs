//! What the first firmware does with each packet from the bus.

use vstd::prelude::*;

use crate::bus::{Nmea2000, NodeState};
use crate::embedded::app::Boat;
use crate::embedded::ble::Characteristic;
use crate::packets::handshake::ProductInformation;
use crate::packets::{sent_frames, Packet};
use crate::util::{fixed_string, window};

verus! {

/// `r` is the product information this bridge announces: database version
/// 1, product code 1, model "windlink", software "v0.1.0", model version "v1",
/// serial "1234", certification level 0, load equivalency 0; the strings
/// zero-padded to 32 bytes.
pub open spec fn is_bridge_info(r: ProductInformation) -> bool {
    &&& r.version == 1
    &&& r.product_code == 1
    &&& r.model_id@ == window(seq![0x77u8, 0x69, 0x6e, 0x64, 0x6c, 0x69, 0x6e, 0x6b], 0, 32)
    &&& r.software_version@ == window(seq![0x76u8, 0x30, 0x2e, 0x31, 0x2e, 0x30], 0, 32)
    &&& r.model_version@ == window(seq![0x76u8, 0x31], 0, 32)
    &&& r.serial_code@ == window(seq![0x31u8, 0x32, 0x33, 0x34], 0, 32)
    &&& r.certification_level == 0
    &&& r.load_equivalency == 0
}

/// Exactly one product information is the bridge's.
pub proof fn lemma_bridge_info_unique(a: ProductInformation, b: ProductInformation)
    requires
        is_bridge_info(a),
        is_bridge_info(b),
    ensures
        a == b,
{
    assert(a.model_id =~= b.model_id);
    assert(a.software_version =~= b.software_version);
    assert(a.model_version =~= b.model_version);
    assert(a.serial_code =~= b.serial_code);
}

/// The product information this bridge announces.
pub fn product_info() -> (r: ProductInformation)
    ensures
        is_bridge_info(r),
{
    let model_id: [u8; 8] = [0x77, 0x69, 0x6e, 0x64, 0x6c, 0x69, 0x6e, 0x6b];
    let software_version: [u8; 6] = [0x76, 0x30, 0x2e, 0x31, 0x2e, 0x30];
    let model_version: [u8; 2] = [0x76, 0x31];
    let serial_code: [u8; 4] = [0x31, 0x32, 0x33, 0x34];
    assert(model_id@ =~= seq![0x77u8, 0x69, 0x6e, 0x64, 0x6c, 0x69, 0x6e, 0x6b]);
    assert(software_version@ =~= seq![0x76u8, 0x30, 0x2e, 0x31, 0x2e, 0x30]);
    assert(model_version@ =~= seq![0x76u8, 0x31]);
    assert(serial_code@ =~= seq![0x31u8, 0x32, 0x33, 0x34]);
    ProductInformation {
        version: 1,
        product_code: 1,
        model_id: fixed_string(&model_id),
        software_version: fixed_string(&software_version),
        model_version: fixed_string(&model_version),
        serial_code: fixed_string(&serial_code),
        certification_level: 0,
        load_equivalency: 0,
    }
}

/// Handles a packet received from the bus: answers a request for product
/// information by queueing it, and records position, speed over ground and
/// wind. Returns the characteristic whose new value is to be indicated.
pub fn on_packet(boat: &mut Boat, nmea2000: &mut Nmea2000, packet: Packet) -> (notify: Option<
    Characteristic,
>)
    requires
        old(nmea2000).wf(),
    ensures
        final(nmea2000).wf(),
        match packet {
            Packet::IsoRequest(q) => {
                &&& notify is None
                &&& *final(boat) == *old(boat)
                &&& q.pgn == ProductInformation::PGN ==> exists|p: ProductInformation| #[trigger]
                    final(nmea2000)@ == (NodeState {
                        queue: old(nmea2000)@.queue + sent_frames(Packet::ProductInformation(p)),
                        ..old(nmea2000)@
                    }) && is_bridge_info(p)
                &&& q.pgn != ProductInformation::PGN ==> final(nmea2000)@ == old(nmea2000)@
            },
            Packet::PositionRapidUpdate(p) => {
                &&& notify == Some(Characteristic::Position)
                &&& *final(boat) == (Boat { latitude: p.latitude, longitude: p.longitude, ..*old(boat) })
                &&& final(nmea2000)@ == old(nmea2000)@
            },
            Packet::CogSogRapidUpdate(p) => {
                &&& notify == Some(Characteristic::Speed)
                &&& *final(boat) == (Boat { speed_over_ground: p.sog, ..*old(boat) })
                &&& final(nmea2000)@ == old(nmea2000)@
            },
            Packet::WindData(p) => {
                &&& notify == Some(Characteristic::Wind)
                &&& *final(boat) == (Boat {
                    wind_speed: p.wind_speed,
                    wind_angle: p.wind_angle,
                    ..*old(boat)
                })
                &&& final(nmea2000)@ == old(nmea2000)@
            },
            _ => {
                &&& notify is None
                &&& *final(boat) == *old(boat)
                &&& final(nmea2000)@ == old(nmea2000)@
            },
        },
{
    match packet {
        Packet::IsoRequest(request) => {
            if request.pgn == ProductInformation::PGN {
                let info = product_info();
                nmea2000.enqueue(Packet::ProductInformation(info));
            }
            None
        },
        Packet::PositionRapidUpdate(p) => Some(boat.position_update(p.latitude, p.longitude)),
        Packet::CogSogRapidUpdate(p) => Some(boat.speed_update(p.sog)),
        Packet::WindData(p) => Some(boat.wind_update(p.wind_speed, p.wind_angle)),
        _ => None,
    }
}

} // verus!
