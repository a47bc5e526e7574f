//! The boat data the firmware keeps and the BLE payload built from it.

use vstd::prelude::*;

use crate::application::ble::Characteristic;
use crate::bus::{Nmea2000, NodeState};
use crate::embedded::can::{is_bridge_info, product_info};
use crate::packets::handshake::ProductInformation;
use crate::packets::{sent_frames, Packet};
use crate::util::{le16_bytes, push_le16};

verus! {

/// The latest navigation data received from the bus.
#[derive(Debug, Clone, Copy, PartialEq, Eq, Structural)]
pub struct Boat {
    pub latitude: i32,
    pub longitude: i32,
    pub wind_speed: u16,
    pub wind_angle: u16,
    pub speed_over_ground: u16,
}

/// Events for the status light.
#[derive(Debug, Clone, Copy, PartialEq, Eq, Structural)]
pub enum IndicatorEvent {
    /// Frames are arriving from the bus.
    CanOnline,
}

impl Default for Boat {
    fn default() -> (r: Self)
        ensures
            r == (Boat {
                latitude: 0,
                longitude: 0,
                wind_speed: 0,
                wind_angle: 0,
                speed_over_ground: 0,
            }),
    {
        Boat { latitude: 0, longitude: 0, wind_speed: 0, wind_angle: 0, speed_over_ground: 0 }
    }
}

impl Boat {
    /// The wind-screen payload: speed over ground, wind speed and wind angle,
    /// two bytes each, little-endian.
    pub open spec fn wind_screen_bytes(self) -> Seq<u8> {
        le16_bytes(self.speed_over_ground) + le16_bytes(self.wind_speed) + le16_bytes(
            self.wind_angle,
        )
    }

    /// The payload of a characteristic.
    pub open spec fn packet_bytes(self, characteristic: Characteristic) -> Seq<u8> {
        match characteristic {
            Characteristic::WindScreen => self.wind_screen_bytes(),
        }
    }

    /// The value read from, or indicated on, a characteristic.
    pub fn packet(&self, characteristic: Characteristic) -> (r: Vec<u8>)
        ensures
            r@ == self.packet_bytes(characteristic),
    {
        match characteristic {
            Characteristic::WindScreen => self.wind_screen_packet(),
        }
    }

    fn wind_screen_packet(&self) -> (r: Vec<u8>)
        ensures
            r@ == self.wind_screen_bytes(),
    {
        let mut out: Vec<u8> = Vec::new();
        push_le16(&mut out, self.speed_over_ground);
        push_le16(&mut out, self.wind_speed);
        push_le16(&mut out, self.wind_angle);
        out
    }

    /// Records a new position; nothing is indicated.
    pub fn position_update(&mut self, lat: i32, lon: i32)
        ensures
            *final(self) == (Boat { latitude: lat, longitude: lon, ..*old(self) }),
    {
        self.latitude = lat;
        self.longitude = lon;
    }

    /// Records a new speed over ground; the wind screen is to be indicated.
    pub fn speed_update(&mut self, speed: u16) -> (notify: Characteristic)
        ensures
            *final(self) == (Boat { speed_over_ground: speed, ..*old(self) }),
            notify == Characteristic::WindScreen,
    {
        self.speed_over_ground = speed;
        Characteristic::WindScreen
    }

    /// Records new wind data; the wind screen is to be indicated.
    pub fn wind_update(&mut self, speed: u16, angle: u16) -> (notify: Characteristic)
        ensures
            *final(self) == (Boat { wind_speed: speed, wind_angle: angle, ..*old(self) }),
            notify == Characteristic::WindScreen,
    {
        self.wind_speed = speed;
        self.wind_angle = angle;
        Characteristic::WindScreen
    }
}

/// Handles a packet received from the bus: answers a request for product
/// information by queueing it, records position (not indicated), and records
/// speed over ground and wind. Returns the characteristic whose new value is
/// to be indicated.
pub fn on_packet(boat: &mut Boat, nmea2000: &mut Nmea2000, packet: Packet) -> (notify: Option<
    Characteristic,
>)
    requires
        old(nmea2000).wf(),
    ensures
        final(nmea2000).wf(),
        match packet {
            Packet::IsoRequest(q) => {
                &&& notify is None
                &&& *final(boat) == *old(boat)
                &&& q.pgn == ProductInformation::PGN ==> exists|p: ProductInformation| #[trigger]
                    final(nmea2000)@ == (NodeState {
                        queue: old(nmea2000)@.queue + sent_frames(Packet::ProductInformation(p)),
                        ..old(nmea2000)@
                    }) && is_bridge_info(p)
                &&& q.pgn != ProductInformation::PGN ==> final(nmea2000)@ == old(nmea2000)@
            },
            Packet::PositionRapidUpdate(p) => {
                &&& notify is None
                &&& *final(boat) == (Boat { latitude: p.latitude, longitude: p.longitude, ..*old(boat) })
                &&& final(nmea2000)@ == old(nmea2000)@
            },
            Packet::CogSogRapidUpdate(p) => {
                &&& notify == Some(Characteristic::WindScreen)
                &&& *final(boat) == (Boat { speed_over_ground: p.sog, ..*old(boat) })
                &&& final(nmea2000)@ == old(nmea2000)@
            },
            Packet::WindData(p) => {
                &&& notify == Some(Characteristic::WindScreen)
                &&& *final(boat) == (Boat {
                    wind_speed: p.wind_speed,
                    wind_angle: p.wind_angle,
                    ..*old(boat)
                })
                &&& final(nmea2000)@ == old(nmea2000)@
            },
            _ => {
                &&& notify is None
                &&& *final(boat) == *old(boat)
                &&& final(nmea2000)@ == old(nmea2000)@
            },
        },
{
    match packet {
        Packet::IsoRequest(request) => {
            if request.pgn == ProductInformation::PGN {
                let info = product_info();
                nmea2000.enqueue(Packet::ProductInformation(info));
            }
            None
        },
        Packet::PositionRapidUpdate(p) => {
            boat.position_update(p.latitude, p.longitude);
            None
        },
        Packet::CogSogRapidUpdate(p) => Some(boat.speed_update(p.sog)),
        Packet::WindData(p) => Some(boat.wind_update(p.wind_speed, p.wind_angle)),
        _ => None,
    }
}

/// The clients that stay after a frame was written to each, where
/// `closed[i]` says the write to client `i` found its connection closed:
/// those whose connection is open, in their order.
pub open spec fn still_open<T>(clients: Seq<T>, closed: Seq<bool>) -> Seq<T>
    decreases clients.len(),
{
    if clients.len() == 0 {
        Seq::empty()
    } else {
        let kept = still_open(clients.drop_last(), closed.drop_last());
        if closed.last() {
            kept
        } else {
            kept.push(clients.last())
        }
    }
}

/// Drops the clients whose connection a write found closed, keeping the
/// others in order.
pub fn retain_open<T>(clients: &mut Vec<T>, closed: &Vec<bool>)
    requires
        old(clients)@.len() == closed@.len(),
    ensures
        final(clients)@ == still_open(old(clients)@, closed@),
{
    let ghost start = old(clients)@;
    let mut i: usize = 0;
    let mut j: usize = 0;
    while j < closed.len()
        invariant
            start == old(clients)@,
            start.len() == closed@.len(),
            i <= j <= closed@.len(),
            still_open(start.take(j as int), closed@.take(j as int)).len() == i,
            clients@ == still_open(start.take(j as int), closed@.take(j as int)) + start.skip(
                j as int,
            ),
        decreases closed@.len() - j,
    {
        let ghost kept = still_open(start.take(j as int), closed@.take(j as int));
        assert(start.take(j + 1).drop_last() =~= start.take(j as int));
        assert(closed@.take(j + 1).drop_last() =~= closed@.take(j as int));
        assert(clients@[i as int] == start[j as int]);
        if closed[j] {
            clients.remove(i);
            assert(clients@ =~= kept + start.skip(j + 1));
        } else {
            i = i + 1;
            assert(clients@ =~= kept.push(start[j as int]) + start.skip(j + 1));
        }
        j = j + 1;
    }
    assert(start.take(start.len() as int) =~= start);
    assert(closed@.take(closed@.len() as int) =~= closed@);
    assert(clients@ =~= still_open(start, closed@));
}

} // verus!
