//! The boat data the firmware keeps and the BLE payloads built from it.

use vstd::prelude::*;

use crate::embedded::ble::Characteristic;
use crate::util::{le16_bytes, le32_bytes, push_le16, push_le32};

verus! {

/// The latest navigation data received from the bus.
#[derive(Debug, Clone, Copy, PartialEq, Eq, Structural)]
pub struct Boat {
    pub latitude: i32,
    pub longitude: i32,
    pub wind_speed: u16,
    pub wind_angle: u16,
    pub speed_over_ground: u16,
}

impl Default for Boat {
    fn default() -> (r: Self)
        ensures
            r == (Boat {
                latitude: 0,
                longitude: 0,
                wind_speed: 0,
                wind_angle: 0,
                speed_over_ground: 0,
            }),
    {
        Boat { latitude: 0, longitude: 0, wind_speed: 0, wind_angle: 0, speed_over_ground: 0 }
    }
}

impl Boat {
    /// The position payload: longitude then latitude, each four bytes
    /// little-endian (two's complement).
    pub open spec fn position_bytes(self) -> Seq<u8> {
        le32_bytes(self.longitude as u32) + le32_bytes(self.latitude as u32)
    }

    /// The speed payload: speed over ground, two bytes little-endian.
    pub open spec fn speed_bytes(self) -> Seq<u8> {
        le16_bytes(self.speed_over_ground)
    }

    /// The wind payload: wind speed then wind angle, two bytes each,
    /// little-endian.
    pub open spec fn wind_bytes(self) -> Seq<u8> {
        le16_bytes(self.wind_speed) + le16_bytes(self.wind_angle)
    }

    /// The payload of a characteristic.
    pub open spec fn packet_bytes(self, characteristic: Characteristic) -> Seq<u8> {
        match characteristic {
            Characteristic::Position => self.position_bytes(),
            Characteristic::Speed => self.speed_bytes(),
            Characteristic::Wind => self.wind_bytes(),
        }
    }

    /// The value read from, or indicated on, a characteristic.
    pub fn packet(&self, characteristic: Characteristic) -> (r: Vec<u8>)
        ensures
            r@ == self.packet_bytes(characteristic),
    {
        match characteristic {
            Characteristic::Position => self.position_packet(),
            Characteristic::Speed => self.speed_packet(),
            Characteristic::Wind => self.wind_packet(),
        }
    }

    fn position_packet(&self) -> (r: Vec<u8>)
        ensures
            r@ == self.position_bytes(),
    {
        let mut out: Vec<u8> = Vec::new();
        push_le32(&mut out, self.longitude as u32);
        push_le32(&mut out, self.latitude as u32);
        out
    }

    fn speed_packet(&self) -> (r: Vec<u8>)
        ensures
            r@ == self.speed_bytes(),
    {
        let mut out: Vec<u8> = Vec::new();
        push_le16(&mut out, self.speed_over_ground);
        assert(out@ =~= self.speed_bytes());
        out
    }

    fn wind_packet(&self) -> (r: Vec<u8>)
        ensures
            r@ == self.wind_bytes(),
    {
        let mut out: Vec<u8> = Vec::new();
        push_le16(&mut out, self.wind_speed);
        push_le16(&mut out, self.wind_angle);
        out
    }

    /// Records a new position; the position characteristic is to be
    /// indicated.
    pub fn position_update(&mut self, lat: i32, lon: i32) -> (notify: Characteristic)
        ensures
            *final(self) == (Boat { latitude: lat, longitude: lon, ..*old(self) }),
            notify == Characteristic::Position,
    {
        self.latitude = lat;
        self.longitude = lon;
        Characteristic::Position
    }

    /// Records a new speed over ground; the speed characteristic is to be
    /// indicated.
    pub fn speed_update(&mut self, speed: u16) -> (notify: Characteristic)
        ensures
            *final(self) == (Boat { speed_over_ground: speed, ..*old(self) }),
            notify == Characteristic::Speed,
    {
        self.speed_over_ground = speed;
        Characteristic::Speed
    }

    /// Records new wind data; the wind characteristic is to be indicated.
    pub fn wind_update(&mut self, speed: u16, angle: u16) -> (notify: Characteristic)
        ensures
            *final(self) == (Boat { wind_speed: speed, wind_angle: angle, ..*old(self) }),
            notify == Characteristic::Wind,
    {
        self.wind_speed = speed;
        self.wind_angle = angle;
        Characteristic::Wind
    }
}

} // verus!
