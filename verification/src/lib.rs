//! NMEA 2000 protocol handling for the windlink bridge: CAN identifier
//! headers, single-frame and fast-packet payloads, the address-claim
//! procedure, and the data the embedded bridge publishes over BLE and TCP.

mod clock;

pub mod application;
pub mod bus;
pub mod embedded;
pub mod gatt;
pub mod header;
pub mod packets;
pub mod util;

pub use bus::Nmea2000;
pub use header::Header;
