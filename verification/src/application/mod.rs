//! The current bridge firmware: one BLE characteristic with speed and wind,
//! a status light, and a TCP bridge that forwards raw CAN frames.

pub mod app;
pub mod ble;
pub mod indicator;
pub mod wifi;
