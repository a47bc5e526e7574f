//! The first bridge firmware: publishes position, speed and wind as three
//! BLE characteristics and answers product-information requests on the bus.

pub mod app;
pub mod ble;
pub mod can;
pub mod wifi;
