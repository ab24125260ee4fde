//! Verified core of a CPU-temperature driven fan controller for Lian Li
//! UNI fan hubs: the configuration model, the curve lookup, the HID report
//! protocol, the device registry and the sensor selection.

pub mod cli;
pub mod config;
pub mod control;
pub mod curve;
pub mod device;
pub mod protocol;
pub mod sensors;
pub mod temperature;
