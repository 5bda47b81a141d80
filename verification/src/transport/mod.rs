//! Transport layer: device discovery and platform connectivity decisions.

pub mod adb;
pub mod device;
pub mod resolve;
pub mod adb_source;
pub mod usbmuxd;
pub mod usbmuxd_source;
pub mod local_source;
pub mod lockdown;
