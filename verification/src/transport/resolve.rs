//! Transport planning: which connection a device needs for a target port.

use vstd::prelude::*;
use crate::transport::device::{ConnectionMethod, Device, DeviceKind};

verus! {

/// A transport plan: each variant carries exactly what the matching
/// connection step needs.
#[derive(Debug, Clone, PartialEq, Eq)]
pub enum TransportAddr {
    /// Connect directly to loopback at `port`.
    Localhost { port: u16 },
    /// Forward a local port to `port` on the device with this serial.
    AdbForward { serial: String, port: u16 },
    /// Tunnel to `port` on the usbmuxd device `device_id`.
    Usbmuxd { device_id: u32, port: u16 },
}

/// Reserved for transport-resolution failures; `resolve_transport_addr`
/// produces none today (the one variant exists because an error type
/// needs a value).
#[derive(Debug, Clone, PartialEq, Eq)]
#[non_exhaustive]
pub enum ResolveError {
    Unresolvable,
}

/// The plan for reaching `port` on `d`.
pub open spec fn transport_addr_spec(d: Device, port: u16) -> TransportAddr {
    match d.kind {
        DeviceKind::Local => TransportAddr::Localhost { port },
        DeviceKind::Android => TransportAddr::AdbForward { serial: d.id, port },
        DeviceKind::IosUsb { device_id } => TransportAddr::Usbmuxd { device_id, port },
    }
}

/// Resolve the transport plan for `device` targeting `port`. Every device
/// kind resolves.
pub fn resolve_transport_addr(device: &Device, port: u16) -> (r: Result<TransportAddr, ResolveError>)
    ensures
        r == Ok::<TransportAddr, ResolveError>(transport_addr_spec(*device, port)),
{
    match device.connection_method() {
        ConnectionMethod::Localhost => Ok(TransportAddr::Localhost { port }),
        ConnectionMethod::AdbForward { serial } => Ok(TransportAddr::AdbForward { serial, port }),
        ConnectionMethod::Usbmuxd { device_id } => Ok(TransportAddr::Usbmuxd { device_id, port }),
    }
}

} // verus!
