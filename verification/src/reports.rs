//! What probes report to the store.

use vstd::prelude::*;

verus! {

/// A probe's finding on one device: whether it answered.
#[derive(Debug)]
pub struct DeviceMonitorReport {
    pub fqdn: String,
    pub up: bool,
}

/// A probe's finding on one interface. A field that the probe did not read
/// is `None`, and leaves what the store holds untouched.
#[derive(Clone, Copy, Debug)]
pub struct InterfaceReport {
    pub if_index: i32,
    pub in_octets: Option<u64>,
    pub out_octets: Option<u64>,
    pub in_packets: Option<u64>,
    pub out_packets: Option<u64>,
    pub in_errors: Option<u64>,
    pub out_errors: Option<u64>,
    pub up: Option<bool>,
    pub speed: Option<i32>,
}

/// A probe's findings on the interfaces of one device.
#[derive(Debug)]
pub struct InterfaceMonitorReport {
    pub device_fqdn: String,
    pub interfaces: Vec<InterfaceReport>,
}

} // verus!
