//! The records held by the store: one per device, each owning one record per
//! interface, and the mathematical values they stand for.

use vstd::prelude::*;

verus! {

/// What an interface record stands for.
pub struct InterfaceView {
    pub if_index: i32,
    pub expiry: u64,
    pub name: Seq<char>,
    pub interface_type: Seq<char>,
    pub neighbors: bool,
    pub speed_override: Option<i32>,
    pub in_octets: Option<u64>,
    pub out_octets: Option<u64>,
    pub in_packets: Option<u64>,
    pub out_packets: Option<u64>,
    pub in_errors: Option<u64>,
    pub out_errors: Option<u64>,
    pub up: Option<bool>,
    pub speed: Option<i32>,
}

/// Metrics of one interface, found within its device by `if_index`.
///
/// `up` is tri-state: `None` until a probe has reported on the interface.
/// Every counter is `None` until a report has carried it.
#[derive(Debug)]
pub struct InterfaceMetrics {
    pub if_index: i32,
    pub expiry: u64,
    pub name: String,
    pub interface_type: String,
    pub neighbors: bool,
    pub speed_override: Option<i32>,
    pub in_octets: Option<u64>,
    pub out_octets: Option<u64>,
    pub in_packets: Option<u64>,
    pub out_packets: Option<u64>,
    pub in_errors: Option<u64>,
    pub out_errors: Option<u64>,
    pub up: Option<bool>,
    pub speed: Option<i32>,
}

impl View for InterfaceMetrics {
    type V = InterfaceView;

    open spec fn view(&self) -> InterfaceView {
        InterfaceView {
            if_index: self.if_index,
            expiry: self.expiry,
            name: self.name@,
            interface_type: self.interface_type@,
            neighbors: self.neighbors,
            speed_override: self.speed_override,
            in_octets: self.in_octets,
            out_octets: self.out_octets,
            in_packets: self.in_packets,
            out_packets: self.out_packets,
            in_errors: self.in_errors,
            out_errors: self.out_errors,
            up: self.up,
            speed: self.speed,
        }
    }
}

impl Clone for InterfaceMetrics {
    fn clone(&self) -> (r: Self)
        ensures
            r@ == self@,
    {
        InterfaceMetrics {
            if_index: self.if_index,
            expiry: self.expiry,
            name: self.name.clone(),
            interface_type: self.interface_type.clone(),
            neighbors: self.neighbors,
            speed_override: self.speed_override,
            in_octets: self.in_octets,
            out_octets: self.out_octets,
            in_packets: self.in_packets,
            out_packets: self.out_packets,
            in_errors: self.in_errors,
            out_errors: self.out_errors,
            up: self.up,
            speed: self.speed,
        }
    }
}

/// The interface record that a first refresh creates: the static fields as
/// given, no counter, no speed, liveness unknown.
pub open spec fn fresh_interface(
    if_index: i32,
    interface_type: Seq<char>,
    name: Seq<char>,
    neighbors: bool,
    speed_override: Option<i32>,
    expiry: u64,
) -> InterfaceView {
    InterfaceView {
        if_index,
        expiry,
        name,
        interface_type,
        neighbors,
        speed_override,
        in_octets: None,
        out_octets: None,
        in_packets: None,
        out_packets: None,
        in_errors: None,
        out_errors: None,
        up: None,
        speed: None,
    }
}

/// The `if_index` of each record, in order.
pub open spec fn interface_keys(s: Seq<InterfaceView>) -> Seq<i32> {
    s.map_values(|i: InterfaceView| i.if_index)
}

/// Views of a vector of interface records, in order.
pub open spec fn interface_views(v: Seq<InterfaceMetrics>) -> Seq<InterfaceView> {
    v.map_values(|i: InterfaceMetrics| i@)
}

/// What a device record stands for.
pub struct DeviceView {
    pub fqdn: Seq<char>,
    pub expiry: u64,
    pub up: Option<bool>,
    pub interfaces: Seq<InterfaceView>,
}

/// Metrics of one device, found in the store by its fully-qualified name.
#[derive(Debug)]
pub struct DeviceMetrics {
    pub fqdn: String,
    pub expiry: u64,
    pub up: Option<bool>,
    pub interfaces: Vec<InterfaceMetrics>,
}

impl View for DeviceMetrics {
    type V = DeviceView;

    open spec fn view(&self) -> DeviceView {
        DeviceView {
            fqdn: self.fqdn@,
            expiry: self.expiry,
            up: self.up,
            interfaces: interface_views(self.interfaces@),
        }
    }
}

/// The fully-qualified name of each record, in order.
pub open spec fn device_keys(s: Seq<DeviceView>) -> Seq<Seq<char>> {
    s.map_values(|d: DeviceView| d.fqdn)
}

/// Views of a vector of device records, in order.
pub open spec fn device_views(v: Seq<DeviceMetrics>) -> Seq<DeviceView> {
    v.map_values(|d: DeviceMetrics| d@)
}

/// A device is well formed when no two of its interfaces share an `if_index`.
pub open spec fn device_wf(d: DeviceView) -> bool {
    interface_keys(d.interfaces).no_duplicates()
}

/// A store is well formed when no two devices share a name and every device
/// is well formed.
pub open spec fn store_wf(s: Seq<DeviceView>) -> bool {
    &&& device_keys(s).no_duplicates()
    &&& forall|i: int| 0 <= i < s.len() ==> device_wf(#[trigger] s[i])
}

/// Whether the device holds an interface with that index.
pub open spec fn has_interface(d: DeviceView, if_index: i32) -> bool {
    interface_keys(d.interfaces).contains(if_index)
}

/// Position of the interface with that index within its device.
pub open spec fn interface_pos(d: DeviceView, if_index: i32) -> int {
    interface_keys(d.interfaces).index_of(if_index)
}

/// Whether the store holds a device of that name.
pub open spec fn has_device(s: Seq<DeviceView>, fqdn: Seq<char>) -> bool {
    device_keys(s).contains(fqdn)
}

/// Position of the device of that name within the store.
pub open spec fn device_pos(s: Seq<DeviceView>, fqdn: Seq<char>) -> int {
    device_keys(s).index_of(fqdn)
}

impl DeviceMetrics {
    /// Position of the interface with that index, if the device holds one.
    pub fn find_interface(&self, if_index: i32) -> (r: Option<usize>)
        requires
            device_wf(self@),
        ensures
            r is Some <==> has_interface(self@, if_index),
            r is Some ==> r->0 == interface_pos(self@, if_index) && r->0 < self.interfaces.len()
                && self.interfaces@[r->0 as int].if_index == if_index,
    {
        let ghost keys = interface_keys(self@.interfaces);
        let mut i: usize = 0;
        while i < self.interfaces.len()
            invariant
                i <= self.interfaces.len(),
                keys == interface_keys(self@.interfaces),
                keys.no_duplicates(),
                forall|j: int| 0 <= j < i ==> keys[j] != if_index,
            decreases self.interfaces.len() - i,
        {
            if self.interfaces[i].if_index == if_index {
                proof {
                    assert(keys[i as int] == if_index);
                    assert(keys.contains(if_index));
                    let k = keys.index_of(if_index);
                    assert(keys[k] == if_index);
                }
                return Some(i);
            }
            i += 1;
        }
        proof {
            assert(!keys.contains(if_index)) by {
                if keys.contains(if_index) {
                    let k = choose|k: int| 0 <= k < keys.len() && keys[k] == if_index;
                    assert(keys[k] != if_index);
                }
            }
        }
        None
    }

    /// The interface with that index, if the device holds one.
    pub fn interface(&self, if_index: i32) -> (r: Option<&InterfaceMetrics>)
        requires
            device_wf(self@),
        ensures
            r is Some <==> has_interface(self@, if_index),
            r is Some ==> (*r->0)@ == self@.interfaces[interface_pos(self@, if_index)],
    {
        match self.find_interface(if_index) {
            Some(i) => Some(&self.interfaces[i]),
            None => None,
        }
    }
}

} // verus!
