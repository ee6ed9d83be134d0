//! The in-memory device store: a two-level, expiring cache of per-device and
//! per-interface metrics.

use vstd::prelude::*;
use crate::clock::{deadline_after, is_expired, now, METRIC_TTL};
use crate::metrics::{
    device_keys, device_pos, device_views, device_wf, has_device, interface_keys,
    interface_views, store_wf, DeviceMetrics, DeviceView, InterfaceMetrics, InterfaceView,
};
use crate::events::{event_views, Event, EventView};
use crate::ingest::{
    apply_interface_reports, carries_liveness, changes_liveness, device_report_event,
    device_reported, interface_report_events, interfaces_reported,
    lemma_reports_keep_interfaces, lemma_silent_reports, neighbors_of, optional_event,
    reports_carry_liveness,
};
use crate::inventory::{Inventory, InventoryView};
use crate::projection::{
    device_fast_metrics, device_metrics, metric_views, push_device_fast_metrics,
    push_device_metrics, store_fast_metrics, store_metrics, LabeledMetric, MetricView,
};
use crate::reports::{DeviceMonitorReport, InterfaceMonitorReport};
use crate::seq_util::{lemma_distinct_push, lemma_update_same_key};
use crate::store::{
    device_with_refreshed_interface, lemma_live_interfaces_push, lemma_pruned_push,
    lemma_pruned_wf, live_interfaces, pruned, pruned_device, refreshed_device,
    refreshed_interface,
};

verus! {

/// The store. Devices are kept in the order in which they were first
/// refreshed, and so are the interfaces of each device.
#[derive(Debug)]
pub struct IMDS {
    devices: Vec<DeviceMetrics>,
}

impl View for IMDS {
    type V = Seq<DeviceView>;

    closed spec fn view(&self) -> Seq<DeviceView> {
        device_views(self.devices@)
    }
}

/// Removes from `v` the interfaces that are expired at `now`.
fn prune_interfaces(v: &mut Vec<InterfaceMetrics>, now: u64)
    ensures
        interface_views(final(v)@) == live_interfaces(interface_views(old(v)@), now),
{
    let ghost before = interface_views(v@);
    let ghost mut k: int = 0;
    let mut i: usize = 0;
    proof {
        reveal(Seq::filter);
        assert(before.subrange(0, 0) =~= Seq::<InterfaceView>::empty());
        assert(interface_views(v@).subrange(0, 0) =~= live_interfaces(before.subrange(0, 0), now));
        assert(interface_views(v@).subrange(0, v@.len() as int) =~= before.subrange(
            0,
            before.len() as int,
        ));
    }
    while i < v.len()
        invariant
            i <= v.len(),
            0 <= k <= before.len(),
            v.len() - i == before.len() - k,
            interface_views(v@).subrange(0, i as int) == live_interfaces(
                before.subrange(0, k),
                now,
            ),
            interface_views(v@).subrange(i as int, v@.len() as int) == before.subrange(
                k,
                before.len() as int,
            ),
        decreases v.len() - i,
    {
        let ghost cur = interface_views(v@);
        proof {
            assert(cur[i as int] == cur.subrange(i as int, cur.len() as int)[0]);
            assert(before[k] == before.subrange(k, before.len() as int)[0]);
            assert(before.subrange(0, k + 1) =~= before.subrange(0, k).push(before[k]));
            lemma_live_interfaces_push(before.subrange(0, k), before[k], now);
        }
        if is_expired(v[i].expiry, now) {
            v.remove(i);
            proof {
                let next = interface_views(v@);
                assert(next =~= cur.remove(i as int));
                assert(next.subrange(0, i as int) =~= cur.subrange(0, i as int));
                assert(next.subrange(i as int, next.len() as int) =~= cur.subrange(
                    i as int,
                    cur.len() as int,
                ).subrange(1, cur.len() - i));
                assert(before.subrange(k + 1, before.len() as int) =~= before.subrange(
                    k,
                    before.len() as int,
                ).subrange(1, before.len() - k));
            }
        } else {
            proof {
                assert(cur.subrange(0, i + 1) =~= cur.subrange(0, i as int).push(cur[i as int]));
                assert(cur.subrange(i + 1, cur.len() as int) =~= cur.subrange(
                    i as int,
                    cur.len() as int,
                ).subrange(1, cur.len() - i));
                assert(before.subrange(k + 1, before.len() as int) =~= before.subrange(
                    k,
                    before.len() as int,
                ).subrange(1, before.len() - k));
            }
            i += 1;
        }
        proof {
            k = k + 1;
        }
    }
    proof {
        assert(interface_views(v@).subrange(0, i as int) =~= interface_views(v@));
        assert(before.subrange(0, k) =~= before);
    }
}

/// A store without devices is well formed.
proof fn lemma_empty_store(v: Seq<DeviceMetrics>)
    requires
        v.len() == 0,
    ensures
        store_wf(device_views(v)),
        device_views(v) == Seq::<DeviceView>::empty(),
{
    assert(device_views(v) =~= Seq::<DeviceView>::empty());
    assert(device_keys(device_views(v)) =~= Seq::<Seq<char>>::empty());
}

/// Position of the device of that name, if the store holds one.
fn find_device(v: &Vec<DeviceMetrics>, device_fqdn: &String) -> (r: Option<usize>)
    requires
        store_wf(device_views(v@)),
    ensures
        r is Some <==> has_device(device_views(v@), device_fqdn@),
        r is Some ==> r->0 == device_pos(device_views(v@), device_fqdn@) && r->0 < v.len(),
{
    let ghost keys = device_keys(device_views(v@));
    let mut i: usize = 0;
    while i < v.len()
        invariant
            i <= v.len(),
            keys == device_keys(device_views(v@)),
            keys.no_duplicates(),
            keys.len() == v.len(),
            forall|j: int| 0 <= j < i ==> keys[j] != device_fqdn@,
        decreases v.len() - i,
    {
        if v[i].fqdn == *device_fqdn {
            proof {
                assert(keys[i as int] == device_fqdn@);
                let k = keys.index_of(device_fqdn@);
                assert(keys[k] == device_fqdn@);
            }
            return Some(i);
        }
        i += 1;
    }
    proof {
        if keys.contains(device_fqdn@) {
            let k = choose|k: int| 0 <= k < keys.len() && keys[k] == device_fqdn@;
            assert(keys[k] != device_fqdn@);
        }
    }
    None
}

/// Registers the device at time `now`, or extends its stay.
fn refresh_device_in(v: &mut Vec<DeviceMetrics>, device_fqdn: &String, now: u64)
    requires
        store_wf(device_views(old(v)@)),
    ensures
        store_wf(device_views(final(v)@)),
        device_views(final(v)@) == refreshed_device(device_views(old(v)@), device_fqdn@, now),
{
    let expiry = deadline_after(now, METRIC_TTL);
    let ghost before = device_views(v@);
    match find_device(v, device_fqdn) {
        Some(i) => {
            v[i].expiry = expiry;
            proof {
                let after = before.update(
                    i as int,
                    DeviceView { expiry, ..before[i as int] },
                );
                assert(device_views(v@) =~= after);
                lemma_update_same_key(
                    before,
                    i as int,
                    after[i as int],
                    |d: DeviceView| d.fqdn,
                );
                assert forall|j: int| 0 <= j < after.len() implies device_wf(
                    #[trigger] after[j],
                ) by {
                    assert(device_wf(before[j]));
                }
            }
        },
        None => {
            let dm = DeviceMetrics {
                expiry,
                fqdn: device_fqdn.clone(),
                up: None,
                interfaces: Vec::new(),
            };
            proof {
                assert(dm@.interfaces =~= Seq::<InterfaceView>::empty());
                assert(interface_keys(dm@.interfaces) =~= Seq::<i32>::empty());
            }
            v.push(dm);
            proof {
                let after = before.push(dm@);
                assert(device_views(v@) =~= after);
                lemma_distinct_push(before, dm@, |d: DeviceView| d.fqdn);
                assert forall|j: int| 0 <= j < after.len() implies device_wf(
                    #[trigger] after[j],
                ) by {
                    if j < before.len() {
                        assert(device_wf(before[j]));
                    }
                }
            }
        },
    }
}

/// Registers interface `if_index` of the device at time `now`, or
/// extends its stay and takes over its name, peer flag and speed
/// override. The device must have been refreshed before: nothing happens
/// when it is unknown.
fn refresh_interface_in(
    v: &mut Vec<DeviceMetrics>,
    device_fqdn: &String,
    if_index: i32,
    interface_type: &String,
    name: &String,
    neighbors: bool,
    speed_override: Option<i32>,
    now: u64,
)
    requires
        store_wf(device_views(old(v)@)),
    ensures
        store_wf(device_views(final(v)@)),
        device_views(final(v)@) == refreshed_interface(
            device_views(old(v)@),
            device_fqdn@,
            if_index,
            interface_type@,
            name@,
            neighbors,
            speed_override,
            now,
        ),
{
    let expiry = deadline_after(now, METRIC_TTL);
    let ghost before = device_views(v@);
    let i = match find_device(v, device_fqdn) {
        Some(i) => i,
        None => {
            return ;
        },
    };
    let ghost dev = before[i as int];
    assert(device_wf(dev));
    let ghost target = device_with_refreshed_interface(
        dev,
        if_index,
        interface_type@,
        name@,
        neighbors,
        speed_override,
        now,
    );
    match v[i].find_interface(if_index) {
        Some(j) => {
            v[i].interfaces[j].name = name.clone();
            v[i].interfaces[j].neighbors = neighbors;
            v[i].interfaces[j].speed_override = speed_override;
            v[i].interfaces[j].expiry = expiry;
            proof {
                assert(device_views(v@)[i as int].interfaces =~= target.interfaces);
                lemma_update_same_key(
                    dev.interfaces,
                    j as int,
                    target.interfaces[j as int],
                    |x: InterfaceView| x.if_index,
                );
            }
        },
        None => {
            let im = InterfaceMetrics {
                if_index,
                expiry,
                name: name.clone(),
                interface_type: interface_type.clone(),
                neighbors,
                speed_override,
                in_octets: None,
                out_octets: None,
                in_packets: None,
                out_packets: None,
                in_errors: None,
                out_errors: None,
                up: None,
                speed: None,
            };
            v[i].interfaces.push(im);
            proof {
                assert(device_views(v@)[i as int].interfaces =~= target.interfaces);
                lemma_distinct_push(dev.interfaces, im@, |x: InterfaceView| x.if_index);
            }
        },
    }
    proof {
        let after = before.update(i as int, target);
        assert(device_views(v@) =~= after);
        lemma_update_same_key(before, i as int, target, |d: DeviceView| d.fqdn);
        assert forall|j: int| 0 <= j < after.len() implies device_wf(#[trigger] after[j]) by {
            if j != i {
                assert(device_wf(before[j]));
            }
        }
    }
}

/// Evicts what is expired at `now`: every expired device with all its
/// interfaces, and the expired interfaces of the devices that stay.
fn prune_in(v: &mut Vec<DeviceMetrics>, now: u64)
    requires
        store_wf(device_views(old(v)@)),
    ensures
        store_wf(device_views(final(v)@)),
        device_views(final(v)@) == pruned(device_views(old(v)@), now),
{
    let ghost before = device_views(v@);
    let ghost mut k: int = 0;
    let mut i: usize = 0;
    proof {
        reveal(Seq::filter);
        assert(before.subrange(0, 0) =~= Seq::<DeviceView>::empty());
        assert(device_views(v@).subrange(0, 0) =~= pruned(before.subrange(0, 0), now));
        assert(device_views(v@).subrange(0, device_views(v@).len() as int) =~= before.subrange(
            0,
            before.len() as int,
        ));
    }
    while i < v.len()
        invariant
            i <= v.len(),
            0 <= k <= before.len(),
            v.len() - i == before.len() - k,
            device_views(v@).len() == v.len(),
            device_views(v@).subrange(0, i as int) == pruned(before.subrange(0, k), now),
            device_views(v@).subrange(i as int, device_views(v@).len() as int) == before.subrange(
                k,
                before.len() as int,
            ),
        decreases v.len() - i,
    {
        let ghost cur = device_views(v@);
        proof {
            assert(cur[i as int] == cur.subrange(i as int, cur.len() as int)[0]);
            assert(before[k] == before.subrange(k, before.len() as int)[0]);
            assert(before.subrange(0, k + 1) =~= before.subrange(0, k).push(before[k]));
            lemma_pruned_push(before.subrange(0, k), before[k], now);
            assert(before.subrange(k + 1, before.len() as int) =~= before.subrange(
                k,
                before.len() as int,
            ).subrange(1, before.len() - k));
        }
        if is_expired(v[i].expiry, now) {
            v.remove(i);
            proof {
                let next = device_views(v@);
                assert(next =~= cur.remove(i as int));
                assert(next.subrange(0, i as int) =~= cur.subrange(0, i as int));
                assert(next.subrange(i as int, next.len() as int) =~= cur.subrange(
                    i as int,
                    cur.len() as int,
                ).subrange(1, cur.len() - i));
            }
        } else {
            prune_interfaces(&mut v[i].interfaces, now);
            proof {
                let next = device_views(v@);
                assert(next =~= cur.update(i as int, pruned_device(cur[i as int], now)));
                assert(next.subrange(0, i + 1) =~= cur.subrange(0, i as int).push(
                    pruned_device(cur[i as int], now),
                ));
                assert(next.subrange(i + 1, next.len() as int) =~= cur.subrange(
                    i as int,
                    cur.len() as int,
                ).subrange(1, cur.len() - i));
            }
            i += 1;
        }
        proof {
            k = k + 1;
        }
    }
    proof {
        assert(device_views(v@).subrange(0, i as int) =~= device_views(v@));
        assert(before.subrange(0, k) =~= before);
        lemma_pruned_wf(before, now);
    }
}


/// Takes a liveness report on a device into the devices `v`, and returns the
/// event that tells of a changed liveness.
fn report_device_in(
    v: &mut Vec<DeviceMetrics>,
    inventory: &Inventory,
    dmr: &DeviceMonitorReport,
) -> (event: Option<Event>)
    requires
        store_wf(device_views(old(v)@)),
    ensures
        store_wf(device_views(final(v)@)),
        device_views(final(v)@) == device_reported(device_views(old(v)@), dmr.fqdn@, dmr.up),
        optional_event(event) == device_report_event(
            device_views(old(v)@),
            inventory@,
            dmr.fqdn@,
            dmr.up,
        ),
{
    let ghost before = device_views(v@);
    let i = match find_device(v, &dmr.fqdn) {
        Some(i) => i,
        None => {
            return None;
        },
    };
    let mut event: Option<Event> = None;
    match v[i].up {
        Some(device_up) => {
            if device_up != dmr.up {
                match inventory.device_by_fqdn(&dmr.fqdn) {
                    Some(device) => {
                        let neighbors = neighbors_of(inventory, device);
                        event =
                        Some(Event::ping_change_event(&dmr.fqdn, neighbors, device_up, dmr.up));
                    },
                    None => {},
                }
            }
        },
        None => {},
    }
    v[i].up = Some(dmr.up);
    proof {
        let after = device_reported(before, dmr.fqdn@, dmr.up);
        assert(device_views(v@) =~= after);
        lemma_update_same_key(before, i as int, after[i as int], |d: DeviceView| d.fqdn);
        assert forall|j: int| 0 <= j < after.len() implies device_wf(#[trigger] after[j]) by {
            assert(device_wf(before[j]));
        }
    }
    event
}

/// Takes the interface reports on one device into the devices `v`, and
/// returns the events that tell of changed liveness.
fn report_interfaces_in(
    v: &mut Vec<DeviceMetrics>,
    inventory: &Inventory,
    imr: &InterfaceMonitorReport,
) -> (events: Vec<Event>)
    requires
        store_wf(device_views(old(v)@)),
    ensures
        store_wf(device_views(final(v)@)),
        device_views(final(v)@) == interfaces_reported(
            device_views(old(v)@),
            imr.device_fqdn@,
            imr.interfaces@,
        ),
        event_views(events@) == interface_report_events(
            device_views(old(v)@),
            inventory@,
            imr.device_fqdn@,
            imr.interfaces@,
        ),
{
    let ghost before = device_views(v@);
    let i = match find_device(v, &imr.device_fqdn) {
        Some(i) => i,
        None => {
            let none: Vec<Event> = Vec::new();
            proof {
                assert(event_views(none@) =~= Seq::<EventView>::empty());
            }
            return none;
        },
    };
    assert(device_wf(before[i as int]));
    let events = apply_interface_reports(&mut v[i], inventory, &imr.interfaces);
    proof {
        let after = interfaces_reported(before, imr.device_fqdn@, imr.interfaces@);
        assert(device_views(v@) =~= after);
        lemma_reports_keep_interfaces(before[i as int], imr.interfaces@);
        lemma_update_same_key(before, i as int, after[i as int], |d: DeviceView| d.fqdn);
        assert forall|j: int| 0 <= j < after.len() implies device_wf(#[trigger] after[j]) by {
            if j != i {
                assert(device_wf(before[j]));
            }
        }
    }
    events
}

impl IMDS {
    /// Device names are distinct, and so are the interface indices within
    /// each device.
    #[verifier::type_invariant]
    spec fn well_formed(self) -> bool {
        store_wf(device_views(self.devices@))
    }

    /// An empty store.
    pub fn new() -> (r: IMDS)
        ensures
            r@ == Seq::<DeviceView>::empty(),
            store_wf(r@),
    {
        let devices: Vec<DeviceMetrics> = Vec::new();
        proof {
            lemma_empty_store(devices@);
        }
        IMDS { devices }
    }

    /// Number of devices held. The store is well formed.
    pub fn len(&self) -> (n: usize)
        ensures
            n == self@.len(),
            store_wf(self@),
    {
        proof {
            use_type_invariant(self);
        }
        self.devices.len()
    }

    /// The device of that name, if the store holds one.
    pub fn get_device(&self, device_fqdn: &String) -> (r: Option<&DeviceMetrics>)
        ensures
            store_wf(self@),
            r is Some <==> has_device(self@, device_fqdn@),
            r is Some ==> (*r->0)@ == self@[device_pos(self@, device_fqdn@)] && device_wf(
                (*r->0)@,
            ),
    {
        proof {
            use_type_invariant(self);
        }
        match find_device(&self.devices, device_fqdn) {
            Some(i) => {
                assert(device_wf(self@[i as int]));
                Some(&self.devices[i])
            },
            None => None,
        }
    }

    /// Registers the device at time `now`, or extends its stay.
    pub fn refresh_device_at(&mut self, device_fqdn: &String, now: u64)
        ensures
            store_wf(final(self)@),
            final(self)@ == refreshed_device(old(self)@, device_fqdn@, now),
    {
        proof {
            use_type_invariant(&*self);
        }
        let mut devices: Vec<DeviceMetrics> = Vec::new();
        proof {
            lemma_empty_store(devices@);
        }
        std::mem::swap(&mut self.devices, &mut devices);
        refresh_device_in(&mut devices, device_fqdn, now);
        std::mem::swap(&mut self.devices, &mut devices);
    }

    /// Registers the device now, or extends its stay: `refresh_device_at` at
    /// the time that the clock gives.
    pub fn refresh_device(&mut self, device_fqdn: &String)
        ensures
            store_wf(final(self)@),
            exists|now: u64| final(self)@ == refreshed_device(old(self)@, device_fqdn@, now),
    {
        let t = now();
        self.refresh_device_at(device_fqdn, t);
    }

    /// Registers interface `if_index` of the device at time `now`, or
    /// extends its stay and takes over its name, peer flag and speed
    /// override. The device must have been refreshed before: nothing happens
    /// when it is unknown.
    pub fn refresh_interface_at(
        &mut self,
        device_fqdn: &String,
        if_index: i32,
        interface_type: &String,
        name: &String,
        neighbors: bool,
        speed_override: Option<i32>,
        now: u64,
    )
        ensures
            store_wf(final(self)@),
            final(self)@ == refreshed_interface(
                old(self)@,
                device_fqdn@,
                if_index,
                interface_type@,
                name@,
                neighbors,
                speed_override,
                now,
            ),
    {
        proof {
            use_type_invariant(&*self);
        }
        let mut devices: Vec<DeviceMetrics> = Vec::new();
        proof {
            lemma_empty_store(devices@);
        }
        std::mem::swap(&mut self.devices, &mut devices);
        refresh_interface_in(
            &mut devices,
            device_fqdn,
            if_index,
            interface_type,
            name,
            neighbors,
            speed_override,
            now,
        );
        std::mem::swap(&mut self.devices, &mut devices);
    }

    /// Registers interface `if_index` of the device now, or extends its
    /// stay: `refresh_interface_at` at the time that the clock gives.
    pub fn refresh_interface(
        &mut self,
        device_fqdn: &String,
        if_index: i32,
        interface_type: &String,
        name: &String,
        neighbors: bool,
        speed_override: Option<i32>,
    )
        ensures
            store_wf(final(self)@),
            exists|now: u64|
                final(self)@ == refreshed_interface(
                    old(self)@,
                    device_fqdn@,
                    if_index,
                    interface_type@,
                    name@,
                    neighbors,
                    speed_override,
                    now,
                ),
    {
        let t = now();
        self.refresh_interface_at(
            device_fqdn,
            if_index,
            interface_type,
            name,
            neighbors,
            speed_override,
            t,
        );
    }

    /// Evicts what is expired at `now`: every expired device with all its
    /// interfaces, and the expired interfaces of the devices that stay.
    pub fn prune_at(&mut self, now: u64)
        ensures
            store_wf(final(self)@),
            final(self)@ == pruned(old(self)@, now),
    {
        proof {
            use_type_invariant(&*self);
        }
        let mut devices: Vec<DeviceMetrics> = Vec::new();
        proof {
            lemma_empty_store(devices@);
        }
        std::mem::swap(&mut self.devices, &mut devices);
        prune_in(&mut devices, now);
        std::mem::swap(&mut self.devices, &mut devices);
    }

    /// Evicts what is expired now: `prune_at` at the time that the clock
    /// gives.
    pub fn prune(&mut self)
        ensures
            store_wf(final(self)@),
            exists|now: u64| final(self)@ == pruned(old(self)@, now),
    {
        let t = now();
        self.prune_at(t);
    }

    /// Takes a liveness report on a device. A report on a device that the
    /// store does not hold is dropped. Otherwise the reported liveness
    /// replaces what the store holds, and where that changes a known
    /// liveness and the inventory knows the device, the event that tells of
    /// it is returned, with the device's neighbors read from the inventory.
    pub fn report_device(&mut self, inventory: &Inventory, dmr: DeviceMonitorReport) -> (event:
        Option<Event>)
        ensures
            store_wf(final(self)@),
            final(self)@ == device_reported(old(self)@, dmr.fqdn@, dmr.up),
            optional_event(event) == device_report_event(
                old(self)@,
                inventory@,
                dmr.fqdn@,
                dmr.up,
            ),
    {
        proof {
            use_type_invariant(&*self);
        }
        let mut devices: Vec<DeviceMetrics> = Vec::new();
        proof {
            lemma_empty_store(devices@);
        }
        std::mem::swap(&mut self.devices, &mut devices);
        let event = report_device_in(&mut devices, inventory, &dmr);
        std::mem::swap(&mut self.devices, &mut devices);
        event
    }

    /// Takes the interface reports on one device, in order. Reports on a
    /// device that the store does not hold are dropped, and so is each
    /// report on an interface that the device does not hold. Returns the
    /// events that tell of changed interface liveness, in the order of the
    /// reports that caused them.
    pub fn report_interfaces(
        &mut self,
        inventory: &Inventory,
        imr: InterfaceMonitorReport,
    ) -> (events: Vec<Event>)
        ensures
            store_wf(final(self)@),
            final(self)@ == interfaces_reported(old(self)@, imr.device_fqdn@, imr.interfaces@),
            event_views(events@) == interface_report_events(
                old(self)@,
                inventory@,
                imr.device_fqdn@,
                imr.interfaces@,
            ),
    {
        proof {
            use_type_invariant(&*self);
        }
        let mut devices: Vec<DeviceMetrics> = Vec::new();
        proof {
            lemma_empty_store(devices@);
        }
        std::mem::swap(&mut self.devices, &mut devices);
        let events = report_interfaces_in(&mut devices, inventory, &imr);
        std::mem::swap(&mut self.devices, &mut devices);
        events
    }

    /// The counter projection: for every interface of every device, one
    /// metric for its speed and one for each of its counters, where known.
    /// Devices and interfaces come in the order in which the store holds
    /// them.
    pub fn get_metrics(&self) -> (metric_values: Vec<LabeledMetric>)
        ensures
            metric_views(metric_values@) == store_metrics(self@),
    {
        let ghost all = self@;
        let ghost per = |d: DeviceView| device_metrics(d);
        let mut metric_values: Vec<LabeledMetric> = Vec::new();
        let mut k: usize = 0;
        proof {
            assert(all.subrange(0, 0).map_values(per) =~= Seq::<Seq<MetricView>>::empty());
            assert(metric_views(metric_values@) =~= store_metrics(all.subrange(0, 0)));
        }
        while k < self.devices.len()
            invariant
                k <= self.devices.len(),
                all == self@,
                all.len() == self.devices.len(),
                per == |d: DeviceView| device_metrics(d),
                metric_views(metric_values@) == store_metrics(all.subrange(0, k as int)),
            decreases self.devices.len() - k,
        {
            proof {
                let head = all.subrange(0, k as int);
                assert(all.subrange(0, k + 1).map_values(per) =~= head.map_values(per).push(
                    per(all[k as int]),
                ));
                head.map_values(per).lemma_flatten_push(per(all[k as int]));
            }
            push_device_metrics(&mut metric_values, &self.devices[k]);
            k += 1;
        }
        proof {
            assert(all.subrange(0, k as int) =~= all);
        }
        metric_values
    }

    /// The liveness projection: for every device whose liveness is known one
    /// metric, and one for every interface whose liveness is known.
    pub fn get_fast_metrics(&self) -> (metric_values: Vec<LabeledMetric>)
        ensures
            metric_views(metric_values@) == store_fast_metrics(self@),
    {
        let ghost all = self@;
        let ghost per = |d: DeviceView| device_fast_metrics(d);
        let mut metric_values: Vec<LabeledMetric> = Vec::new();
        let mut k: usize = 0;
        proof {
            assert(all.subrange(0, 0).map_values(per) =~= Seq::<Seq<MetricView>>::empty());
            assert(metric_views(metric_values@) =~= store_fast_metrics(all.subrange(0, 0)));
        }
        while k < self.devices.len()
            invariant
                k <= self.devices.len(),
                all == self@,
                all.len() == self.devices.len(),
                per == |d: DeviceView| device_fast_metrics(d),
                metric_views(metric_values@) == store_fast_metrics(all.subrange(0, k as int)),
            decreases self.devices.len() - k,
        {
            proof {
                let head = all.subrange(0, k as int);
                assert(all.subrange(0, k + 1).map_values(per) =~= head.map_values(per).push(
                    per(all[k as int]),
                ));
                head.map_values(per).lemma_flatten_push(per(all[k as int]));
            }
            push_device_fast_metrics(&mut metric_values, &self.devices[k]);
            k += 1;
        }
        proof {
            assert(all.subrange(0, k as int) =~= all);
        }
        metric_values
    }

    /// Whether a liveness report on a device would change a known liveness,
    /// so that taking it reads the inventory. Where it would not, the report
    /// gives rise to no event whatever the inventory holds.
    pub fn device_report_reads_inventory(&self, dmr: &DeviceMonitorReport) -> (b: bool)
        ensures
            b == (has_device(self@, dmr.fqdn@) && changes_liveness(
                self@[device_pos(self@, dmr.fqdn@)].up,
                Some(dmr.up),
            )),
            !b ==> forall|inv: InventoryView| #[trigger]
                device_report_event(self@, inv, dmr.fqdn@, dmr.up) is None,
    {
        proof {
            use_type_invariant(self);
        }
        match find_device(&self.devices, &dmr.fqdn) {
            Some(i) => match self.devices[i].up {
                Some(up) => up != dmr.up,
                None => false,
            },
            None => false,
        }
    }

    /// Whether one of the interface reports carries a liveness for an
    /// interface that the store holds, so that taking them may read the
    /// inventory. Where none does, the reports give rise to no event
    /// whatever the inventory holds.
    pub fn interface_reports_read_inventory(&self, imr: &InterfaceMonitorReport) -> (b: bool)
        ensures
            b == (has_device(self@, imr.device_fqdn@) && carries_liveness(
                self@[device_pos(self@, imr.device_fqdn@)],
                imr.interfaces@,
            )),
            !b ==> forall|inv: InventoryView| #[trigger]
                interface_report_events(self@, inv, imr.device_fqdn@, imr.interfaces@)
                    == Seq::<EventView>::empty(),
    {
        proof {
            use_type_invariant(self);
        }
        match find_device(&self.devices, &imr.device_fqdn) {
            Some(i) => {
                assert(device_wf(self@[i as int]));
                let b = reports_carry_liveness(&self.devices[i], &imr.interfaces);
                proof {
                    if !b {
                        assert forall|inv: InventoryView| #[trigger]
                            interface_report_events(
                                self@,
                                inv,
                                imr.device_fqdn@,
                                imr.interfaces@,
                            ) == Seq::<EventView>::empty() by {
                            lemma_silent_reports(inv, self@[i as int], imr.interfaces@);
                        }
                    }
                }
                b
            },
            None => false,
        }
    }
}

} // verus!
