//! What the store's operations do, stated on the values that the records
//! stand for.

use vstd::prelude::*;
use crate::clock::{deadline, expired, METRIC_TTL};
use crate::metrics::{
    device_keys, device_pos, device_wf, fresh_interface, has_device, has_interface,
    interface_pos, store_wf, DeviceView, InterfaceView,
};
use crate::seq_util::lemma_filter_distinct;

verus! {

/// The device record that a first refresh creates.
pub open spec fn fresh_device(fqdn: Seq<char>, expiry: u64) -> DeviceView {
    DeviceView { fqdn, expiry, up: None, interfaces: Seq::empty() }
}

/// The store after the device `fqdn` was refreshed at `now`: a known device
/// gets a new expiry and keeps everything else; an unknown one is added at
/// the end, fresh.
pub open spec fn refreshed_device(s: Seq<DeviceView>, fqdn: Seq<char>, now: u64) -> Seq<
    DeviceView,
> {
    if has_device(s, fqdn) {
        let i = device_pos(s, fqdn);
        s.update(i, DeviceView { expiry: deadline(now, METRIC_TTL), ..s[i] })
    } else {
        s.push(fresh_device(fqdn, deadline(now, METRIC_TTL)))
    }
}

/// The device after its interface `if_index` was refreshed at `now`: a known
/// interface gets the name, peer flag and speed override given and a new
/// expiry, and keeps its type, counters, speed and liveness; an unknown one
/// is added at the end, fresh.
pub open spec fn device_with_refreshed_interface(
    d: DeviceView,
    if_index: i32,
    interface_type: Seq<char>,
    name: Seq<char>,
    neighbors: bool,
    speed_override: Option<i32>,
    now: u64,
) -> DeviceView {
    if has_interface(d, if_index) {
        let j = interface_pos(d, if_index);
        DeviceView {
            interfaces: d.interfaces.update(
                j,
                InterfaceView {
                    name,
                    neighbors,
                    speed_override,
                    expiry: deadline(now, METRIC_TTL),
                    ..d.interfaces[j]
                },
            ),
            ..d
        }
    } else {
        DeviceView {
            interfaces: d.interfaces.push(
                fresh_interface(
                    if_index,
                    interface_type,
                    name,
                    neighbors,
                    speed_override,
                    deadline(now, METRIC_TTL),
                ),
            ),
            ..d
        }
    }
}

/// The store after the interface `if_index` of device `fqdn` was refreshed at
/// `now`. Nothing changes when the device is unknown.
pub open spec fn refreshed_interface(
    s: Seq<DeviceView>,
    fqdn: Seq<char>,
    if_index: i32,
    interface_type: Seq<char>,
    name: Seq<char>,
    neighbors: bool,
    speed_override: Option<i32>,
    now: u64,
) -> Seq<DeviceView> {
    if has_device(s, fqdn) {
        let i = device_pos(s, fqdn);
        s.update(
            i,
            device_with_refreshed_interface(
                s[i],
                if_index,
                interface_type,
                name,
                neighbors,
                speed_override,
                now,
            ),
        )
    } else {
        s
    }
}

/// The interfaces that are not expired at `now`, in order.
pub open spec fn live_interfaces(s: Seq<InterfaceView>, now: u64) -> Seq<InterfaceView> {
    s.filter(|i: InterfaceView| !expired(i.expiry, now))
}

/// The device without its interfaces that are expired at `now`.
pub open spec fn pruned_device(d: DeviceView, now: u64) -> DeviceView {
    DeviceView { interfaces: live_interfaces(d.interfaces, now), ..d }
}

/// The devices that are not expired at `now`, in order.
pub open spec fn live_devices(s: Seq<DeviceView>, now: u64) -> Seq<DeviceView> {
    s.filter(|d: DeviceView| !expired(d.expiry, now))
}

/// The store after a prune at `now`: expired devices are gone with all their
/// interfaces, and the devices that stay have lost their expired interfaces.
pub open spec fn pruned(s: Seq<DeviceView>, now: u64) -> Seq<DeviceView> {
    live_devices(s, now).map_values(|d: DeviceView| pruned_device(d, now))
}

/// Pruning a store extended by one device prunes the store and then adds the
/// device, pruned, unless it is expired.
pub proof fn lemma_pruned_push(s: Seq<DeviceView>, d: DeviceView, now: u64)
    ensures
        pruned(s.push(d), now) == if expired(d.expiry, now) {
            pruned(s, now)
        } else {
            pruned(s, now).push(pruned_device(d, now))
        },
{
    let keep = |d: DeviceView| !expired(d.expiry, now);
    s.lemma_filter_push(d, keep);
    if !expired(d.expiry, now) {
        assert(pruned(s.push(d), now) =~= pruned(s, now).push(pruned_device(d, now)));
    }
}

/// The live interfaces of a sequence extended by one interface.
pub proof fn lemma_live_interfaces_push(s: Seq<InterfaceView>, i: InterfaceView, now: u64)
    ensures
        live_interfaces(s.push(i), now) == if expired(i.expiry, now) {
            live_interfaces(s, now)
        } else {
            live_interfaces(s, now).push(i)
        },
{
    let keep = |i: InterfaceView| !expired(i.expiry, now);
    s.lemma_filter_push(i, keep);
}

/// Pruning a store keeps it well formed.
pub proof fn lemma_pruned_wf(s: Seq<DeviceView>, now: u64)
    requires
        store_wf(s),
    ensures
        store_wf(pruned(s, now)),
{
    let keep = |d: DeviceView| !expired(d.expiry, now);
    let key = |d: DeviceView| d.fqdn;
    lemma_filter_distinct(s, key, keep);
    let live = live_devices(s, now);
    let out = pruned(s, now);
    assert(device_keys(out) =~= device_keys(live));
    assert forall|i: int| 0 <= i < out.len() implies device_wf(#[trigger] out[i]) by {
        assert(live.contains(live[i]));
        s.lemma_filter_contains_rev(keep, live[i]);
        assert(s.contains(live[i]));
        let a = choose|a: int| 0 <= a < s.len() && s[a] == live[i];
        assert(device_wf(s[a]));
        lemma_filter_distinct(
            live[i].interfaces,
            |x: InterfaceView| x.if_index,
            |x: InterfaceView| !expired(x.expiry, now),
        );
    }
}

} // verus!
