//! The refresh scheduler: what one tick of the reconciliation between the
//! inventory and the store does, and the set of device names through which
//! readers ask for a refresh.

use vstd::prelude::*;
use crate::clock::now;
use crate::imds::IMDS;
use crate::inventory::{
    interfaces_of, record_fqdn, DeviceRecord, Interface, InterfaceRecord, Inventory,
    InventoryView,
};
use crate::metrics::DeviceView;
use crate::store::{pruned, refreshed_device, refreshed_interface};
use crate::string_set::StringSet;

verus! {

/// Number of ticks from one full refresh to the next.
pub const REFRESH_PERIOD: u8 = 10;

/// The names of the devices that readers looked for in the store and did not
/// find. The scheduler refreshes them on its next tick.
#[derive(Debug)]
pub struct DeviceMetricRefreshCacheMiss {
    pub miss_set: StringSet,
}

impl View for DeviceMetricRefreshCacheMiss {
    type V = Set<Seq<char>>;

    open spec fn view(&self) -> Set<Seq<char>> {
        self.miss_set@
    }
}

impl DeviceMetricRefreshCacheMiss {
    /// No misses.
    pub fn new() -> (r: Self)
        ensures
            r@ == Set::<Seq<char>>::empty(),
    {
        DeviceMetricRefreshCacheMiss { miss_set: StringSet::new() }
    }

    /// Notes that `fqdn` was looked for and not found.
    pub fn insert(&mut self, fqdn: String)
        ensures
            final(self)@ == old(self)@.insert(fqdn@),
    {
        self.miss_set.insert(fqdn);
    }

    /// Whether no miss is noted.
    pub fn is_empty(&self) -> (b: bool)
        ensures
            b == (self@ == Set::<Seq<char>>::empty()),
    {
        self.miss_set.is_empty()
    }

    /// Hands out the misses noted so far and forgets them.
    pub fn drain(&mut self) -> (r: StringSet)
        ensures
            r@ == old(self)@,
            final(self)@ == Set::<Seq<char>>::empty(),
    {
        self.miss_set.drain()
    }
}

/// The store after each of the interfaces was refreshed on device `fqdn` at
/// `now`, in order.
pub open spec fn interfaces_refreshed(
    s: Seq<DeviceView>,
    fqdn: Seq<char>,
    ifs: Seq<InterfaceRecord>,
    now: u64,
) -> Seq<DeviceView>
    decreases ifs.len(),
{
    if ifs.len() == 0 {
        s
    } else {
        let i = ifs.last();
        refreshed_interface(
            interfaces_refreshed(s, fqdn, ifs.drop_last(), now),
            fqdn,
            i.index,
            i.interface_type,
            i.name,
            i.connected_interface is Some,
            i.speed_override,
            now,
        )
    }
}

/// The store after device `d` of the inventory was refreshed at `now`: the
/// device first, then each of its interfaces.
pub open spec fn device_refreshed_from(
    s: Seq<DeviceView>,
    inv: InventoryView,
    d: DeviceRecord,
    now: u64,
) -> Seq<DeviceView> {
    interfaces_refreshed(
        refreshed_device(s, record_fqdn(d), now),
        record_fqdn(d),
        interfaces_of(inv, d.id),
        now,
    )
}

/// Whether a tick refreshes device `d`: every device on a full refresh, else
/// those whose name is among the misses.
pub open spec fn is_candidate(d: DeviceRecord, full: bool, misses: Set<Seq<char>>) -> bool {
    full || misses.contains(record_fqdn(d))
}

/// The store after the candidates among `devices` were refreshed at `now`,
/// in order.
pub open spec fn candidates_refreshed(
    s: Seq<DeviceView>,
    inv: InventoryView,
    devices: Seq<DeviceRecord>,
    full: bool,
    misses: Set<Seq<char>>,
    now: u64,
) -> Seq<DeviceView>
    decreases devices.len(),
{
    if devices.len() == 0 {
        s
    } else {
        let head = candidates_refreshed(s, inv, devices.drop_last(), full, misses, now);
        if is_candidate(devices.last(), full, misses) {
            device_refreshed_from(head, inv, devices.last(), now)
        } else {
            head
        }
    }
}

/// Whether a tick runs a refresh pass: on a full refresh, and whenever a
/// miss is noted.
pub open spec fn runs_refresh(full: bool, misses: Set<Seq<char>>) -> bool {
    full || misses != Set::<Seq<char>>::empty()
}

/// The store after one tick at `now`: the candidates of the inventory are
/// refreshed, and where a refresh pass ran the store is pruned.
pub open spec fn store_after_tick(
    s: Seq<DeviceView>,
    inv: InventoryView,
    full: bool,
    misses: Set<Seq<char>>,
    now: u64,
) -> Seq<DeviceView> {
    let refreshed = candidates_refreshed(s, inv, inv.devices, full, misses, now);
    if runs_refresh(full, misses) {
        pruned(refreshed, now)
    } else {
        refreshed
    }
}

/// Whether the scheduler is to go on: the value of the flag by which the
/// process asks it to stop. Read at the head of each tick.
pub fn should_continue(running: &std::sync::atomic::AtomicBool) -> bool {
    running.load(std::sync::atomic::Ordering::Relaxed)
}

/// What the scheduler remembers from tick to tick.
pub struct SchedulerView {
    pub first_run_done: bool,
    pub phase: u8,
}

/// Whether the next tick is a full refresh: the first tick, and every tick
/// at phase 0.
pub open spec fn full_refresh(v: SchedulerView) -> bool {
    !v.first_run_done || v.phase == 0
}

/// The scheduler after a tick: the first run is done, and the phase has
/// moved on by one, from 9 back to 0.
pub open spec fn advanced(v: SchedulerView) -> SchedulerView {
    SchedulerView {
        first_run_done: true,
        phase: if v.phase >= REFRESH_PERIOD - 1 {
            0
        } else {
            (v.phase + 1) as u8
        },
    }
}

/// The periodic reconciler between the inventory and the store.
#[derive(Debug)]
pub struct RefreshScheduler {
    first_run_done: bool,
    phase: u8,
}

impl View for RefreshScheduler {
    type V = SchedulerView;

    closed spec fn view(&self) -> SchedulerView {
        SchedulerView { first_run_done: self.first_run_done, phase: self.phase }
    }
}

/// Refreshes each of the interfaces on device `fqdn`.
fn refresh_interfaces_of(imds: &mut IMDS, fqdn: &String, ifs: &Vec<&Interface>, now: u64)
    ensures
        final(imds)@ == interfaces_refreshed(
            old(imds)@,
            fqdn@,
            ifs@.map_values(|i: &Interface| (*i)@),
            now,
        ),
{
    let ghost before = imds@;
    let ghost all = ifs@.map_values(|i: &Interface| (*i)@);
    let mut k: usize = 0;
    proof {
        assert(all.subrange(0, 0) =~= Seq::<InterfaceRecord>::empty());
    }
    while k < ifs.len()
        invariant
            k <= ifs.len(),
            all == ifs@.map_values(|i: &Interface| (*i)@),
            imds@ == interfaces_refreshed(before, fqdn@, all.subrange(0, k as int), now),
        decreases ifs.len() - k,
    {
        proof {
            assert(all.subrange(0, k + 1).drop_last() =~= all.subrange(0, k as int));
            assert(all.subrange(0, k + 1).last() == all[k as int]);
        }
        let i = ifs[k];
        imds.refresh_interface_at(
            fqdn,
            i.index,
            &i.interface_type,
            &i.name,
            i.has_connected_peer(),
            i.speed_override,
            now,
        );
        k += 1;
    }
    proof {
        assert(all.subrange(0, k as int) =~= all);
    }
}

impl RefreshScheduler {
    /// A scheduler that has not run yet.
    pub fn new() -> (r: RefreshScheduler)
        ensures
            r@ == (SchedulerView { first_run_done: false, phase: 0 }),
    {
        RefreshScheduler { first_run_done: false, phase: 0 }
    }

    /// The phase of the next tick, from 0 to 9.
    pub fn phase(&self) -> (p: u8)
        ensures
            p == self@.phase,
    {
        self.phase
    }

    /// Whether the next tick is a full refresh.
    pub fn is_full_refresh(&self) -> (b: bool)
        ensures
            b == full_refresh(self@),
    {
        !self.first_run_done || self.phase == 0
    }

    /// Whether the next tick, given these misses, runs a refresh pass and so
    /// reads the inventory.
    pub fn needs_inventory(&self, misses: &StringSet) -> (b: bool)
        ensures
            b == runs_refresh(full_refresh(self@), misses@),
    {
        self.is_full_refresh() || !misses.is_empty()
    }

    /// One tick at time `now`, with the misses drained from the miss cache
    /// and the inventory as it was read for this tick. Every device of the
    /// inventory is refreshed on a full refresh, else those named by the
    /// misses: the device first, then each of its interfaces. Where a
    /// refresh pass ran, the store is pruned. Then the phase moves on.
    pub fn tick_at(
        &mut self,
        imds: &mut IMDS,
        inventory: &Inventory,
        misses: &StringSet,
        now: u64,
    )
        ensures
            final(imds)@ == store_after_tick(
                old(imds)@,
                inventory@,
                full_refresh(old(self)@),
                misses@,
                now,
            ),
            final(self)@ == advanced(old(self)@),
    {
        let full = self.is_full_refresh();
        let refresh = full || !misses.is_empty();
        let ghost before = imds@;
        let ghost all = inventory@.devices;
        let mut k: usize = 0;
        proof {
            assert(all.subrange(0, 0) =~= Seq::<DeviceRecord>::empty());
        }
        while k < inventory.devices.len()
            invariant
                k <= inventory.devices.len(),
                all == inventory@.devices,
                all.len() == inventory.devices.len(),
                imds@ == candidates_refreshed(
                    before,
                    inventory@,
                    all.subrange(0, k as int),
                    full,
                    misses@,
                    now,
                ),
            decreases inventory.devices.len() - k,
        {
            proof {
                assert(all.subrange(0, k + 1).drop_last() =~= all.subrange(0, k as int));
                assert(all.subrange(0, k + 1).last() == all[k as int]);
            }
            let device = &inventory.devices[k];
            let fqdn = device.fqdn();
            if full || misses.contains(&fqdn) {
                imds.refresh_device_at(&fqdn, now);
                let ifs = inventory.interfaces_of(device);
                refresh_interfaces_of(imds, &fqdn, &ifs, now);
            }
            k += 1;
        }
        proof {
            assert(all.subrange(0, k as int) =~= all);
        }
        if refresh {
            imds.prune_at(now);
        }
        self.first_run_done = true;
        if self.phase >= REFRESH_PERIOD - 1 {
            self.phase = 0;
        } else {
            self.phase = self.phase + 1;
        }
    }

    /// One tick now: `tick_at` at the time that the clock gives.
    pub fn tick(&mut self, imds: &mut IMDS, inventory: &Inventory, misses: &StringSet)
        ensures
            exists|now: u64|
                final(imds)@ == store_after_tick(
                    old(imds)@,
                    inventory@,
                    full_refresh(old(self)@),
                    misses@,
                    now,
                ),
            final(self)@ == advanced(old(self)@),
    {
        let t = now();
        self.tick_at(imds, inventory, misses, t);
    }
}

} // verus!
