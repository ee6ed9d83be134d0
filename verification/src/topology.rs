//! The weathermap topology: every device of the inventory with its
//! interfaces and what each is cabled to, and the cache that remembers it
//! until a given time.

use vstd::prelude::*;
use crate::clock::{deadline, deadline_after, now, TOPOLOGY_TTL};
use crate::inventory::{
    device_by_id, interfaces_of, peer_interface, record_fqdn, DeviceRecord, Interface,
    InterfaceRecord, Inventory, InventoryView,
};
use crate::string_map::{Duplicate, StringMap};

verus! {

/// What the far end of a cable stands for.
pub struct ConnectedToView {
    pub fqdn: Seq<char>,
    pub interface: Seq<char>,
}

/// The far end of a cable: the device, and the name of its interface.
#[derive(Debug)]
pub struct WeathermapDeviceInterfaceConnectedTo {
    pub fqdn: String,
    pub interface: String,
}

impl View for WeathermapDeviceInterfaceConnectedTo {
    type V = ConnectedToView;

    open spec fn view(&self) -> ConnectedToView {
        ConnectedToView { fqdn: self.fqdn@, interface: self.interface@ }
    }
}

/// What an optional far end stands for.
pub open spec fn optional_connection(o: Option<WeathermapDeviceInterfaceConnectedTo>) -> Option<
    ConnectedToView,
> {
    match o {
        Some(c) => Some(c@),
        None => None,
    }
}

/// What an interface of the topology stands for.
pub struct TopologyInterfaceView {
    pub name: Seq<char>,
    pub if_index: i32,
    pub connected_to: Option<ConnectedToView>,
}

/// An interface of the topology.
#[derive(Debug)]
pub struct WeathermapDeviceInterface {
    pub name: String,
    pub if_index: i32,
    pub connected_to: Option<WeathermapDeviceInterfaceConnectedTo>,
}

impl View for WeathermapDeviceInterface {
    type V = TopologyInterfaceView;

    open spec fn view(&self) -> TopologyInterfaceView {
        TopologyInterfaceView {
            name: self.name@,
            if_index: self.if_index,
            connected_to: optional_connection(self.connected_to),
        }
    }
}

impl Duplicate for WeathermapDeviceInterface {
    fn duplicate(&self) -> (r: Self) {
        let connected_to = match &self.connected_to {
            Some(c) => Some(
                WeathermapDeviceInterfaceConnectedTo {
                    fqdn: c.fqdn.clone(),
                    interface: c.interface.clone(),
                },
            ),
            None => None,
        };
        WeathermapDeviceInterface { name: self.name.clone(), if_index: self.if_index, connected_to }
    }
}

/// What a device of the topology stands for.
pub struct TopologyDeviceView {
    pub fqdn: Seq<char>,
    pub interfaces: Map<Seq<char>, TopologyInterfaceView>,
}

/// A device of the topology, with its interfaces by name.
#[derive(Debug)]
pub struct WeathermapDevice {
    pub fqdn: String,
    pub interfaces: StringMap<WeathermapDeviceInterface>,
}

impl View for WeathermapDevice {
    type V = TopologyDeviceView;

    open spec fn view(&self) -> TopologyDeviceView {
        TopologyDeviceView { fqdn: self.fqdn@, interfaces: self.interfaces@ }
    }
}

impl Duplicate for WeathermapDevice {
    fn duplicate(&self) -> (r: Self) {
        WeathermapDevice { fqdn: self.fqdn.clone(), interfaces: self.interfaces.copy() }
    }
}

/// The topology: its devices by fully-qualified name.
#[derive(Debug)]
pub struct WeathermapBase {
    pub devices: StringMap<WeathermapDevice>,
}

impl View for WeathermapBase {
    type V = Map<Seq<char>, TopologyDeviceView>;

    open spec fn view(&self) -> Map<Seq<char>, TopologyDeviceView> {
        self.devices@
    }
}

impl Duplicate for WeathermapBase {
    fn duplicate(&self) -> (r: Self) {
        WeathermapBase { devices: self.devices.copy() }
    }
}

/// What interface `i` is cabled to: the name of the device that owns its
/// peer, and the peer's name. `None` when the inventory records no peer or
/// does not hold the peer or its device.
pub open spec fn connection_of(inv: InventoryView, i: InterfaceRecord) -> Option<ConnectedToView> {
    match peer_interface(inv, i) {
        Some(p) => match device_by_id(inv, p.device_id) {
            Some(d) => Some(ConnectedToView { fqdn: record_fqdn(d), interface: p.name }),
            None => None,
        },
        None => None,
    }
}

/// Interface `i` as the topology shows it.
pub open spec fn topology_interface(
    inv: InventoryView,
    i: InterfaceRecord,
) -> TopologyInterfaceView {
    TopologyInterfaceView { name: i.name, if_index: i.index, connected_to: connection_of(inv, i) }
}

/// The interfaces by name. Where two share a name, the later one is shown.
pub open spec fn topology_interfaces(inv: InventoryView, ifs: Seq<InterfaceRecord>) -> Map<
    Seq<char>,
    TopologyInterfaceView,
>
    decreases ifs.len(),
{
    if ifs.len() == 0 {
        Map::empty()
    } else {
        topology_interfaces(inv, ifs.drop_last()).insert(
            ifs.last().name,
            topology_interface(inv, ifs.last()),
        )
    }
}

/// Device `d` as the topology shows it.
pub open spec fn topology_device(inv: InventoryView, d: DeviceRecord) -> TopologyDeviceView {
    TopologyDeviceView {
        fqdn: record_fqdn(d),
        interfaces: topology_interfaces(inv, interfaces_of(inv, d.id)),
    }
}

/// The devices by fully-qualified name. Where two share a name, the later
/// one is shown.
pub open spec fn topology_devices(inv: InventoryView, devices: Seq<DeviceRecord>) -> Map<
    Seq<char>,
    TopologyDeviceView,
>
    decreases devices.len(),
{
    if devices.len() == 0 {
        Map::empty()
    } else {
        topology_devices(inv, devices.drop_last()).insert(
            record_fqdn(devices.last()),
            topology_device(inv, devices.last()),
        )
    }
}

/// The topology of an inventory.
pub open spec fn topology(inv: InventoryView) -> Map<Seq<char>, TopologyDeviceView> {
    topology_devices(inv, inv.devices)
}

/// Reads what interface `i` is cabled to.
fn connected_to(inventory: &Inventory, i: &Interface) -> (r: Option<
    WeathermapDeviceInterfaceConnectedTo,
>)
    ensures
        optional_connection(r) == connection_of(inventory@, i@),
{
    match inventory.peer_interface(i) {
        Some(p) => match inventory.device_by_id(p.device_id) {
            Some(d) => Some(
                WeathermapDeviceInterfaceConnectedTo { fqdn: d.fqdn(), interface: p.name.clone() },
            ),
            None => None,
        },
        None => None,
    }
}

/// Builds the topology from the inventory: for each device its name and its
/// interfaces by name, and for each interface its peer, if it has one.
pub fn get_topology_data(inventory: &Inventory) -> (wmap: WeathermapBase)
    ensures
        wmap@ == topology(inventory@),
{
    let mut devices: StringMap<WeathermapDevice> = StringMap::new();
    let ghost all = inventory@.devices;
    let mut k: usize = 0;
    proof {
        assert(all.subrange(0, 0) =~= Seq::<DeviceRecord>::empty());
    }
    while k < inventory.devices.len()
        invariant
            k <= inventory.devices.len(),
            all == inventory@.devices,
            all.len() == inventory.devices.len(),
            devices@ == topology_devices(inventory@, all.subrange(0, k as int)),
        decreases inventory.devices.len() - k,
    {
        proof {
            assert(all.subrange(0, k + 1).drop_last() =~= all.subrange(0, k as int));
            assert(all.subrange(0, k + 1).last() == all[k as int]);
        }
        let device = &inventory.devices[k];
        let ifs = inventory.interfaces_of(device);
        let ghost mine = ifs@.map_values(|i: &Interface| (*i)@);
        let mut interfaces: StringMap<WeathermapDeviceInterface> = StringMap::new();
        let mut j: usize = 0;
        proof {
            assert(mine.subrange(0, 0) =~= Seq::<InterfaceRecord>::empty());
        }
        while j < ifs.len()
            invariant
                j <= ifs.len(),
                mine == ifs@.map_values(|i: &Interface| (*i)@),
                interfaces@ == topology_interfaces(inventory@, mine.subrange(0, j as int)),
            decreases ifs.len() - j,
        {
            proof {
                assert(mine.subrange(0, j + 1).drop_last() =~= mine.subrange(0, j as int));
                assert(mine.subrange(0, j + 1).last() == mine[j as int]);
            }
            let interface = ifs[j];
            let shown = WeathermapDeviceInterface {
                name: interface.name.clone(),
                if_index: interface.index,
                connected_to: connected_to(inventory, interface),
            };
            interfaces.insert(interface.name.clone(), shown);
            j += 1;
        }
        proof {
            assert(mine.subrange(0, j as int) =~= mine);
        }
        let fqdn = device.fqdn();
        let shown = WeathermapDevice { fqdn: fqdn.clone(), interfaces };
        devices.insert(fqdn, shown);
        k += 1;
    }
    proof {
        assert(all.subrange(0, k as int) =~= all);
    }
    WeathermapBase { devices }
}

/// What a remembered topology stands for.
pub struct CachedView {
    pub weathermap_topology: Map<Seq<char>, TopologyDeviceView>,
    pub valid_until: u64,
}

/// A topology, and the time until which it may be served.
#[derive(Debug)]
pub struct CachedWeathermapTopology {
    pub weathermap_topology: WeathermapBase,
    pub valid_until: u64,
}

impl View for CachedWeathermapTopology {
    type V = CachedView;

    open spec fn view(&self) -> CachedView {
        CachedView {
            weathermap_topology: self.weathermap_topology@,
            valid_until: self.valid_until,
        }
    }
}

impl CachedWeathermapTopology {
    /// Remembers a topology built at `now`, to be served for the topology
    /// time-to-live.
    pub fn new_at(weathermap_topology: WeathermapBase, now: u64) -> (r: Self)
        ensures
            r@ == (CachedView {
                weathermap_topology: weathermap_topology@,
                valid_until: deadline(now, TOPOLOGY_TTL),
            }),
    {
        CachedWeathermapTopology {
            weathermap_topology,
            valid_until: deadline_after(now, TOPOLOGY_TTL),
        }
    }
}

/// What an optional remembered topology stands for.
pub open spec fn optional_cached(o: Option<CachedWeathermapTopology>) -> Option<CachedView> {
    match o {
        Some(c) => Some(c@),
        None => None,
    }
}

/// Whether the cache can serve a read at `now`: it holds a topology, and
/// `now` lies strictly before the end of its validity.
pub open spec fn cache_fresh(c: Option<CachedView>, now: u64) -> bool {
    c is Some && now < c->0.valid_until
}

/// What a read at `now` returns: the remembered topology while it is fresh,
/// else the topology of the inventory.
pub open spec fn topology_read(c: Option<CachedView>, inv: InventoryView, now: u64) -> Map<
    Seq<char>,
    TopologyDeviceView,
> {
    if cache_fresh(c, now) {
        c->0.weathermap_topology
    } else {
        topology(inv)
    }
}

/// The cache after a read at `now`: unchanged while fresh, else holding the
/// topology of the inventory, valid for the topology time-to-live.
pub open spec fn cache_after_read(c: Option<CachedView>, inv: InventoryView, now: u64) -> Option<
    CachedView,
> {
    if cache_fresh(c, now) {
        c
    } else {
        Some(
            CachedView {
                weathermap_topology: topology(inv),
                valid_until: deadline(now, TOPOLOGY_TTL),
            },
        )
    }
}

/// The memo of the topology join.
#[derive(Debug)]
pub struct CacheController {
    pub cached_weathermap_topology: Option<CachedWeathermapTopology>,
}

impl View for CacheController {
    type V = Option<CachedView>;

    open spec fn view(&self) -> Option<CachedView> {
        optional_cached(self.cached_weathermap_topology)
    }
}

impl CacheController {
    /// A cache that remembers nothing.
    pub fn new() -> (r: Self)
        ensures
            r@ is None,
    {
        CacheController { cached_weathermap_topology: None }
    }

    /// Whether a read at `now` is served from the cache.
    pub fn is_fresh_at(&self, now: u64) -> (b: bool)
        ensures
            b == cache_fresh(self@, now),
    {
        match &self.cached_weathermap_topology {
            Some(c) => now < c.valid_until,
            None => false,
        }
    }

    /// The remembered topology, if a read at `now` is served from the cache.
    pub fn lookup_at(&self, now: u64) -> (r: Option<&WeathermapBase>)
        ensures
            r is Some <==> cache_fresh(self@, now),
            r is Some ==> (*r->0)@ == self@->0.weathermap_topology,
    {
        match &self.cached_weathermap_topology {
            Some(c) => {
                if now < c.valid_until {
                    Some(&c.weathermap_topology)
                } else {
                    None
                }
            },
            None => None,
        }
    }
}

/// A read of the topology at `now`: the remembered topology while it is
/// fresh, else the topology is rebuilt from the inventory and remembered for
/// the topology time-to-live.
pub fn full_topology_data_at(
    cache_controller: &mut CacheController,
    inventory: &Inventory,
    now: u64,
) -> (ret: WeathermapBase)
    ensures
        ret@ == topology_read(old(cache_controller)@, inventory@, now),
        final(cache_controller)@ == cache_after_read(old(cache_controller)@, inventory@, now),
{
    match &cache_controller.cached_weathermap_topology {
        Some(c) => {
            if now < c.valid_until {
                return c.weathermap_topology.duplicate();
            }
        },
        None => {},
    }
    let ret = get_topology_data(inventory);
    cache_controller.cached_weathermap_topology =
    Some(CachedWeathermapTopology::new_at(ret.duplicate(), now));
    ret
}

/// A read of the topology now: `full_topology_data_at` at the time that the
/// clock gives.
pub fn full_topology_data(cache_controller: &mut CacheController, inventory: &Inventory) -> (ret:
    WeathermapBase)
    ensures
        exists|now: u64|
            ret@ == topology_read(old(cache_controller)@, inventory@, now)
                && final(cache_controller)@ == cache_after_read(
                old(cache_controller)@,
                inventory@,
                now,
            ),
{
    let t = now();
    full_topology_data_at(cache_controller, inventory, t)
}

/// Topology cache freshness. After a read at `first`, a read at any time
/// strictly before the end of the validity then in force returns what the
/// first read returned, whatever the inventory has become, and leaves the
/// cache as it is. A read at or past the end of the validity returns the
/// topology of the inventory as it is then, and remembers it for the
/// topology time-to-live. A topology rebuilt at `first` is fresh at every
/// time before `first` plus the time-to-live.
pub proof fn lemma_cache_freshness(
    c: Option<CachedView>,
    inv1: InventoryView,
    inv2: InventoryView,
    first: u64,
    second: u64,
)
    ensures
        ({
            let served = topology_read(c, inv1, first);
            let after = cache_after_read(c, inv1, first);
            &&& after is Some
            &&& cache_fresh(after, second) ==> topology_read(after, inv2, second) == served
                && cache_after_read(after, inv2, second) == after
            &&& !cache_fresh(after, second) ==> topology_read(after, inv2, second) == topology(
                inv2,
            ) && cache_after_read(after, inv2, second) == Some(
                CachedView {
                    weathermap_topology: topology(inv2),
                    valid_until: deadline(second, TOPOLOGY_TTL),
                },
            )
            &&& !cache_fresh(c, first) && second < deadline(first, TOPOLOGY_TTL) ==> cache_fresh(
                after,
                second,
            )
        }),
{
}

} // verus!
