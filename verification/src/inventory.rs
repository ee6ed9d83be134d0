//! The inventory of devices, interfaces and links as the store reads it: a
//! snapshot held in memory, with the lookups that the store needs.

use vstd::prelude::*;

verus! {

/// The fully-qualified name made of a host name and its domain: the name, a
/// dot, the domain.
pub open spec fn fqdn_of(name: Seq<char>, dns_domain: Seq<char>) -> Seq<char> {
    name + seq!['.'] + dns_domain
}

/// Builds `fqdn_of(name, dns_domain)`.
pub fn join_fqdn(name: &String, dns_domain: &String) -> (r: String)
    ensures
        r@ == fqdn_of(name@, dns_domain@),
{
    let mut s = name.clone();
    s.append(".");
    s.append(dns_domain.as_str());
    proof {
        reveal_strlit(".");
        assert("."@ =~= seq!['.']);
    }
    s
}

/// What a device of the inventory stands for.
pub struct DeviceRecord {
    pub id: i32,
    pub name: Seq<char>,
    pub dns_domain: Seq<char>,
}

/// A device of the inventory.
#[derive(Debug)]
pub struct Device {
    pub id: i32,
    pub name: String,
    pub dns_domain: String,
}

impl View for Device {
    type V = DeviceRecord;

    open spec fn view(&self) -> DeviceRecord {
        DeviceRecord { id: self.id, name: self.name@, dns_domain: self.dns_domain@ }
    }
}

impl Clone for Device {
    fn clone(&self) -> (r: Self)
        ensures
            r@ == self@,
    {
        Device { id: self.id, name: self.name.clone(), dns_domain: self.dns_domain.clone() }
    }
}

impl Device {
    /// The device's fully-qualified name.
    pub fn fqdn(&self) -> (r: String)
        ensures
            r@ == record_fqdn(self@),
    {
        join_fqdn(&self.name, &self.dns_domain)
    }
}

/// The fully-qualified name of a device record.
pub open spec fn record_fqdn(d: DeviceRecord) -> Seq<char> {
    fqdn_of(d.name, d.dns_domain)
}

/// What an interface of the inventory stands for.
pub struct InterfaceRecord {
    pub id: i32,
    pub index: i32,
    pub name: Seq<char>,
    pub interface_type: Seq<char>,
    pub speed_override: Option<i32>,
    pub connected_interface: Option<i32>,
    pub device_id: i32,
}

/// An interface of the inventory. `connected_interface` is the `id` of the
/// interface at the other end of the cable, if the inventory records one.
#[derive(Debug)]
pub struct Interface {
    pub id: i32,
    pub index: i32,
    pub name: String,
    pub interface_type: String,
    pub speed_override: Option<i32>,
    pub connected_interface: Option<i32>,
    pub device_id: i32,
}

impl View for Interface {
    type V = InterfaceRecord;

    open spec fn view(&self) -> InterfaceRecord {
        InterfaceRecord {
            id: self.id,
            index: self.index,
            name: self.name@,
            interface_type: self.interface_type@,
            speed_override: self.speed_override,
            connected_interface: self.connected_interface,
            device_id: self.device_id,
        }
    }
}

impl Clone for Interface {
    fn clone(&self) -> (r: Self)
        ensures
            r@ == self@,
    {
        Interface {
            id: self.id,
            index: self.index,
            name: self.name.clone(),
            interface_type: self.interface_type.clone(),
            speed_override: self.speed_override,
            connected_interface: self.connected_interface,
            device_id: self.device_id,
        }
    }
}

impl Interface {
    /// Whether the inventory records a peer for this interface.
    pub fn has_connected_peer(&self) -> (b: bool)
        ensures
            b == self@.connected_interface.is_some(),
    {
        self.connected_interface.is_some()
    }
}

/// What an inventory stands for.
pub struct InventoryView {
    pub devices: Seq<DeviceRecord>,
    pub interfaces: Seq<InterfaceRecord>,
}

/// A snapshot of the inventory. Lookups take the first record that matches,
/// so a snapshot with repeated identifiers is read as if only the first of
/// each were there.
#[derive(Debug)]
pub struct Inventory {
    pub devices: Vec<Device>,
    pub interfaces: Vec<Interface>,
}

impl View for Inventory {
    type V = InventoryView;

    open spec fn view(&self) -> InventoryView {
        InventoryView {
            devices: self.devices@.map_values(|d: Device| d@),
            interfaces: self.interfaces@.map_values(|i: Interface| i@),
        }
    }
}

/// Position of the first element that satisfies `p`, or the length of the
/// sequence when none does.
pub open spec fn first_position<A>(s: Seq<A>, p: spec_fn(A) -> bool) -> int
    decreases s.len(),
{
    if s.len() == 0 {
        0
    } else if p(s.first()) {
        0
    } else {
        1 + first_position(s.drop_first(), p)
    }
}

/// The first element that satisfies `p`, if there is one.
pub open spec fn first_match<A>(s: Seq<A>, p: spec_fn(A) -> bool) -> Option<A> {
    if first_position(s, p) < s.len() {
        Some(s[first_position(s, p)])
    } else {
        None
    }
}

/// `first_position` is the least position whose element satisfies `p`.
pub proof fn lemma_first_position<A>(s: Seq<A>, p: spec_fn(A) -> bool)
    ensures
        0 <= first_position(s, p) <= s.len(),
        first_position(s, p) < s.len() ==> p(s[first_position(s, p)]),
        forall|j: int| 0 <= j < first_position(s, p) ==> !p(#[trigger] s[j]),
    decreases s.len(),
{
    if s.len() > 0 && !p(s.first()) {
        let t = s.drop_first();
        lemma_first_position(t, p);
        assert forall|j: int| 0 <= j < first_position(s, p) implies !p(#[trigger] s[j]) by {
            if j > 0 {
                assert(s[j] == t[j - 1]);
            }
        }
    }
}

/// A position whose element satisfies `p`, with none before it that does, is
/// the first position.
pub proof fn lemma_first_position_is<A>(s: Seq<A>, p: spec_fn(A) -> bool, i: int)
    requires
        0 <= i <= s.len(),
        i < s.len() ==> p(s[i]),
        forall|j: int| 0 <= j < i ==> !p(#[trigger] s[j]),
    ensures
        first_position(s, p) == i,
{
    lemma_first_position(s, p);
    let f = first_position(s, p);
    if f < i {
        assert(!p(s[f]));
    } else if f > i {
        assert(!p(s[i]));
    }
}

/// The first device with that fully-qualified name.
pub open spec fn device_by_fqdn(inv: InventoryView, fqdn: Seq<char>) -> Option<DeviceRecord> {
    first_match(inv.devices, |d: DeviceRecord| record_fqdn(d) == fqdn)
}

/// The first device with that identifier.
pub open spec fn device_by_id(inv: InventoryView, id: i32) -> Option<DeviceRecord> {
    first_match(inv.devices, |d: DeviceRecord| d.id == id)
}

/// The interfaces that belong to the device with that identifier, in order.
pub open spec fn interfaces_of(inv: InventoryView, device_id: i32) -> Seq<InterfaceRecord> {
    inv.interfaces.filter(|i: InterfaceRecord| i.device_id == device_id)
}

/// The first interface of that device with that index.
pub open spec fn interface_by_index(inv: InventoryView, device_id: i32, index: i32) -> Option<
    InterfaceRecord,
> {
    first_match(
        inv.interfaces,
        |i: InterfaceRecord| i.device_id == device_id && i.index == index,
    )
}

/// The first interface with that identifier.
pub open spec fn interface_by_id(inv: InventoryView, id: i32) -> Option<InterfaceRecord> {
    first_match(inv.interfaces, |i: InterfaceRecord| i.id == id)
}

/// The interface at the other end of the cable, if the inventory records a
/// link and holds the interface it names.
pub open spec fn peer_interface(inv: InventoryView, i: InterfaceRecord) -> Option<
    InterfaceRecord,
> {
    match i.connected_interface {
        Some(id) => interface_by_id(inv, id),
        None => None,
    }
}

/// The device that owns the interface at the other end of the cable.
pub open spec fn peer_device(inv: InventoryView, i: InterfaceRecord) -> Option<DeviceRecord> {
    match peer_interface(inv, i) {
        Some(p) => device_by_id(inv, p.device_id),
        None => None,
    }
}

impl Inventory {
    /// An inventory without devices.
    pub fn new() -> (r: Inventory)
        ensures
            r@.devices == Seq::<DeviceRecord>::empty(),
            r@.interfaces == Seq::<InterfaceRecord>::empty(),
    {
        let r = Inventory { devices: Vec::new(), interfaces: Vec::new() };
        proof {
            assert(r@.devices =~= Seq::<DeviceRecord>::empty());
            assert(r@.interfaces =~= Seq::<InterfaceRecord>::empty());
        }
        r
    }

    /// The first device with that fully-qualified name.
    pub fn device_by_fqdn(&self, fqdn: &String) -> (r: Option<&Device>)
        ensures
            r is Some <==> device_by_fqdn(self@, fqdn@) is Some,
            r is Some ==> (*r->0)@ == device_by_fqdn(self@, fqdn@)->0,
    {
        let ghost p = |d: DeviceRecord| record_fqdn(d) == fqdn@;
        let mut i: usize = 0;
        while i < self.devices.len()
            invariant
                i <= self.devices.len(),
                p == |d: DeviceRecord| record_fqdn(d) == fqdn@,
                forall|j: int| 0 <= j < i ==> !p(#[trigger] self@.devices[j]),
            decreases self.devices.len() - i,
        {
            let name = self.devices[i].fqdn();
            if name == *fqdn {
                proof {
                    lemma_first_position_is(self@.devices, p, i as int);
                }
                return Some(&self.devices[i]);
            }
            i += 1;
        }
        proof {
            lemma_first_position_is(self@.devices, p, i as int);
        }
        None
    }

    /// The first device with that identifier.
    pub fn device_by_id(&self, id: i32) -> (r: Option<&Device>)
        ensures
            r is Some <==> device_by_id(self@, id) is Some,
            r is Some ==> (*r->0)@ == device_by_id(self@, id)->0,
    {
        let ghost p = |d: DeviceRecord| d.id == id;
        let mut i: usize = 0;
        while i < self.devices.len()
            invariant
                i <= self.devices.len(),
                p == |d: DeviceRecord| d.id == id,
                forall|j: int| 0 <= j < i ==> !p(#[trigger] self@.devices[j]),
            decreases self.devices.len() - i,
        {
            if self.devices[i].id == id {
                proof {
                    lemma_first_position_is(self@.devices, p, i as int);
                }
                return Some(&self.devices[i]);
            }
            i += 1;
        }
        proof {
            lemma_first_position_is(self@.devices, p, i as int);
        }
        None
    }

    /// The first interface with that identifier.
    pub fn interface_by_id(&self, id: i32) -> (r: Option<&Interface>)
        ensures
            r is Some <==> interface_by_id(self@, id) is Some,
            r is Some ==> (*r->0)@ == interface_by_id(self@, id)->0,
    {
        let ghost p = |i: InterfaceRecord| i.id == id;
        let mut i: usize = 0;
        while i < self.interfaces.len()
            invariant
                i <= self.interfaces.len(),
                p == |i: InterfaceRecord| i.id == id,
                forall|j: int| 0 <= j < i ==> !p(#[trigger] self@.interfaces[j]),
            decreases self.interfaces.len() - i,
        {
            if self.interfaces[i].id == id {
                proof {
                    lemma_first_position_is(self@.interfaces, p, i as int);
                }
                return Some(&self.interfaces[i]);
            }
            i += 1;
        }
        proof {
            lemma_first_position_is(self@.interfaces, p, i as int);
        }
        None
    }

    /// The first interface of that device with that index.
    pub fn interface_by_index(&self, device: &Device, index: i32) -> (r: Option<&Interface>)
        ensures
            r is Some <==> interface_by_index(self@, device.id, index) is Some,
            r is Some ==> (*r->0)@ == interface_by_index(self@, device.id, index)->0,
    {
        let ghost p = |i: InterfaceRecord| i.device_id == device.id && i.index == index;
        let mut i: usize = 0;
        while i < self.interfaces.len()
            invariant
                i <= self.interfaces.len(),
                p == |i: InterfaceRecord| i.device_id == device.id && i.index == index,
                forall|j: int| 0 <= j < i ==> !p(#[trigger] self@.interfaces[j]),
            decreases self.interfaces.len() - i,
        {
            if self.interfaces[i].device_id == device.id && self.interfaces[i].index == index {
                proof {
                    lemma_first_position_is(self@.interfaces, p, i as int);
                }
                return Some(&self.interfaces[i]);
            }
            i += 1;
        }
        proof {
            lemma_first_position_is(self@.interfaces, p, i as int);
        }
        None
    }

    /// The interface at the other end of the cable.
    pub fn peer_interface(&self, interface: &Interface) -> (r: Option<&Interface>)
        ensures
            r is Some <==> peer_interface(self@, interface@) is Some,
            r is Some ==> (*r->0)@ == peer_interface(self@, interface@)->0,
    {
        match interface.connected_interface {
            Some(id) => self.interface_by_id(id),
            None => None,
        }
    }

    /// The device that owns the interface at the other end of the cable.
    pub fn peer_device(&self, interface: &Interface) -> (r: Option<&Device>)
        ensures
            r is Some <==> peer_device(self@, interface@) is Some,
            r is Some ==> (*r->0)@ == peer_device(self@, interface@)->0,
    {
        match self.peer_interface(interface) {
            Some(p) => self.device_by_id(p.device_id),
            None => None,
        }
    }

    /// The interfaces of that device, in the order of the inventory.
    pub fn interfaces_of(&self, device: &Device) -> (r: Vec<&Interface>)
        ensures
            r@.map_values(|i: &Interface| (*i)@) == interfaces_of(self@, device.id),
    {
        let ghost p = |i: InterfaceRecord| i.device_id == device.id;
        let mut out: Vec<&Interface> = Vec::new();
        let mut i: usize = 0;
        proof {
            reveal(Seq::filter);
            assert(self@.interfaces.subrange(0, 0) =~= Seq::<InterfaceRecord>::empty());
            assert(out@.map_values(|i: &Interface| (*i)@) =~= Seq::<InterfaceRecord>::empty());
        }
        while i < self.interfaces.len()
            invariant
                i <= self.interfaces.len(),
                p == |i: InterfaceRecord| i.device_id == device.id,
                out@.map_values(|i: &Interface| (*i)@) == self@.interfaces.subrange(
                    0,
                    i as int,
                ).filter(p),
            decreases self.interfaces.len() - i,
        {
            proof {
                let head = self@.interfaces.subrange(0, i as int);
                assert(self@.interfaces.subrange(0, i + 1) =~= head.push(
                    self@.interfaces[i as int],
                ));
                head.lemma_filter_push(self@.interfaces[i as int], p);
            }
            let ghost prev = out@.map_values(|i: &Interface| (*i)@);
            if self.interfaces[i].device_id == device.id {
                out.push(&self.interfaces[i]);
                proof {
                    assert(out@.map_values(|i: &Interface| (*i)@) =~= prev.push(
                        self@.interfaces[i as int],
                    ));
                }
            }
            i += 1;
        }
        proof {
            assert(self@.interfaces.subrange(0, i as int) =~= self@.interfaces);
        }
        out
    }
}

} // verus!
