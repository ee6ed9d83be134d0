//! What probe reports do to the store, and the events they give rise to.

use vstd::prelude::*;
use crate::events::{event_views, link_status, optional_text, Event, EventView, LinkStatus};
use crate::inventory::{
    device_by_fqdn, interface_by_index, interfaces_of, peer_device, peer_interface, record_fqdn,
    Device, DeviceRecord, Interface, InterfaceRecord, Inventory, InventoryView,
};
use crate::metrics::{
    device_pos, device_wf, has_device, has_interface, interface_keys, interface_pos,
    DeviceMetrics, DeviceView, InterfaceView,
};
use crate::reports::InterfaceReport;
use crate::seq_util::lemma_update_same_key;
use crate::string_map::StringMap;
use crate::string_set::StringSet;

verus! {

/// A report changes liveness when the stored value is known, the report
/// carries one, and the two differ. A first observation changes nothing.
pub open spec fn changes_liveness(stored: Option<bool>, reported: Option<bool>) -> bool {
    stored is Some && reported is Some && stored->0 != reported->0
}

/// What is stored after a report: the reported value where the report
/// carries one, else what was stored.
pub open spec fn merged<T>(stored: Option<T>, reported: Option<T>) -> Option<T> {
    if reported is Some {
        reported
    } else {
        stored
    }
}

/// The store after a liveness report on device `fqdn`. Nothing changes when
/// the device is unknown.
pub open spec fn device_reported(s: Seq<DeviceView>, fqdn: Seq<char>, up: bool) -> Seq<
    DeviceView,
> {
    if has_device(s, fqdn) {
        let i = device_pos(s, fqdn);
        s.update(i, DeviceView { up: Some(up), ..s[i] })
    } else {
        s
    }
}

/// The fully-qualified name of the device at the other end of the cable.
pub open spec fn peer_fqdn(inv: InventoryView, i: InterfaceRecord) -> Option<Seq<char>> {
    match peer_device(inv, i) {
        Some(d) => Some(record_fqdn(d)),
        None => None,
    }
}

/// The names of the devices that these interfaces are cabled to.
pub open spec fn neighbors_among(inv: InventoryView, ifs: Seq<InterfaceRecord>) -> Set<
    Seq<char>,
> {
    Set::new(
        |n: Seq<char>|
            exists|j: int| 0 <= j < ifs.len() && peer_fqdn(inv, #[trigger] ifs[j]) == Some(n),
    )
}

/// The names of the devices that the device with that identifier is cabled
/// to.
pub open spec fn neighbor_set(inv: InventoryView, device_id: i32) -> Set<Seq<char>> {
    neighbors_among(inv, interfaces_of(inv, device_id))
}

/// The event, if any, that a liveness report `up` on device `fqdn` gives
/// rise to when `stored` is the liveness held before: one exactly when the
/// liveness changes and the inventory knows the device.
pub open spec fn ping_event(
    inv: InventoryView,
    fqdn: Seq<char>,
    stored: Option<bool>,
    up: bool,
) -> Option<EventView> {
    if changes_liveness(stored, Some(up)) && device_by_fqdn(inv, fqdn) is Some {
        Some(
            EventView::PingChange {
                fqdn,
                neighbors: neighbor_set(inv, device_by_fqdn(inv, fqdn)->0.id),
                old_up: stored->0,
                new_up: up,
            },
        )
    } else {
        None
    }
}

/// The interface after a report on it.
pub open spec fn interface_after_report(i: InterfaceView, r: InterfaceReport) -> InterfaceView {
    InterfaceView {
        in_octets: merged(i.in_octets, r.in_octets),
        out_octets: merged(i.out_octets, r.out_octets),
        in_packets: merged(i.in_packets, r.in_packets),
        out_packets: merged(i.out_packets, r.out_packets),
        in_errors: merged(i.in_errors, r.in_errors),
        out_errors: merged(i.out_errors, r.out_errors),
        up: merged(i.up, r.up),
        speed: merged(i.speed, r.speed),
        ..i
    }
}

/// The device after a report on one of its interfaces. Nothing changes when
/// the device does not hold the interface.
pub open spec fn device_after_report(d: DeviceView, r: InterfaceReport) -> DeviceView {
    if has_interface(d, r.if_index) {
        let j = interface_pos(d, r.if_index);
        DeviceView {
            interfaces: d.interfaces.update(j, interface_after_report(d.interfaces[j], r)),
            ..d
        }
    } else {
        d
    }
}

/// The device after a sequence of reports, applied in order.
pub open spec fn device_after_reports(d: DeviceView, rs: Seq<InterfaceReport>) -> DeviceView
    decreases rs.len(),
{
    if rs.len() == 0 {
        d
    } else {
        device_after_report(device_after_reports(d, rs.drop_last()), rs.last())
    }
}

/// The two ends of the link on interface `if_index` of device `fqdn`, as
/// devices: the local one and the remote one. `None` when the inventory does
/// not know the device, the interface, its peer or the peer's device.
pub open spec fn link_ends(inv: InventoryView, fqdn: Seq<char>, if_index: i32) -> Option<
    (DeviceRecord, DeviceRecord),
> {
    match device_by_fqdn(inv, fqdn) {
        Some(local) => match interface_by_index(inv, local.id, if_index) {
            Some(local_interface) => match peer_device(inv, local_interface) {
                Some(remote) => Some((local, remote)),
                None => None,
            },
            None => None,
        },
        None => None,
    }
}

/// The name of the device at the other end of that link.
pub open spec fn link_neighbor(inv: InventoryView, fqdn: Seq<char>, if_index: i32) -> Option<
    Seq<char>,
> {
    match link_ends(inv, fqdn, if_index) {
        Some(ends) => Some(record_fqdn(ends.1)),
        None => None,
    }
}

/// For each of `candidates` whose peer belongs to the device `local_id`,
/// that peer, in order.
pub open spec fn links_back(
    inv: InventoryView,
    candidates: Seq<InterfaceRecord>,
    local_id: i32,
) -> Seq<InterfaceRecord>
    decreases candidates.len(),
{
    if candidates.len() == 0 {
        Seq::empty()
    } else {
        let head = links_back(inv, candidates.drop_last(), local_id);
        match peer_interface(inv, candidates.last()) {
            Some(p) => if p.device_id == local_id {
                head.push(p)
            } else {
                head
            },
            None => head,
        }
    }
}

/// The local interfaces that are cabled to the device at the other end of
/// the link on interface `if_index` of device `fqdn`: the local ends of
/// every cable between the two devices.
pub open spec fn link_interfaces(inv: InventoryView, fqdn: Seq<char>, if_index: i32) -> Seq<
    InterfaceRecord,
> {
    match link_ends(inv, fqdn, if_index) {
        Some(ends) => links_back(inv, interfaces_of(inv, ends.1.id), ends.0.id),
        None => Seq::empty(),
    }
}

/// The liveness of each of `links` that the device holds, by the name under
/// which the device holds it. The interface `if_index` counts with the
/// liveness `up`, every other one with what the device holds of it. Where
/// two of them share a name, the later one is told.
pub open spec fn link_status_map(
    links: Seq<InterfaceRecord>,
    d: DeviceView,
    if_index: i32,
    up: Option<bool>,
) -> Map<Seq<char>, LinkStatus>
    decreases links.len(),
{
    if links.len() == 0 {
        Map::empty()
    } else {
        let head = link_status_map(links.drop_last(), d, if_index, up);
        let index = links.last().index;
        if has_interface(d, index) {
            let held = d.interfaces[interface_pos(d, index)];
            head.insert(
                held.name,
                link_status(
                    if index == if_index {
                        up
                    } else {
                        held.up
                    },
                ),
            )
        } else {
            head
        }
    }
}

/// The event, if any, that report `r` gives rise to on device `d`, where `d`
/// is the device as it stands before the report: one exactly when the device
/// holds the interface and the report changes its liveness.
pub open spec fn interface_event(inv: InventoryView, d: DeviceView, r: InterfaceReport) -> Option<
    EventView,
> {
    if has_interface(d, r.if_index) && changes_liveness(
        d.interfaces[interface_pos(d, r.if_index)].up,
        r.up,
    ) {
        let held = d.interfaces[interface_pos(d, r.if_index)];
        Some(
            EventView::InterfaceChange {
                fqdn: d.fqdn,
                interface_name: held.name,
                neighbor_fqdn: link_neighbor(inv, d.fqdn, r.if_index),
                link_statuses: link_status_map(
                    link_interfaces(inv, d.fqdn, r.if_index),
                    d,
                    r.if_index,
                    r.up,
                ),
                old_up: held.up->0,
                new_up: r.up->0,
            },
        )
    } else {
        None
    }
}

/// The events that a sequence of reports gives rise to on device `d`, in the
/// order of the reports: each report meets the device as the reports before
/// it have left it.
pub open spec fn report_events(inv: InventoryView, d: DeviceView, rs: Seq<InterfaceReport>) -> Seq<
    EventView,
>
    decreases rs.len(),
{
    if rs.len() == 0 {
        Seq::empty()
    } else {
        let head = report_events(inv, d, rs.drop_last());
        match interface_event(inv, device_after_reports(d, rs.drop_last()), rs.last()) {
            Some(e) => head.push(e),
            None => head,
        }
    }
}

/// The store after the interface reports `rs` on device `fqdn`. Nothing
/// changes when the device is unknown.
pub open spec fn interfaces_reported(
    s: Seq<DeviceView>,
    fqdn: Seq<char>,
    rs: Seq<InterfaceReport>,
) -> Seq<DeviceView> {
    if has_device(s, fqdn) {
        let i = device_pos(s, fqdn);
        s.update(i, device_after_reports(s[i], rs))
    } else {
        s
    }
}

/// The event of a liveness report `up` on device `fqdn` of store `s`: none
/// when the store does not hold the device.
pub open spec fn device_report_event(
    s: Seq<DeviceView>,
    inv: InventoryView,
    fqdn: Seq<char>,
    up: bool,
) -> Option<EventView> {
    if has_device(s, fqdn) {
        ping_event(inv, fqdn, s[device_pos(s, fqdn)].up, up)
    } else {
        None
    }
}

/// The events of the interface reports `rs` on device `fqdn` of store `s`:
/// none when the store does not hold the device.
pub open spec fn interface_report_events(
    s: Seq<DeviceView>,
    inv: InventoryView,
    fqdn: Seq<char>,
    rs: Seq<InterfaceReport>,
) -> Seq<EventView> {
    if has_device(s, fqdn) {
        report_events(inv, s[device_pos(s, fqdn)], rs)
    } else {
        Seq::empty()
    }
}

/// What an optional event stands for.
pub open spec fn optional_event(o: Option<Event>) -> Option<EventView> {
    match o {
        Some(e) => Some(e@),
        None => None,
    }
}

/// Views of a vector of borrowed inventory interfaces, in order.
pub open spec fn borrowed_interfaces(v: Seq<&Interface>) -> Seq<InterfaceRecord> {
    v.map_values(|i: &Interface| (*i)@)
}

/// The neighbors among a sequence of interfaces extended by one.
proof fn lemma_neighbors_among_push(
    inv: InventoryView,
    ifs: Seq<InterfaceRecord>,
    x: InterfaceRecord,
)
    ensures
        neighbors_among(inv, ifs.push(x)) == match peer_fqdn(inv, x) {
            Some(n) => neighbors_among(inv, ifs).insert(n),
            None => neighbors_among(inv, ifs),
        },
{
    let a = neighbors_among(inv, ifs.push(x));
    let b = match peer_fqdn(inv, x) {
        Some(n) => neighbors_among(inv, ifs).insert(n),
        None => neighbors_among(inv, ifs),
    };
    let px = ifs.push(x);
    assert forall|n: Seq<char>| a.contains(n) implies b.contains(n) by {
        let j = choose|j: int| 0 <= j < px.len() && peer_fqdn(inv, #[trigger] px[j]) == Some(n);
        if j < ifs.len() {
            assert(peer_fqdn(inv, ifs[j]) == Some(n));
        }
    }
    assert forall|n: Seq<char>| b.contains(n) implies a.contains(n) by {
        if neighbors_among(inv, ifs).contains(n) {
            let j = choose|j: int|
                0 <= j < ifs.len() && peer_fqdn(inv, #[trigger] ifs[j]) == Some(n);
            assert(peer_fqdn(inv, px[j]) == Some(n));
        } else {
            assert(peer_fqdn(inv, px[ifs.len() as int]) == Some(n));
        }
    }
    assert(a =~= b);
}

/// The names of the devices that `device` is cabled to.
pub fn neighbors_of(inventory: &Inventory, device: &Device) -> (r: StringSet)
    ensures
        r@ == neighbor_set(inventory@, device.id),
{
    let ifs = inventory.interfaces_of(device);
    let ghost all = borrowed_interfaces(ifs@);
    let mut neighbors = StringSet::new();
    let mut k: usize = 0;
    proof {
        assert(all.subrange(0, 0) =~= Seq::<InterfaceRecord>::empty());
        assert(neighbors@ =~= neighbors_among(inventory@, all.subrange(0, 0)));
    }
    while k < ifs.len()
        invariant
            k <= ifs.len(),
            all == borrowed_interfaces(ifs@),
            neighbors@ == neighbors_among(inventory@, all.subrange(0, k as int)),
        decreases ifs.len() - k,
    {
        proof {
            assert(all.subrange(0, k + 1) =~= all.subrange(0, k as int).push(all[k as int]));
            lemma_neighbors_among_push(inventory@, all.subrange(0, k as int), all[k as int]);
        }
        match inventory.peer_device(ifs[k]) {
            Some(d) => {
                neighbors.insert(d.fqdn());
            },
            None => {},
        }
        k += 1;
    }
    proof {
        assert(all.subrange(0, k as int) =~= all);
    }
    neighbors
}

/// The name of the device at the other end of the link on interface
/// `if_index` of device `fqdn`, and the local ends of every cable between the
/// two devices.
pub fn link_context<'a>(inventory: &'a Inventory, fqdn: &String, if_index: i32) -> (r: (
    Option<String>,
    Vec<&'a Interface>,
))
    ensures
        optional_text(r.0) == link_neighbor(inventory@, fqdn@, if_index),
        borrowed_interfaces(r.1@) == link_interfaces(inventory@, fqdn@, if_index),
{
    let mut links: Vec<&Interface> = Vec::new();
    proof {
        assert(borrowed_interfaces(links@) =~= Seq::<InterfaceRecord>::empty());
    }
    let local = match inventory.device_by_fqdn(fqdn) {
        Some(d) => d,
        None => {
            return (None, links);
        },
    };
    let local_interface = match inventory.interface_by_index(local, if_index) {
        Some(i) => i,
        None => {
            return (None, links);
        },
    };
    let remote = match inventory.peer_device(local_interface) {
        Some(d) => d,
        None => {
            return (None, links);
        },
    };
    let candidates = inventory.interfaces_of(remote);
    let ghost all = borrowed_interfaces(candidates@);
    let mut k: usize = 0;
    proof {
        assert(all.subrange(0, 0) =~= Seq::<InterfaceRecord>::empty());
    }
    while k < candidates.len()
        invariant
            k <= candidates.len(),
            all == borrowed_interfaces(candidates@),
            borrowed_interfaces(links@) == links_back(
                inventory@,
                all.subrange(0, k as int),
                local.id,
            ),
        decreases candidates.len() - k,
    {
        proof {
            assert(all.subrange(0, k + 1).drop_last() =~= all.subrange(0, k as int));
            assert(all.subrange(0, k + 1).last() == all[k as int]);
        }
        let ghost prev = borrowed_interfaces(links@);
        match inventory.peer_interface(candidates[k]) {
            Some(p) => {
                if p.device_id == local.id {
                    links.push(p);
                    proof {
                        assert(borrowed_interfaces(links@) =~= prev.push((*p)@));
                    }
                }
            },
            None => {},
        }
        k += 1;
    }
    proof {
        assert(all.subrange(0, k as int) =~= all);
    }
    (Some(remote.fqdn()), links)
}

/// The liveness of each of `links` that `device` holds, by interface name,
/// where interface `if_index` counts with the liveness `up`.
pub fn link_statuses_of(
    links: &Vec<&Interface>,
    device: &DeviceMetrics,
    if_index: i32,
    up: Option<bool>,
) -> (m: StringMap<LinkStatus>)
    requires
        device_wf(device@),
    ensures
        m@ == link_status_map(borrowed_interfaces(links@), device@, if_index, up),
{
    let ghost all = borrowed_interfaces(links@);
    let mut statuses: StringMap<LinkStatus> = StringMap::new();
    let mut k: usize = 0;
    proof {
        assert(all.subrange(0, 0) =~= Seq::<InterfaceRecord>::empty());
    }
    while k < links.len()
        invariant
            k <= links.len(),
            all == borrowed_interfaces(links@),
            device_wf(device@),
            statuses@ == link_status_map(all.subrange(0, k as int), device@, if_index, up),
        decreases links.len() - k,
    {
        proof {
            assert(all.subrange(0, k + 1).drop_last() =~= all.subrange(0, k as int));
            assert(all.subrange(0, k + 1).last() == all[k as int]);
        }
        let index = links[k].index;
        match device.find_interface(index) {
            Some(j) => {
                let held = &device.interfaces[j];
                let shown = if index == if_index {
                    up
                } else {
                    held.up
                };
                statuses.insert(held.name.clone(), LinkStatus::from_up(shown));
            },
            None => {},
        }
        k += 1;
    }
    proof {
        assert(all.subrange(0, k as int) =~= all);
    }
    statuses
}

/// Takes one interface report into the device: the counters, the speed and
/// the liveness that the report carries replace what the device holds, and
/// what it does not carry stays. Returns the event that tells of a change of
/// liveness, built from the device as it stood before the report.
pub fn apply_interface_report(
    device: &mut DeviceMetrics,
    inventory: &Inventory,
    report: &InterfaceReport,
) -> (event: Option<Event>)
    requires
        device_wf(old(device)@),
    ensures
        device_wf(final(device)@),
        final(device)@ == device_after_report(old(device)@, *report),
        optional_event(event) == interface_event(inventory@, old(device)@, *report),
        event is Some <==> has_interface(old(device)@, report.if_index) && changes_liveness(
            old(device)@.interfaces[interface_pos(old(device)@, report.if_index)].up,
            report.up,
        ),
{
    let ghost before = device@;
    let j = match device.find_interface(report.if_index) {
        Some(j) => j,
        None => {
            return None;
        },
    };
    let mut event: Option<Event> = None;
    match (device.interfaces[j].up, report.up) {
        (Some(old_state), Some(new_state)) => {
            if old_state != new_state {
                let (neighbor, links) = link_context(inventory, &device.fqdn, report.if_index);
                let statuses = link_statuses_of(&links, device, report.if_index, report.up);
                event =
                Some(
                    Event::interface_change_event(
                        &device.fqdn,
                        &device.interfaces[j].name,
                        neighbor,
                        statuses,
                        old_state,
                        new_state,
                    ),
                );
            }
        },
        _ => {},
    }
    if report.in_octets.is_some() {
        device.interfaces[j].in_octets = report.in_octets;
    }
    if report.out_octets.is_some() {
        device.interfaces[j].out_octets = report.out_octets;
    }
    if report.in_packets.is_some() {
        device.interfaces[j].in_packets = report.in_packets;
    }
    if report.out_packets.is_some() {
        device.interfaces[j].out_packets = report.out_packets;
    }
    if report.in_errors.is_some() {
        device.interfaces[j].in_errors = report.in_errors;
    }
    if report.out_errors.is_some() {
        device.interfaces[j].out_errors = report.out_errors;
    }
    if report.up.is_some() {
        device.interfaces[j].up = report.up;
    }
    if report.speed.is_some() {
        device.interfaces[j].speed = report.speed;
    }
    proof {
        let target = device_after_report(before, *report);
        assert(device@.interfaces =~= target.interfaces);
        lemma_update_same_key(
            before.interfaces,
            j as int,
            target.interfaces[j as int],
            |x: InterfaceView| x.if_index,
        );
    }
    event
}

/// Takes a sequence of interface reports into the device, in order, and
/// returns the events they give rise to, in the same order.
pub fn apply_interface_reports(
    device: &mut DeviceMetrics,
    inventory: &Inventory,
    reports: &Vec<InterfaceReport>,
) -> (events: Vec<Event>)
    requires
        device_wf(old(device)@),
    ensures
        device_wf(final(device)@),
        final(device)@ == device_after_reports(old(device)@, reports@),
        event_views(events@) == report_events(inventory@, old(device)@, reports@),
{
    let ghost before = device@;
    let mut events: Vec<Event> = Vec::new();
    let mut k: usize = 0;
    proof {
        assert(reports@.subrange(0, 0) =~= Seq::<InterfaceReport>::empty());
        assert(event_views(events@) =~= Seq::<EventView>::empty());
    }
    while k < reports.len()
        invariant
            k <= reports.len(),
            device_wf(device@),
            device@ == device_after_reports(before, reports@.subrange(0, k as int)),
            event_views(events@) == report_events(
                inventory@,
                before,
                reports@.subrange(0, k as int),
            ),
        decreases reports.len() - k,
    {
        proof {
            assert(reports@.subrange(0, k + 1).drop_last() =~= reports@.subrange(0, k as int));
            assert(reports@.subrange(0, k + 1).last() == reports@[k as int]);
        }
        let ghost prev = event_views(events@);
        match apply_interface_report(device, inventory, &reports[k]) {
            Some(e) => {
                events.push(e);
                proof {
                    assert(event_views(events@) =~= prev.push(e@));
                }
            },
            None => {},
        }
        k += 1;
    }
    proof {
        assert(reports@.subrange(0, k as int) =~= reports@);
    }
    events
}

/// Whether one of the reports carries a liveness for an interface that the
/// device holds. Only such reports can give rise to an event.
pub open spec fn carries_liveness(d: DeviceView, rs: Seq<InterfaceReport>) -> bool {
    exists|k: int|
        0 <= k < rs.len() && (#[trigger] rs[k]).up is Some && has_interface(d, rs[k].if_index)
}

/// Interface reports bring no interface in or out of a device.
pub proof fn lemma_reports_keep_interfaces(d: DeviceView, rs: Seq<InterfaceReport>)
    ensures
        device_after_reports(d, rs).fqdn == d.fqdn,
        device_after_reports(d, rs).expiry == d.expiry,
        device_after_reports(d, rs).up == d.up,
        interface_keys(device_after_reports(d, rs).interfaces)
            == interface_keys(d.interfaces),
    decreases rs.len(),
{
    if rs.len() > 0 {
        lemma_reports_keep_interfaces(d, rs.drop_last());
        let mid = device_after_reports(d, rs.drop_last());
        let r = rs.last();
        if has_interface(mid, r.if_index) {
            let j = interface_pos(mid, r.if_index);
            assert(0 <= j < interface_keys(mid.interfaces).len());
            assert(interface_keys(mid.interfaces)[j] == r.if_index);
            assert(interface_keys(device_after_reports(d, rs).interfaces)
                =~= interface_keys(mid.interfaces));
        }
    }
}

/// Reports that carry no liveness for an interface of the device give rise
/// to no event, whatever the inventory holds.
pub proof fn lemma_silent_reports(inv: InventoryView, d: DeviceView, rs: Seq<InterfaceReport>)
    requires
        !carries_liveness(d, rs),
    ensures
        report_events(inv, d, rs) == Seq::<EventView>::empty(),
    decreases rs.len(),
{
    if rs.len() > 0 {
        let head = rs.drop_last();
        assert forall|k: int| 0 <= k < head.len() implies !((#[trigger] head[k]).up is Some
            && has_interface(d, head[k].if_index)) by {
            assert(head[k] == rs[k]);
        }
        lemma_silent_reports(inv, d, head);
        lemma_reports_keep_interfaces(d, head);
        assert(rs[rs.len() - 1] == rs.last());
    }
}

/// Decides `carries_liveness`.
pub fn reports_carry_liveness(device: &DeviceMetrics, reports: &Vec<InterfaceReport>) -> (b: bool)
    requires
        device_wf(device@),
    ensures
        b == carries_liveness(device@, reports@),
{
    let mut k: usize = 0;
    while k < reports.len()
        invariant
            k <= reports.len(),
            device_wf(device@),
            forall|j: int|
                0 <= j < k ==> !((#[trigger] reports@[j]).up is Some && has_interface(
                    device@,
                    reports@[j].if_index,
                )),
        decreases reports.len() - k,
    {
        if reports[k].up.is_some() && device.find_interface(reports[k].if_index).is_some() {
            return true;
        }
        k += 1;
    }
    false
}

} // verus!
