//! Laws of the store: what holds of every store, every time and every
//! report.

use vstd::prelude::*;
use crate::clock::{deadline, expired, METRIC_TTL};
use crate::ingest::{
    device_after_report, device_after_reports, interface_after_report, interface_event,
    lemma_reports_keep_interfaces, merged,
};
use crate::projection::{
    counter_direction, counter_metric, counter_name, counter_value, device_metrics,
    interface_metrics, interfaces_metrics, speed_metric, store_metrics, Counter, MetricView,
};
use crate::inventory::{
    device_by_fqdn, interfaces_of, lemma_first_position, record_fqdn, DeviceRecord,
    InterfaceRecord, InventoryView,
};
use crate::metrics::{
    device_keys, device_pos, device_wf, has_device, has_interface, interface_keys,
    interface_pos, store_wf, DeviceView, InterfaceView,
};
use crate::reports::InterfaceReport;
use crate::scheduler::{
    advanced, candidates_refreshed, device_refreshed_from, full_refresh, interfaces_refreshed,
    is_candidate, store_after_tick, SchedulerView, REFRESH_PERIOD,
};
use crate::seq_util::{
    lemma_distinct_push, lemma_index_of_key, lemma_key_position, lemma_push_other_key,
    lemma_update_same_key,
};
use crate::store::{
    device_with_refreshed_interface, fresh_device, lemma_pruned_wf, live_devices, pruned,
    pruned_device, refreshed_device, refreshed_interface,
};

verus! {

/// Eviction coherence. After a prune the store is well formed, so every
/// interface it holds sits in a device it holds. Nothing it holds is
/// expired. Every device it holds is a device held before, with the name,
/// expiry and liveness it had, and every interface of that device is one the
/// device held before. And nothing was evicted without cause: a device that
/// was not expired is still held, with each of its interfaces that was not
/// expired.
pub proof fn lemma_eviction_coherence(s: Seq<DeviceView>, now: u64)
    requires
        store_wf(s),
    ensures
        store_wf(pruned(s, now)),
        forall|i: int|
            0 <= i < pruned(s, now).len() ==> ({
                let d = #[trigger] pruned(s, now)[i];
                &&& !expired(d.expiry, now)
                &&& has_device(s, d.fqdn)
                &&& d.expiry == s[device_pos(s, d.fqdn)].expiry
                &&& d.up == s[device_pos(s, d.fqdn)].up
                &&& forall|j: int|
                    0 <= j < d.interfaces.len() ==> !expired(
                        (#[trigger] d.interfaces[j]).expiry,
                        now,
                    ) && s[device_pos(s, d.fqdn)].interfaces.contains(d.interfaces[j])
            }),
        forall|a: int|
            0 <= a < s.len() && !expired((#[trigger] s[a]).expiry, now) ==> ({
                &&& has_device(pruned(s, now), s[a].fqdn)
                &&& forall|b: int|
                    0 <= b < s[a].interfaces.len() && !expired(
                        (#[trigger] s[a].interfaces[b]).expiry,
                        now,
                    ) ==> pruned(s, now)[device_pos(pruned(s, now), s[a].fqdn)].interfaces.contains(
                        s[a].interfaces[b],
                    )
            }),
{
    let keep = |d: DeviceView| !expired(d.expiry, now);
    let keep_interface = |i: InterfaceView| !expired(i.expiry, now);
    let name = |d: DeviceView| d.fqdn;
    let live = live_devices(s, now);
    let out = pruned(s, now);
    lemma_pruned_wf(s, now);
    assert forall|i: int| 0 <= i < out.len() implies {
        let d = #[trigger] out[i];
        &&& !expired(d.expiry, now)
        &&& has_device(s, d.fqdn)
        &&& d.expiry == s[device_pos(s, d.fqdn)].expiry
        &&& d.up == s[device_pos(s, d.fqdn)].up
        &&& forall|j: int|
            0 <= j < d.interfaces.len() ==> !expired((#[trigger] d.interfaces[j]).expiry, now)
                && s[device_pos(s, d.fqdn)].interfaces.contains(d.interfaces[j])
    } by {
        let d = out[i];
        s.lemma_filter_pred(keep, i);
        assert(live.contains(live[i]));
        s.lemma_filter_contains_rev(keep, live[i]);
        let a = choose|a: int| 0 <= a < s.len() && s[a] == live[i];
        lemma_index_of_key(s, a, name);
        assert(d == pruned_device(s[a], now));
        assert forall|j: int| 0 <= j < d.interfaces.len() implies !expired(
            (#[trigger] d.interfaces[j]).expiry,
            now,
        ) && s[a].interfaces.contains(d.interfaces[j]) by {
            s[a].interfaces.lemma_filter_pred(keep_interface, j);
            assert(d.interfaces.contains(d.interfaces[j]));
            s[a].interfaces.lemma_filter_contains_rev(keep_interface, d.interfaces[j]);
        }
    }
    assert forall|a: int| 0 <= a < s.len() && !expired((#[trigger] s[a]).expiry, now) implies {
        &&& has_device(out, s[a].fqdn)
        &&& forall|b: int|
            0 <= b < s[a].interfaces.len() && !expired(
                (#[trigger] s[a].interfaces[b]).expiry,
                now,
            ) ==> out[device_pos(out, s[a].fqdn)].interfaces.contains(s[a].interfaces[b])
    } by {
        s.lemma_filter_contains(keep, a);
        let i = choose|i: int| 0 <= i < live.len() && live[i] == s[a];
        assert(out[i] == pruned_device(s[a], now));
        assert(device_keys(out)[i] == s[a].fqdn);
        lemma_index_of_key(out, i, name);
        assert forall|b: int|
            0 <= b < s[a].interfaces.len() && !expired(
                (#[trigger] s[a].interfaces[b]).expiry,
                now,
            ) implies out[i].interfaces.contains(s[a].interfaces[b]) by {
            s[a].interfaces.lemma_filter_contains(keep_interface, b);
        }
    }
}

/// Refresh monotonicity. Refreshing a device that the store holds leaves its
/// liveness and its interfaces as they were, leaves every other device as it
/// was, and sets its expiry to the deadline that follows from `now`. The
/// expiry does not decrease unless the clock has stepped back behind the
/// device's last refresh.
pub proof fn lemma_refresh_monotone(s: Seq<DeviceView>, fqdn: Seq<char>, now: u64)
    requires
        store_wf(s),
        has_device(s, fqdn),
    ensures
        refreshed_device(s, fqdn, now).len() == s.len(),
        has_device(refreshed_device(s, fqdn, now), fqdn),
        device_pos(refreshed_device(s, fqdn, now), fqdn) == device_pos(s, fqdn),
        refreshed_device(s, fqdn, now)[device_pos(s, fqdn)].up == s[device_pos(s, fqdn)].up,
        refreshed_device(s, fqdn, now)[device_pos(s, fqdn)].interfaces == s[device_pos(
            s,
            fqdn,
        )].interfaces,
        refreshed_device(s, fqdn, now)[device_pos(s, fqdn)].expiry == deadline(now, METRIC_TTL),
        s[device_pos(s, fqdn)].expiry <= deadline(now, METRIC_TTL) ==> refreshed_device(
            s,
            fqdn,
            now,
        )[device_pos(s, fqdn)].expiry >= s[device_pos(s, fqdn)].expiry,
        forall|j: int|
            0 <= j < s.len() && j != device_pos(s, fqdn) ==> #[trigger] refreshed_device(
                s,
                fqdn,
                now,
            )[j] == s[j],
{
    let name = |d: DeviceView| d.fqdn;
    let i = device_pos(s, fqdn);
    lemma_key_position(s, fqdn, name);
    let t = refreshed_device(s, fqdn, now);
    lemma_update_same_key(s, i, t[i], name);
}

/// Refreshing a device twice, the second time no earlier than the first,
/// never decreases its expiry.
pub proof fn lemma_refresh_twice(s: Seq<DeviceView>, fqdn: Seq<char>, first: u64, second: u64)
    requires
        store_wf(s),
        first <= second,
    ensures
        ({
            let once = refreshed_device(s, fqdn, first);
            let twice = refreshed_device(once, fqdn, second);
            &&& has_device(once, fqdn)
            &&& has_device(twice, fqdn)
            &&& twice[device_pos(twice, fqdn)].expiry >= once[device_pos(once, fqdn)].expiry
            &&& twice[device_pos(twice, fqdn)].up == once[device_pos(once, fqdn)].up
            &&& twice[device_pos(twice, fqdn)].interfaces == once[device_pos(
                once,
                fqdn,
            )].interfaces
        }),
{
    let name = |d: DeviceView| d.fqdn;
    let once = refreshed_device(s, fqdn, first);
    if has_device(s, fqdn) {
        lemma_refresh_monotone(s, fqdn, first);
        lemma_update_same_key(s, device_pos(s, fqdn), once[device_pos(s, fqdn)], name);
    } else {
        lemma_distinct_push(s, fresh_device(fqdn, deadline(first, METRIC_TTL)), name);
        assert(device_keys(once)[s.len() as int] == fqdn);
    }
    assert(device_keys(once).no_duplicates());
    lemma_key_position(once, fqdn, name);
    let i = device_pos(once, fqdn);
    let twice = refreshed_device(once, fqdn, second);
    lemma_update_same_key(once, i, twice[i], name);
}

/// Event trigger law. A report on an interface gives rise to an event
/// exactly when the device holds the interface, the liveness held before the
/// report was known, and the liveness held after it differs.
pub proof fn lemma_event_trigger(inv: InventoryView, d: DeviceView, r: InterfaceReport)
    requires
        device_wf(d),
    ensures
        interface_event(inv, d, r) is Some <==> ({
            &&& has_interface(d, r.if_index)
            &&& d.interfaces[interface_pos(d, r.if_index)].up is Some
            &&& device_after_report(d, r).interfaces[interface_pos(d, r.if_index)].up
                != d.interfaces[interface_pos(d, r.if_index)].up
        }),
        interface_event(inv, d, r) is Some ==> interface_event(inv, d, r)->0
            is InterfaceChange,
{
    if has_interface(d, r.if_index) {
        lemma_key_position(d.interfaces, r.if_index, |x: InterfaceView| x.if_index);
    }
}

/// What a report carries of a counter.
pub open spec fn report_counter(r: InterfaceReport, c: Counter) -> Option<u64> {
    match c {
        Counter::InOctets => r.in_octets,
        Counter::OutOctets => r.out_octets,
        Counter::InPackets => r.in_packets,
        Counter::OutPackets => r.out_packets,
        Counter::InErrors => r.in_errors,
        Counter::OutErrors => r.out_errors,
    }
}

/// The value of counter `c` in the most recent of the reports on interface
/// `if_index` that carry it, or `None` when none of them does.
pub open spec fn latest_counter(rs: Seq<InterfaceReport>, if_index: i32, c: Counter) -> Option<u64>
    decreases rs.len(),
{
    if rs.len() == 0 {
        None
    } else if rs.last().if_index == if_index && report_counter(rs.last(), c) is Some {
        report_counter(rs.last(), c)
    } else {
        latest_counter(rs.drop_last(), if_index, c)
    }
}

/// The speed in the most recent of the reports on interface `if_index` that
/// carry one.
pub open spec fn latest_speed(rs: Seq<InterfaceReport>, if_index: i32) -> Option<i32>
    decreases rs.len(),
{
    if rs.len() == 0 {
        None
    } else if rs.last().if_index == if_index && rs.last().speed is Some {
        rs.last().speed
    } else {
        latest_speed(rs.drop_last(), if_index)
    }
}

/// The liveness in the most recent of the reports on interface `if_index`
/// that carry one.
pub open spec fn latest_up(rs: Seq<InterfaceReport>, if_index: i32) -> Option<bool>
    decreases rs.len(),
{
    if rs.len() == 0 {
        None
    } else if rs.last().if_index == if_index && rs.last().up is Some {
        rs.last().up
    } else {
        latest_up(rs.drop_last(), if_index)
    }
}

/// The interface after those of the reports that are on it, in order.
pub open spec fn interface_after_reports(
    i: InterfaceView,
    rs: Seq<InterfaceReport>,
) -> InterfaceView
    decreases rs.len(),
{
    if rs.len() == 0 {
        i
    } else {
        let mid = interface_after_reports(i, rs.drop_last());
        if rs.last().if_index == i.if_index {
            interface_after_report(mid, rs.last())
        } else {
            mid
        }
    }
}

/// Reports on a device reach each interface on its own: an interface that
/// the device holds stays where it is, and ends as the reports on it leave
/// it, whatever is reported on the others.
pub proof fn lemma_reports_per_interface(d: DeviceView, rs: Seq<InterfaceReport>, if_index: i32)
    requires
        device_wf(d),
        has_interface(d, if_index),
    ensures
        has_interface(device_after_reports(d, rs), if_index),
        interface_pos(device_after_reports(d, rs), if_index) == interface_pos(d, if_index),
        0 <= interface_pos(d, if_index) < d.interfaces.len(),
        d.interfaces[interface_pos(d, if_index)].if_index == if_index,
        device_after_reports(d, rs).interfaces[interface_pos(d, if_index)]
            == interface_after_reports(d.interfaces[interface_pos(d, if_index)], rs),
    decreases rs.len(),
{
    let key = |x: InterfaceView| x.if_index;
    lemma_key_position(d.interfaces, if_index, key);
    lemma_reports_keep_interfaces(d, rs);
    if rs.len() > 0 {
        let mid = device_after_reports(d, rs.drop_last());
        let r = rs.last();
        lemma_reports_per_interface(d, rs.drop_last(), if_index);
        lemma_reports_keep_interfaces(d, rs.drop_last());
        let pos = interface_pos(d, if_index);
        assert(interface_after_reports(d.interfaces[pos], rs.drop_last()).if_index == if_index) by {
            assert(interface_keys(mid.interfaces)[pos] == if_index);
        }
        if has_interface(mid, r.if_index) {
            lemma_key_position(mid.interfaces, r.if_index, key);
            let j = interface_pos(mid, r.if_index);
            if r.if_index != if_index {
                assert(j != pos);
            }
        }
    }
}

/// Across the reports on one interface, each counter, the speed and the
/// liveness end as the most recent report that carried them left them, and
/// as they were where no report carried them.
pub proof fn lemma_latest_wins(i: InterfaceView, rs: Seq<InterfaceReport>, c: Counter)
    ensures
        interface_after_reports(i, rs).if_index == i.if_index,
        counter_value(interface_after_reports(i, rs), c) == merged(
            counter_value(i, c),
            latest_counter(rs, i.if_index, c),
        ),
        interface_after_reports(i, rs).speed == merged(i.speed, latest_speed(rs, i.if_index)),
        interface_after_reports(i, rs).up == merged(i.up, latest_up(rs, i.if_index)),
        interface_after_reports(i, rs).name == i.name,
        interface_after_reports(i, rs).interface_type == i.interface_type,
        interface_after_reports(i, rs).neighbors == i.neighbors,
        interface_after_reports(i, rs).speed_override == i.speed_override,
        interface_after_reports(i, rs).expiry == i.expiry,
    decreases rs.len(),
{
    if rs.len() > 0 {
        lemma_latest_wins(i, rs.drop_last(), c);
    }
}

/// Counter sparsity. After any sequence of reports on a device, each counter
/// of an interface that the device holds has the value of the most recent
/// report on that interface that carried it. Where no report carried it, it
/// is what it was before, so a counter that no report ever carried is still
/// unknown. The same holds of the speed and of the liveness.
pub proof fn lemma_counter_sparsity(
    d: DeviceView,
    rs: Seq<InterfaceReport>,
    if_index: i32,
    c: Counter,
)
    requires
        device_wf(d),
        has_interface(d, if_index),
    ensures
        has_interface(device_after_reports(d, rs), if_index),
        interface_pos(device_after_reports(d, rs), if_index) == interface_pos(d, if_index),
        counter_value(device_after_reports(d, rs).interfaces[interface_pos(d, if_index)], c)
            == merged(
            counter_value(d.interfaces[interface_pos(d, if_index)], c),
            latest_counter(rs, if_index, c),
        ),
        device_after_reports(d, rs).interfaces[interface_pos(d, if_index)].speed == merged(
            d.interfaces[interface_pos(d, if_index)].speed,
            latest_speed(rs, if_index),
        ),
        device_after_reports(d, rs).interfaces[interface_pos(d, if_index)].up == merged(
            d.interfaces[interface_pos(d, if_index)].up,
            latest_up(rs, if_index),
        ),
{
    lemma_reports_per_interface(d, rs, if_index);
    lemma_latest_wins(d.interfaces[interface_pos(d, if_index)], rs, c);
}

/// Reports taken in two batches leave a device as the same reports taken in
/// one.
pub proof fn lemma_reports_compose(
    d: DeviceView,
    first: Seq<InterfaceReport>,
    second: Seq<InterfaceReport>,
)
    ensures
        device_after_reports(device_after_reports(d, first), second) == device_after_reports(
            d,
            first + second,
        ),
    decreases second.len(),
{
    if second.len() == 0 {
        assert(first + second =~= first);
    } else {
        lemma_reports_compose(d, first, second.drop_last());
        assert((first + second).drop_last() =~= first + second.drop_last());
        assert((first + second).last() == second.last());
    }
}

/// Whether a metric is the projection of counter `c`: it has the counter's
/// name and the counter's direction.
pub open spec fn is_counter_metric(m: MetricView, c: Counter) -> bool {
    &&& m.name == counter_name(c)
    &&& m.labels.contains_key("direction"@)
    &&& m.labels["direction"@] == counter_direction(c)
}

/// Those of the metrics that are projections of counter `c`, in order.
pub open spec fn counter_metrics_of(ms: Seq<MetricView>, c: Counter) -> Seq<MetricView> {
    ms.filter(|m: MetricView| is_counter_metric(m, c))
}

/// For each of the interfaces whose counter `c` is known, the one metric
/// that projects it, in order.
pub open spec fn interfaces_counter_metrics(
    fqdn: Seq<char>,
    s: Seq<InterfaceView>,
    c: Counter,
) -> Seq<MetricView> {
    s.map_values(|i: InterfaceView| counter_metric(fqdn, i, c)).flatten()
}

/// For each interface of each device whose counter `c` is known, the one
/// metric that projects it, in order.
pub open spec fn store_counter_metrics(s: Seq<DeviceView>, c: Counter) -> Seq<MetricView> {
    s.map_values(|d: DeviceView| interfaces_counter_metrics(d.fqdn, d.interfaces, c)).flatten()
}

/// How many of the interfaces have a known counter `c`.
pub open spec fn known_among(s: Seq<InterfaceView>, c: Counter) -> nat
    decreases s.len(),
{
    if s.len() == 0 {
        0
    } else {
        known_among(s.drop_last(), c) + if counter_value(s.last(), c) is Some {
            1nat
        } else {
            0nat
        }
    }
}

/// How many interfaces of the store have a known counter `c`.
pub open spec fn known_in_store(s: Seq<DeviceView>, c: Counter) -> nat
    decreases s.len(),
{
    if s.len() == 0 {
        0
    } else {
        known_in_store(s.drop_last(), c) + known_among(s.last().interfaces, c)
    }
}

/// The metric names are four different words, and so are the two
/// directions.
proof fn lemma_names_differ()
    ensures
        "jaspy_interface_octets"@ != "jaspy_interface_packets"@,
        "jaspy_interface_octets"@ != "jaspy_interface_errors"@,
        "jaspy_interface_packets"@ != "jaspy_interface_errors"@,
        "jaspy_interface_speed"@ != "jaspy_interface_octets"@,
        "jaspy_interface_speed"@ != "jaspy_interface_packets"@,
        "jaspy_interface_speed"@ != "jaspy_interface_errors"@,
        "rx"@ != "tx"@,
{
    reveal_strlit("jaspy_interface_octets");
    reveal_strlit("jaspy_interface_packets");
    reveal_strlit("jaspy_interface_errors");
    reveal_strlit("jaspy_interface_speed");
    reveal_strlit("rx");
    reveal_strlit("tx");
    assert("jaspy_interface_octets"@.len() == 22);
    assert("jaspy_interface_packets"@.len() == 23);
    assert("jaspy_interface_errors"@.len() == 22);
    assert("jaspy_interface_speed"@.len() == 21);
    assert("jaspy_interface_octets"@[16] == 'o');
    assert("jaspy_interface_errors"@[16] == 'e');
    assert("rx"@[0] == 'r');
    assert("tx"@[0] == 't');
}

/// Choosing from at most one metric.
proof fn lemma_filter_small(ms: Seq<MetricView>, c: Counter)
    requires
        ms.len() <= 1,
    ensures
        counter_metrics_of(ms, c) == if ms.len() == 1 && is_counter_metric(ms[0], c) {
            ms
        } else {
            Seq::<MetricView>::empty()
        },
{
    let p = |m: MetricView| is_counter_metric(m, c);
    reveal(Seq::filter);
    if ms.len() == 1 {
        assert(ms.drop_last() =~= Seq::<MetricView>::empty());
        assert(ms.drop_last().filter(p) =~= Seq::<MetricView>::empty());
        assert(Seq::<MetricView>::empty().push(ms.last()) =~= ms);
    } else {
        assert(ms =~= Seq::<MetricView>::empty());
    }
}

/// Among the metrics of counter `other` of an interface, those of counter
/// `c` are all of them where the two counters are one, and none otherwise.
proof fn lemma_counter_piece(fqdn: Seq<char>, i: InterfaceView, other: Counter, c: Counter)
    ensures
        counter_metrics_of(counter_metric(fqdn, i, other), c) == if other == c {
            counter_metric(fqdn, i, c)
        } else {
            Seq::<MetricView>::empty()
        },
{
    lemma_names_differ();
    lemma_filter_small(counter_metric(fqdn, i, other), c);
}

/// The metrics of one interface hold, of counter `c`, exactly the one metric
/// that projects it where it is known, and none where it is not.
pub proof fn lemma_interface_projection(fqdn: Seq<char>, i: InterfaceView, c: Counter)
    ensures
        counter_metrics_of(interface_metrics(fqdn, i), c) == counter_metric(fqdn, i, c),
        counter_metric(fqdn, i, c).len() == if counter_value(i, c) is Some {
            1nat
        } else {
            0nat
        },
{
    let p = |m: MetricView| is_counter_metric(m, c);
    let speed = speed_metric(fqdn, i);
    let rx_octets = counter_metric(fqdn, i, Counter::InOctets);
    let tx_octets = counter_metric(fqdn, i, Counter::OutOctets);
    let rx_packets = counter_metric(fqdn, i, Counter::InPackets);
    let tx_packets = counter_metric(fqdn, i, Counter::OutPackets);
    let rx_errors = counter_metric(fqdn, i, Counter::InErrors);
    let tx_errors = counter_metric(fqdn, i, Counter::OutErrors);
    lemma_names_differ();
    lemma_filter_small(speed, c);
    assert(counter_metrics_of(speed, c) == Seq::<MetricView>::empty());
    lemma_counter_piece(fqdn, i, Counter::InOctets, c);
    lemma_counter_piece(fqdn, i, Counter::OutOctets, c);
    lemma_counter_piece(fqdn, i, Counter::InPackets, c);
    lemma_counter_piece(fqdn, i, Counter::OutPackets, c);
    lemma_counter_piece(fqdn, i, Counter::InErrors, c);
    lemma_counter_piece(fqdn, i, Counter::OutErrors, c);
    Seq::filter_distributes_over_add(speed, rx_octets, p);
    Seq::filter_distributes_over_add(speed + rx_octets, tx_octets, p);
    Seq::filter_distributes_over_add(speed + rx_octets + tx_octets, rx_packets, p);
    Seq::filter_distributes_over_add(speed + rx_octets + tx_octets + rx_packets, tx_packets, p);
    Seq::filter_distributes_over_add(
        speed + rx_octets + tx_octets + rx_packets + tx_packets,
        rx_errors,
        p,
    );
    Seq::filter_distributes_over_add(
        speed + rx_octets + tx_octets + rx_packets + tx_packets + rx_errors,
        tx_errors,
        p,
    );
    assert(counter_metrics_of(interface_metrics(fqdn, i), c) =~= counter_metric(fqdn, i, c));
}

/// Flattening after mapping, for a sequence extended by one element.
proof fn lemma_flat_map_push<A>(head: Seq<A>, last: A, f: spec_fn(A) -> Seq<MetricView>)
    ensures
        head.push(last).map_values(f).flatten() == head.map_values(f).flatten() + f(last),
{
    assert(head.push(last).map_values(f) =~= head.map_values(f).push(f(last)));
    head.map_values(f).lemma_flatten_push(f(last));
}

/// Flattening after mapping, for the empty sequence.
proof fn lemma_flat_map_empty<A>(s: Seq<A>, f: spec_fn(A) -> Seq<MetricView>)
    requires
        s.len() == 0,
    ensures
        s.map_values(f).flatten() == Seq::<MetricView>::empty(),
{
    assert(s.map_values(f) =~= Seq::<Seq<MetricView>>::empty());
}

/// The metrics of a sequence of interfaces hold, of counter `c`, exactly one
/// metric for each interface whose counter is known.
pub proof fn lemma_interfaces_projection(fqdn: Seq<char>, s: Seq<InterfaceView>, c: Counter)
    ensures
        counter_metrics_of(interfaces_metrics(fqdn, s), c) == interfaces_counter_metrics(
            fqdn,
            s,
            c,
        ),
        interfaces_counter_metrics(fqdn, s, c).len() == known_among(s, c),
    decreases s.len(),
{
    let p = |m: MetricView| is_counter_metric(m, c);
    let all = |i: InterfaceView| interface_metrics(fqdn, i);
    let one = |i: InterfaceView| counter_metric(fqdn, i, c);
    if s.len() == 0 {
        lemma_flat_map_empty(s, all);
        lemma_flat_map_empty(s, one);
        lemma_filter_small(Seq::<MetricView>::empty(), c);
    } else {
        let head = s.drop_last();
        let last = s.last();
        assert(s =~= head.push(last));
        lemma_interfaces_projection(fqdn, head, c);
        lemma_interface_projection(fqdn, last, c);
        lemma_flat_map_push(head, last, all);
        lemma_flat_map_push(head, last, one);
        let head_all = interfaces_metrics(fqdn, head);
        let head_one = interfaces_counter_metrics(fqdn, head, c);
        assert(interfaces_metrics(fqdn, s) == head_all + all(last));
        assert(interfaces_counter_metrics(fqdn, s, c) == head_one + one(last));
        assert((head_all + all(last)).filter(p) == head_all.filter(p) + all(last).filter(p)) by {
            Seq::filter_distributes_over_add(head_all, all(last), p);
        }
        assert(head_all.filter(p) == head_one);
        assert(all(last).filter(p) == one(last));
    }
}

/// Projection totality. Of each counter, the counter projection of a store
/// holds exactly one metric for each interface whose counter is known: in
/// the order of the store, with the counter's value, under the interface's
/// labels and the counter's direction. There are as many as there are
/// interfaces with that counter known.
pub proof fn lemma_projection_totality(s: Seq<DeviceView>, c: Counter)
    ensures
        counter_metrics_of(store_metrics(s), c) == store_counter_metrics(s, c),
        store_counter_metrics(s, c).len() == known_in_store(s, c),
    decreases s.len(),
{
    let p = |m: MetricView| is_counter_metric(m, c);
    let all = |d: DeviceView| device_metrics(d);
    let one = |d: DeviceView| interfaces_counter_metrics(d.fqdn, d.interfaces, c);
    if s.len() == 0 {
        lemma_flat_map_empty(s, all);
        lemma_flat_map_empty(s, one);
        lemma_filter_small(Seq::<MetricView>::empty(), c);
    } else {
        let head = s.drop_last();
        let last = s.last();
        assert(s =~= head.push(last));
        lemma_projection_totality(head, c);
        lemma_interfaces_projection(last.fqdn, last.interfaces, c);
        lemma_flat_map_push(head, last, all);
        lemma_flat_map_push(head, last, one);
        let head_all = store_metrics(head);
        let head_one = store_counter_metrics(head, c);
        assert(store_metrics(s) == head_all + all(last));
        assert(store_counter_metrics(s, c) == head_one + one(last));
        assert((head_all + all(last)).filter(p) == head_all.filter(p) + all(last).filter(p)) by {
            Seq::filter_distributes_over_add(head_all, all(last), p);
        }
        assert(head_all.filter(p) == head_one);
        assert(all(last).filter(p) == one(last));
    }
}

/// Whether store `t` holds every device that store `s` holds, each with the
/// expiry it has in `s`, except that device `changed` may have another.
pub open spec fn keeps_devices(s: Seq<DeviceView>, t: Seq<DeviceView>, changed: Seq<char>) -> bool {
    forall|g: Seq<char>| #[trigger]
        has_device(s, g) ==> has_device(t, g) && (g != changed ==> t[device_pos(t, g)].expiry
            == s[device_pos(s, g)].expiry)
}

/// Refreshing a device keeps the store well formed and every other device
/// as it was; the device is held afterwards, and expires at the deadline
/// that follows from `now`.
pub proof fn lemma_refresh_device_keeps(s: Seq<DeviceView>, fqdn: Seq<char>, now: u64)
    requires
        store_wf(s),
    ensures
        store_wf(refreshed_device(s, fqdn, now)),
        has_device(refreshed_device(s, fqdn, now), fqdn),
        refreshed_device(s, fqdn, now)[device_pos(refreshed_device(s, fqdn, now), fqdn)].expiry
            == deadline(now, METRIC_TTL),
        keeps_devices(s, refreshed_device(s, fqdn, now), fqdn),
{
    let name = |d: DeviceView| d.fqdn;
    let t = refreshed_device(s, fqdn, now);
    if has_device(s, fqdn) {
        lemma_refresh_monotone(s, fqdn, now);
        let i = device_pos(s, fqdn);
        lemma_key_position(s, fqdn, name);
        lemma_update_same_key(s, i, t[i], name);
        assert forall|j: int| 0 <= j < t.len() implies device_wf(#[trigger] t[j]) by {
            assert(device_wf(s[j]));
        }
        assert forall|g: Seq<char>| #[trigger] has_device(s, g) implies has_device(t, g) && (g
            != fqdn ==> t[device_pos(t, g)].expiry == s[device_pos(s, g)].expiry) by {
            lemma_key_position(s, g, name);
        }
    } else {
        let fresh = fresh_device(fqdn, deadline(now, METRIC_TTL));
        lemma_distinct_push(s, fresh, name);
        assert(crate::metrics::interface_keys(fresh.interfaces) =~= Seq::<i32>::empty());
        assert forall|j: int| 0 <= j < t.len() implies device_wf(#[trigger] t[j]) by {
            if j < s.len() {
                assert(device_wf(s[j]));
            }
        }
        assert(device_keys(t)[s.len() as int] == fqdn);
        lemma_index_of_key(t, s.len() as int, name);
        assert forall|g: Seq<char>| #[trigger] has_device(s, g) implies has_device(t, g) && (g
            != fqdn ==> t[device_pos(t, g)].expiry == s[device_pos(s, g)].expiry) by {
            lemma_push_other_key(s, fresh, name, g);
            lemma_key_position(s, g, name);
        }
    }
}

/// Refreshing an interface keeps the store well formed and every device's
/// name and expiry as they were.
pub proof fn lemma_refresh_interface_keeps(
    s: Seq<DeviceView>,
    fqdn: Seq<char>,
    if_index: i32,
    interface_type: Seq<char>,
    name: Seq<char>,
    neighbors: bool,
    speed_override: Option<i32>,
    now: u64,
)
    requires
        store_wf(s),
    ensures
        store_wf(
            refreshed_interface(
                s,
                fqdn,
                if_index,
                interface_type,
                name,
                neighbors,
                speed_override,
                now,
            ),
        ),
        device_keys(
            refreshed_interface(
                s,
                fqdn,
                if_index,
                interface_type,
                name,
                neighbors,
                speed_override,
                now,
            ),
        ) == device_keys(s),
        forall|j: int|
            0 <= j < s.len() ==> (#[trigger] refreshed_interface(
                s,
                fqdn,
                if_index,
                interface_type,
                name,
                neighbors,
                speed_override,
                now,
            )[j]).expiry == s[j].expiry,
{
    let by_name = |d: DeviceView| d.fqdn;
    let by_index = |x: InterfaceView| x.if_index;
    let t = refreshed_interface(
        s,
        fqdn,
        if_index,
        interface_type,
        name,
        neighbors,
        speed_override,
        now,
    );
    if has_device(s, fqdn) {
        let i = device_pos(s, fqdn);
        lemma_key_position(s, fqdn, by_name);
        let d = s[i];
        assert(device_wf(d));
        let d2 = device_with_refreshed_interface(
            d,
            if_index,
            interface_type,
            name,
            neighbors,
            speed_override,
            now,
        );
        if has_interface(d, if_index) {
            let j = interface_pos(d, if_index);
            lemma_key_position(d.interfaces, if_index, by_index);
            lemma_update_same_key(d.interfaces, j, d2.interfaces[j], by_index);
        } else {
            lemma_distinct_push(d.interfaces, d2.interfaces[d.interfaces.len() as int], by_index);
        }
        lemma_update_same_key(s, i, d2, by_name);
        assert forall|j: int| 0 <= j < t.len() implies device_wf(#[trigger] t[j]) by {
            if j != i {
                assert(device_wf(s[j]));
            }
        }
    }
}

/// Refreshing interfaces one after the other keeps the store well formed
/// and every device's name and expiry as they were.
pub proof fn lemma_refresh_interfaces_keep(
    s: Seq<DeviceView>,
    fqdn: Seq<char>,
    ifs: Seq<InterfaceRecord>,
    now: u64,
)
    requires
        store_wf(s),
    ensures
        store_wf(interfaces_refreshed(s, fqdn, ifs, now)),
        device_keys(interfaces_refreshed(s, fqdn, ifs, now)) == device_keys(s),
        forall|j: int|
            0 <= j < s.len() ==> (#[trigger] interfaces_refreshed(s, fqdn, ifs, now)[j]).expiry
                == s[j].expiry,
    decreases ifs.len(),
{
    if ifs.len() > 0 {
        let head = interfaces_refreshed(s, fqdn, ifs.drop_last(), now);
        lemma_refresh_interfaces_keep(s, fqdn, ifs.drop_last(), now);
        let i = ifs.last();
        lemma_refresh_interface_keeps(
            head,
            fqdn,
            i.index,
            i.interface_type,
            i.name,
            i.connected_interface is Some,
            i.speed_override,
            now,
        );
        assert(head.len() == s.len()) by {
            assert(device_keys(head).len() == device_keys(s).len());
        }
        let t = interfaces_refreshed(s, fqdn, ifs, now);
        assert forall|j: int| 0 <= j < s.len() implies (#[trigger] t[j]).expiry
            == s[j].expiry by {
            assert(head[j].expiry == s[j].expiry);
        }
    }
}

/// Refreshing a device from the inventory keeps the store well formed and
/// every other device as it was; the device is held afterwards, and expires
/// at the deadline that follows from `now`.
pub proof fn lemma_refresh_from_inventory_keeps(
    s: Seq<DeviceView>,
    inv: InventoryView,
    d: DeviceRecord,
    now: u64,
)
    requires
        store_wf(s),
    ensures
        store_wf(device_refreshed_from(s, inv, d, now)),
        has_device(device_refreshed_from(s, inv, d, now), record_fqdn(d)),
        device_refreshed_from(s, inv, d, now)[device_pos(
            device_refreshed_from(s, inv, d, now),
            record_fqdn(d),
        )].expiry == deadline(now, METRIC_TTL),
        keeps_devices(s, device_refreshed_from(s, inv, d, now), record_fqdn(d)),
{
    let by_name = |x: DeviceView| x.fqdn;
    let fqdn = record_fqdn(d);
    let mid = refreshed_device(s, fqdn, now);
    lemma_refresh_device_keeps(s, fqdn, now);
    lemma_refresh_interfaces_keep(mid, fqdn, interfaces_of(inv, d.id), now);
    let t = device_refreshed_from(s, inv, d, now);
    assert(t.len() == mid.len()) by {
        assert(device_keys(t).len() == device_keys(mid).len());
    }
    lemma_key_position(mid, fqdn, by_name);
    assert forall|g: Seq<char>| #[trigger] has_device(s, g) implies has_device(t, g) && (g != fqdn
        ==> t[device_pos(t, g)].expiry == s[device_pos(s, g)].expiry) by {
        lemma_key_position(mid, g, by_name);
    }
}

/// A tick's refresh pass keeps the store well formed, and every candidate
/// among the devices it walks is held afterwards and expires at the deadline
/// that follows from `now`.
pub proof fn lemma_candidates_held(
    s: Seq<DeviceView>,
    inv: InventoryView,
    devices: Seq<DeviceRecord>,
    full: bool,
    misses: Set<Seq<char>>,
    now: u64,
)
    requires
        store_wf(s),
    ensures
        store_wf(candidates_refreshed(s, inv, devices, full, misses, now)),
        forall|k: int|
            0 <= k < devices.len() && is_candidate(#[trigger] devices[k], full, misses) ==> ({
                let t = candidates_refreshed(s, inv, devices, full, misses, now);
                has_device(t, record_fqdn(devices[k])) && t[device_pos(
                    t,
                    record_fqdn(devices[k]),
                )].expiry == deadline(now, METRIC_TTL)
            }),
    decreases devices.len(),
{
    if devices.len() > 0 {
        let head = candidates_refreshed(s, inv, devices.drop_last(), full, misses, now);
        lemma_candidates_held(s, inv, devices.drop_last(), full, misses, now);
        let last = devices.last();
        let t = candidates_refreshed(s, inv, devices, full, misses, now);
        if is_candidate(last, full, misses) {
            lemma_refresh_from_inventory_keeps(head, inv, last, now);
        }
        assert forall|k: int|
            0 <= k < devices.len() && is_candidate(#[trigger] devices[k], full, misses) implies (
            has_device(t, record_fqdn(devices[k])) && t[device_pos(
                t,
                record_fqdn(devices[k]),
            )].expiry == deadline(now, METRIC_TTL)) by {
            let g = record_fqdn(devices[k]);
            if k < devices.len() - 1 {
                assert(devices.drop_last()[k] == devices[k]);
                assert(has_device(head, g));
            }
        }
    }
}

/// Miss feedback. A tick refreshes every device of the inventory that is a
/// candidate: every device on a full refresh, and at any phase every device
/// whose name is among the misses. After the tick the store holds it, and it
/// expires at the deadline that follows from the time of the tick.
pub proof fn lemma_miss_feedback(
    s: Seq<DeviceView>,
    inv: InventoryView,
    full: bool,
    misses: Set<Seq<char>>,
    fqdn: Seq<char>,
    now: u64,
)
    requires
        store_wf(s),
        device_by_fqdn(inv, fqdn) is Some,
        full || misses.contains(fqdn),
    ensures
        store_wf(store_after_tick(s, inv, full, misses, now)),
        has_device(store_after_tick(s, inv, full, misses, now), fqdn),
        store_after_tick(s, inv, full, misses, now)[device_pos(
            store_after_tick(s, inv, full, misses, now),
            fqdn,
        )].expiry == deadline(now, METRIC_TTL),
{
    let by_name = |d: DeviceView| d.fqdn;
    let named = |d: DeviceRecord| record_fqdn(d) == fqdn;
    lemma_first_position(inv.devices, named);
    let k = crate::inventory::first_position(inv.devices, named);
    assert(is_candidate(inv.devices[k], full, misses));
    lemma_candidates_held(s, inv, inv.devices, full, misses, now);
    let refreshed = candidates_refreshed(s, inv, inv.devices, full, misses, now);
    assert(has_device(refreshed, fqdn));
    lemma_key_position(refreshed, fqdn, by_name);
    let a = device_pos(refreshed, fqdn);
    assert(misses.contains(fqdn) ==> misses != Set::<Seq<char>>::empty());
    lemma_eviction_coherence(refreshed, now);
    let out = pruned(refreshed, now);
    assert(!expired(refreshed[a].expiry, now));
    assert(has_device(out, fqdn));
    lemma_key_position(out, fqdn, by_name);
    let b = device_pos(out, fqdn);
    assert(out[b].fqdn == fqdn);
}

/// The phase stays below the refresh period, and a full refresh comes round
/// at phase 0.
pub proof fn lemma_phase_cycles(v: SchedulerView)
    ensures
        advanced(v).phase < REFRESH_PERIOD,
        advanced(v).first_run_done,
        full_refresh(advanced(v)) <==> v.phase >= REFRESH_PERIOD - 1,
{
}

} // verus!
