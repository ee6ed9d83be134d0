//! The two read-only projections of the store: every known counter as a
//! labeled metric, and the liveness of devices and interfaces.

use vstd::prelude::*;
use crate::metrics::{DeviceMetrics, DeviceView, InterfaceMetrics, InterfaceView};
use crate::string_map::StringMap;

verus! {

/// The value of a metric: signed for speeds and liveness, unsigned for
/// counters.
#[derive(Clone, Copy, Debug, PartialEq, Eq, Structural)]
pub enum MetricValue {
    Int64(i64),
    Uint64(u64),
}

/// What a labeled metric stands for.
pub struct MetricView {
    pub name: Seq<char>,
    pub value: MetricValue,
    pub labels: Map<Seq<char>, Seq<char>>,
}

/// A named value with the labels that tell what it was measured on.
#[derive(Debug)]
pub struct LabeledMetric {
    pub name: String,
    pub value: MetricValue,
    pub labels: StringMap<String>,
}

impl View for LabeledMetric {
    type V = MetricView;

    open spec fn view(&self) -> MetricView {
        MetricView { name: self.name@, value: self.value, labels: self.labels@ }
    }
}

impl LabeledMetric {
    /// A metric with a copy of the name and a copy of the labels given.
    pub fn new(name: &String, value: MetricValue, labels: &StringMap<String>) -> (m: LabeledMetric)
        ensures
            m@ == (MetricView { name: name@, value, labels: labels@ }),
    {
        LabeledMetric { name: name.clone(), value, labels: labels.copy() }
    }
}

/// Views of a vector of metrics, in order.
pub open spec fn metric_views(v: Seq<LabeledMetric>) -> Seq<MetricView> {
    v.map_values(|m: LabeledMetric| m@)
}

/// The six counters that an interface holds.
#[derive(Clone, Copy, Debug, PartialEq, Eq, Structural)]
pub enum Counter {
    InOctets,
    OutOctets,
    InPackets,
    OutPackets,
    InErrors,
    OutErrors,
}

/// The metric name under which a counter is projected.
pub open spec fn counter_name(c: Counter) -> Seq<char> {
    match c {
        Counter::InOctets | Counter::OutOctets => "jaspy_interface_octets"@,
        Counter::InPackets | Counter::OutPackets => "jaspy_interface_packets"@,
        Counter::InErrors | Counter::OutErrors => "jaspy_interface_errors"@,
    }
}

/// The direction label of a counter: `rx` for what came in, `tx` for what
/// went out.
pub open spec fn counter_direction(c: Counter) -> Seq<char> {
    match c {
        Counter::InOctets | Counter::InPackets | Counter::InErrors => "rx"@,
        Counter::OutOctets | Counter::OutPackets | Counter::OutErrors => "tx"@,
    }
}

/// What the interface holds of a counter.
pub open spec fn counter_value(i: InterfaceView, c: Counter) -> Option<u64> {
    match c {
        Counter::InOctets => i.in_octets,
        Counter::OutOctets => i.out_octets,
        Counter::InPackets => i.in_packets,
        Counter::OutPackets => i.out_packets,
        Counter::InErrors => i.in_errors,
        Counter::OutErrors => i.out_errors,
    }
}

/// The label that tells whether the inventory records a peer.
pub open spec fn neighbors_label(neighbors: bool) -> Seq<char> {
    if neighbors {
        "yes"@
    } else {
        "no"@
    }
}

/// The labels that every metric of an interface carries.
pub open spec fn common_labels(fqdn: Seq<char>, i: InterfaceView) -> Map<Seq<char>, Seq<char>> {
    Map::<Seq<char>, Seq<char>>::empty().insert("fqdn"@, fqdn).insert("name"@, i.name).insert(
        "interface_type"@,
        i.interface_type,
    ).insert("neighbors"@, neighbors_label(i.neighbors))
}

/// The labels of a counter metric: the common ones and the direction.
pub open spec fn directed_labels(fqdn: Seq<char>, i: InterfaceView, c: Counter) -> Map<
    Seq<char>,
    Seq<char>,
> {
    common_labels(fqdn, i).insert("direction"@, counter_direction(c))
}

/// The speed that is projected: the override where there is one, else the
/// reported speed.
pub open spec fn reported_speed(i: InterfaceView) -> Option<i32> {
    if i.speed_override is Some {
        i.speed_override
    } else {
        i.speed
    }
}

/// The speed metric of an interface: one where a speed is known, else none.
pub open spec fn speed_metric(fqdn: Seq<char>, i: InterfaceView) -> Seq<MetricView> {
    match reported_speed(i) {
        Some(v) => seq![
            MetricView {
                name: "jaspy_interface_speed"@,
                value: MetricValue::Int64(v as i64),
                labels: common_labels(fqdn, i),
            },
        ],
        None => Seq::empty(),
    }
}

/// The metric of one counter of an interface: one where the counter is
/// known, else none.
pub open spec fn counter_metric(fqdn: Seq<char>, i: InterfaceView, c: Counter) -> Seq<MetricView> {
    match counter_value(i, c) {
        Some(v) => seq![
            MetricView {
                name: counter_name(c),
                value: MetricValue::Uint64(v),
                labels: directed_labels(fqdn, i, c),
            },
        ],
        None => Seq::empty(),
    }
}

/// The metrics of one interface: its speed, then its six counters.
pub open spec fn interface_metrics(fqdn: Seq<char>, i: InterfaceView) -> Seq<MetricView> {
    speed_metric(fqdn, i) + counter_metric(fqdn, i, Counter::InOctets) + counter_metric(
        fqdn,
        i,
        Counter::OutOctets,
    ) + counter_metric(fqdn, i, Counter::InPackets) + counter_metric(fqdn, i, Counter::OutPackets)
        + counter_metric(fqdn, i, Counter::InErrors) + counter_metric(fqdn, i, Counter::OutErrors)
}

/// The metrics of a sequence of interfaces of one device, interface by
/// interface.
pub open spec fn interfaces_metrics(fqdn: Seq<char>, s: Seq<InterfaceView>) -> Seq<MetricView> {
    s.map_values(|i: InterfaceView| interface_metrics(fqdn, i)).flatten()
}

/// The metrics of one device: those of its interfaces, in order.
pub open spec fn device_metrics(d: DeviceView) -> Seq<MetricView> {
    interfaces_metrics(d.fqdn, d.interfaces)
}

/// The counter projection of a store: the metrics of its devices, in order.
pub open spec fn store_metrics(s: Seq<DeviceView>) -> Seq<MetricView> {
    s.map_values(|d: DeviceView| device_metrics(d)).flatten()
}

/// The value by which liveness is projected: 1 for up, 0 for down.
pub open spec fn up_value(up: bool) -> MetricValue {
    MetricValue::Int64(
        if up {
            1
        } else {
            0
        },
    )
}

/// The liveness metric of a device: one where its liveness is known.
pub open spec fn device_up_metric(d: DeviceView) -> Seq<MetricView> {
    match d.up {
        Some(up) => seq![
            MetricView {
                name: "jaspy_device_up"@,
                value: up_value(up),
                labels: Map::<Seq<char>, Seq<char>>::empty().insert("fqdn"@, d.fqdn),
            },
        ],
        None => Seq::empty(),
    }
}

/// The liveness metric of an interface: one where its liveness is known.
pub open spec fn interface_up_metric(fqdn: Seq<char>, i: InterfaceView) -> Seq<MetricView> {
    match i.up {
        Some(up) => seq![
            MetricView {
                name: "jaspy_interface_up"@,
                value: up_value(up),
                labels: common_labels(fqdn, i),
            },
        ],
        None => Seq::empty(),
    }
}

/// The liveness metrics of a sequence of interfaces of one device.
pub open spec fn interfaces_up_metrics(fqdn: Seq<char>, s: Seq<InterfaceView>) -> Seq<MetricView> {
    s.map_values(|i: InterfaceView| interface_up_metric(fqdn, i)).flatten()
}

/// The liveness metrics of one device: its own, then those of its
/// interfaces, in order.
pub open spec fn device_fast_metrics(d: DeviceView) -> Seq<MetricView> {
    device_up_metric(d) + interfaces_up_metrics(d.fqdn, d.interfaces)
}

/// The liveness projection of a store.
pub open spec fn store_fast_metrics(s: Seq<DeviceView>) -> Seq<MetricView> {
    s.map_values(|d: DeviceView| device_fast_metrics(d)).flatten()
}

/// Builds the labels that every metric of the interface carries.
fn interface_labels(fqdn: &String, i: &InterfaceMetrics) -> (m: StringMap<String>)
    ensures
        m@ == common_labels(fqdn@, i@),
{
    let mut labels: StringMap<String> = StringMap::new();
    labels.insert("fqdn".to_string(), fqdn.clone());
    labels.insert("name".to_string(), i.name.clone());
    labels.insert("interface_type".to_string(), i.interface_type.clone());
    if i.neighbors {
        labels.insert("neighbors".to_string(), "yes".to_string());
    } else {
        labels.insert("neighbors".to_string(), "no".to_string());
    }
    labels
}

/// Appends one metric where a value is known.
fn push_known(
    out: &mut Vec<LabeledMetric>,
    name: &String,
    value: Option<MetricValue>,
    labels: &StringMap<String>,
)
    ensures
        metric_views(final(out)@) == metric_views(old(out)@) + match value {
            Some(v) => seq![MetricView { name: name@, value: v, labels: labels@ }],
            None => Seq::<MetricView>::empty(),
        },
{
    let ghost prev = metric_views(out@);
    match value {
        Some(v) => {
            let m = LabeledMetric::new(name, v, labels);
            out.push(m);
            proof {
                assert(metric_views(out@) =~= prev + seq![m@]);
            }
        },
        None => {
            proof {
                assert(metric_views(out@) =~= prev + Seq::<MetricView>::empty());
            }
        },
    }
}

/// A counter as a metric value.
fn unsigned(v: Option<u64>) -> (r: Option<MetricValue>)
    ensures
        r == match v {
            Some(x) => Some(MetricValue::Uint64(x)),
            None => None,
        },
{
    match v {
        Some(x) => Some(MetricValue::Uint64(x)),
        None => None,
    }
}

/// Appends the metric of one counter of an interface.
fn push_counter(
    out: &mut Vec<LabeledMetric>,
    name: &String,
    labels: &StringMap<String>,
    i: &InterfaceMetrics,
    c: Counter,
    Ghost(fqdn): Ghost<Seq<char>>,
    Ghost(sofar): Ghost<Seq<MetricView>>,
    Ghost(prev): Ghost<Seq<MetricView>>,
)
    requires
        name@ == counter_name(c),
        labels@ == directed_labels(fqdn, i@, c),
        metric_views(old(out)@) == prev + sofar,
    ensures
        metric_views(final(out)@) == prev + (sofar + counter_metric(fqdn, i@, c)),
{
    let value = match c {
        Counter::InOctets => i.in_octets,
        Counter::OutOctets => i.out_octets,
        Counter::InPackets => i.in_packets,
        Counter::OutPackets => i.out_packets,
        Counter::InErrors => i.in_errors,
        Counter::OutErrors => i.out_errors,
    };
    push_known(out, name, unsigned(value), labels);
    proof {
        assert((prev + sofar) + counter_metric(fqdn, i@, c) =~= prev + (sofar + counter_metric(
            fqdn,
            i@,
            c,
        )));
    }
}

/// Appends the counter metrics of one interface.
pub fn push_interface_metrics(out: &mut Vec<LabeledMetric>, fqdn: &String, i: &InterfaceMetrics)
    ensures
        metric_views(final(out)@) == metric_views(old(out)@) + interface_metrics(fqdn@, i@),
{
    let ghost prev = metric_views(out@);
    let octets = "jaspy_interface_octets".to_string();
    let packets = "jaspy_interface_packets".to_string();
    let errors = "jaspy_interface_errors".to_string();
    let speed_name = "jaspy_interface_speed".to_string();
    let reported = match i.speed_override {
        Some(v) => Some(v),
        None => i.speed,
    };
    let speed = match reported {
        Some(v) => Some(MetricValue::Int64(v as i64)),
        None => None,
    };
    let labels = interface_labels(fqdn, i);
    let mut in_labels = labels.copy();
    in_labels.insert("direction".to_string(), "rx".to_string());
    let mut out_labels = labels.copy();
    out_labels.insert("direction".to_string(), "tx".to_string());
    push_known(out, &speed_name, speed, &labels);
    let ghost speed_part = speed_metric(fqdn@, i@);
    let ghost in_octets_part = speed_part + counter_metric(fqdn@, i@, Counter::InOctets);
    let ghost out_octets_part = in_octets_part + counter_metric(fqdn@, i@, Counter::OutOctets);
    let ghost in_packets_part = out_octets_part + counter_metric(fqdn@, i@, Counter::InPackets);
    let ghost out_packets_part = in_packets_part + counter_metric(fqdn@, i@, Counter::OutPackets);
    let ghost in_errors_part = out_packets_part + counter_metric(fqdn@, i@, Counter::InErrors);
    push_counter(
        out,
        &octets,
        &in_labels,
        i,
        Counter::InOctets,
        Ghost(fqdn@),
        Ghost(speed_part),
        Ghost(prev),
    );
    push_counter(
        out,
        &octets,
        &out_labels,
        i,
        Counter::OutOctets,
        Ghost(fqdn@),
        Ghost(in_octets_part),
        Ghost(prev),
    );
    push_counter(
        out,
        &packets,
        &in_labels,
        i,
        Counter::InPackets,
        Ghost(fqdn@),
        Ghost(out_octets_part),
        Ghost(prev),
    );
    push_counter(
        out,
        &packets,
        &out_labels,
        i,
        Counter::OutPackets,
        Ghost(fqdn@),
        Ghost(in_packets_part),
        Ghost(prev),
    );
    push_counter(
        out,
        &errors,
        &in_labels,
        i,
        Counter::InErrors,
        Ghost(fqdn@),
        Ghost(out_packets_part),
        Ghost(prev),
    );
    push_counter(
        out,
        &errors,
        &out_labels,
        i,
        Counter::OutErrors,
        Ghost(fqdn@),
        Ghost(in_errors_part),
        Ghost(prev),
    );
}

/// Appends the counter metrics of one device.
pub fn push_device_metrics(out: &mut Vec<LabeledMetric>, d: &DeviceMetrics)
    ensures
        metric_views(final(out)@) == metric_views(old(out)@) + device_metrics(d@),
{
    let ghost prev = metric_views(out@);
    let ghost all = d@.interfaces;
    let ghost per = |i: InterfaceView| interface_metrics(d@.fqdn, i);
    let mut k: usize = 0;
    proof {
        assert(all.subrange(0, 0).map_values(per) =~= Seq::<Seq<MetricView>>::empty());
        assert(metric_views(out@) =~= prev + interfaces_metrics(d@.fqdn, all.subrange(0, 0)));
    }
    while k < d.interfaces.len()
        invariant
            k <= d.interfaces.len(),
            all == d@.interfaces,
            all.len() == d.interfaces.len(),
            per == |i: InterfaceView| interface_metrics(d@.fqdn, i),
            metric_views(out@) == prev + interfaces_metrics(d@.fqdn, all.subrange(0, k as int)),
        decreases d.interfaces.len() - k,
    {
        proof {
            let head = all.subrange(0, k as int);
            assert(all.subrange(0, k + 1).map_values(per) =~= head.map_values(per).push(
                per(all[k as int]),
            ));
            head.map_values(per).lemma_flatten_push(per(all[k as int]));
        }
        push_interface_metrics(out, &d.fqdn, &d.interfaces[k]);
        proof {
            assert(metric_views(out@) =~= prev + interfaces_metrics(
                d@.fqdn,
                all.subrange(0, k + 1),
            ));
        }
        k += 1;
    }
    proof {
        assert(all.subrange(0, k as int) =~= all);
    }
}

/// Appends the liveness metrics of one device.
pub fn push_device_fast_metrics(out: &mut Vec<LabeledMetric>, d: &DeviceMetrics)
    ensures
        metric_views(final(out)@) == metric_views(old(out)@) + device_fast_metrics(d@),
{
    let ghost prev = metric_views(out@);
    let ghost all = d@.interfaces;
    let ghost per = |i: InterfaceView| interface_up_metric(d@.fqdn, i);
    let device_up = "jaspy_device_up".to_string();
    let interface_up = "jaspy_interface_up".to_string();
    let mut own: StringMap<String> = StringMap::new();
    own.insert("fqdn".to_string(), d.fqdn.clone());
    push_known(out, &device_up, liveness(d.up), &own);
    let ghost base = metric_views(out@);
    let mut k: usize = 0;
    proof {
        assert(base == prev + device_up_metric(d@));
        assert(all.subrange(0, 0).map_values(per) =~= Seq::<Seq<MetricView>>::empty());
        assert(metric_views(out@) =~= base + interfaces_up_metrics(d@.fqdn, all.subrange(0, 0)));
    }
    while k < d.interfaces.len()
        invariant
            k <= d.interfaces.len(),
            all == d@.interfaces,
            all.len() == d.interfaces.len(),
            interface_up@ == "jaspy_interface_up"@,
            per == |i: InterfaceView| interface_up_metric(d@.fqdn, i),
            metric_views(out@) == base + interfaces_up_metrics(d@.fqdn, all.subrange(0, k as int)),
        decreases d.interfaces.len() - k,
    {
        proof {
            let head = all.subrange(0, k as int);
            assert(all.subrange(0, k + 1).map_values(per) =~= head.map_values(per).push(
                per(all[k as int]),
            ));
            head.map_values(per).lemma_flatten_push(per(all[k as int]));
        }
        let labels = interface_labels(&d.fqdn, &d.interfaces[k]);
        push_known(out, &interface_up, liveness(d.interfaces[k].up), &labels);
        proof {
            assert(metric_views(out@) =~= base + interfaces_up_metrics(
                d@.fqdn,
                all.subrange(0, k + 1),
            ));
        }
        k += 1;
    }
    proof {
        assert(all.subrange(0, k as int) =~= all);
        assert(metric_views(out@) =~= prev + device_fast_metrics(d@));
    }
}

/// A known liveness as a metric value.
fn liveness(up: Option<bool>) -> (r: Option<MetricValue>)
    ensures
        r == match up {
            Some(b) => Some(up_value(b)),
            None => None,
        },
{
    match up {
        Some(true) => Some(MetricValue::Int64(1)),
        Some(false) => Some(MetricValue::Int64(0)),
        None => None,
    }
}

} // verus!
