//! The live view of the weathermap: the liveness projection of the store,
//! gathered per device.

use vstd::prelude::*;
use crate::projection::{metric_views, LabeledMetric, MetricValue, MetricView};
use crate::string_map::{Duplicate, StringMap};

verus! {

/// Liveness of one interface in the live view.
#[derive(Debug)]
pub struct WeathermapStateDeviceInterfaceState {
    pub state: bool,
}

impl View for WeathermapStateDeviceInterfaceState {
    type V = bool;

    open spec fn view(&self) -> bool {
        self.state
    }
}

impl Duplicate for WeathermapStateDeviceInterfaceState {
    fn duplicate(&self) -> (r: Self) {
        WeathermapStateDeviceInterfaceState { state: self.state }
    }
}

/// What a device of the live view stands for.
pub struct StateDeviceView {
    pub state: bool,
    pub interfaces: Map<Seq<char>, bool>,
}

/// Liveness of one device and of its cabled interfaces, by interface name.
#[derive(Debug)]
pub struct WeathermapStateDevice {
    pub state: bool,
    pub interfaces: StringMap<WeathermapStateDeviceInterfaceState>,
}

impl View for WeathermapStateDevice {
    type V = StateDeviceView;

    open spec fn view(&self) -> StateDeviceView {
        StateDeviceView { state: self.state, interfaces: self.interfaces@ }
    }
}

impl Duplicate for WeathermapStateDevice {
    fn duplicate(&self) -> (r: Self) {
        WeathermapStateDevice { state: self.state, interfaces: self.interfaces.copy() }
    }
}

/// The live view: its devices by fully-qualified name.
#[derive(Debug)]
pub struct WeathermapStateBase {
    pub devices: StringMap<WeathermapStateDevice>,
}

impl View for WeathermapStateBase {
    type V = Map<Seq<char>, StateDeviceView>;

    open spec fn view(&self) -> Map<Seq<char>, StateDeviceView> {
        self.devices@
    }
}

/// A liveness value counts as up when it is 1.
pub open spec fn is_one(v: MetricValue) -> bool {
    match v {
        MetricValue::Int64(x) => x == 1,
        MetricValue::Uint64(x) => x == 1,
    }
}

/// A device of which nothing is known yet: down, without interfaces.
pub open spec fn unseen_device() -> StateDeviceView {
    StateDeviceView { state: false, interfaces: Map::empty() }
}

/// Whether a metric's labels say that the interface has no peer: there is a
/// `neighbors` label, and it is not `yes`.
pub open spec fn without_peer(m: MetricView) -> bool {
    m.labels.contains_key("neighbors"@) && m.labels["neighbors"@] != "yes"@
}

/// The device after one metric that names it. A device metric sets the
/// device's state. An interface metric adds the interface under its name,
/// unless its labels say it has no peer, it has no name, or the device
/// already shows an interface of that name: the first sighting stays.
pub open spec fn device_after_metric(d: StateDeviceView, m: MetricView) -> StateDeviceView {
    if m.name == "jaspy_device_up"@ {
        StateDeviceView { state: is_one(m.value), ..d }
    } else if m.name == "jaspy_interface_up"@ && !without_peer(m) && m.labels.contains_key("name"@)
        && !d.interfaces.contains_key(m.labels["name"@]) {
        StateDeviceView { interfaces: d.interfaces.insert(m.labels["name"@], is_one(m.value)), ..d }
    } else {
        d
    }
}

/// The live view after one metric. A metric without an `fqdn` label changes
/// nothing. Any other makes its device appear, if it did not yet.
pub open spec fn state_after_metric(
    st: Map<Seq<char>, StateDeviceView>,
    m: MetricView,
) -> Map<Seq<char>, StateDeviceView> {
    if m.labels.contains_key("fqdn"@) {
        let fqdn = m.labels["fqdn"@];
        let d = if st.contains_key(fqdn) {
            st[fqdn]
        } else {
            unseen_device()
        };
        st.insert(fqdn, device_after_metric(d, m))
    } else {
        st
    }
}

/// The live view that a sequence of metrics gives, taken in order.
pub open spec fn weathermap_state(ms: Seq<MetricView>) -> Map<Seq<char>, StateDeviceView>
    decreases ms.len(),
{
    if ms.len() == 0 {
        Map::empty()
    } else {
        state_after_metric(weathermap_state(ms.drop_last()), ms.last())
    }
}

/// Decides `is_one`.
fn value_is_one(v: MetricValue) -> (b: bool)
    ensures
        b == is_one(v),
{
    match v {
        MetricValue::Int64(x) => x == 1,
        MetricValue::Uint64(x) => x == 1,
    }
}

/// Takes one metric into the device.
fn note_metric(device: &mut WeathermapStateDevice, metric: &LabeledMetric)
    ensures
        final(device)@ == device_after_metric(old(device)@, metric@),
{
    let device_up = "jaspy_device_up".to_string();
    let interface_up = "jaspy_interface_up".to_string();
    let neighbors_key = "neighbors".to_string();
    let name_key = "name".to_string();
    let yes = "yes".to_string();
    if metric.name == device_up {
        device.state = value_is_one(metric.value);
    } else if metric.name == interface_up {
        match metric.labels.get(&neighbors_key) {
            Some(neighbors) => {
                if *neighbors != yes {
                    return ;
                }
            },
            None => {},
        }
        match metric.labels.get(&name_key) {
            Some(interface_name) => {
                if device.interfaces.contains_key(interface_name) {
                    return ;
                }
                device.interfaces.insert(
                    interface_name.clone(),
                    WeathermapStateDeviceInterfaceState { state: value_is_one(metric.value) },
                );
            },
            None => {},
        }
    }
}

/// Gathers liveness metrics into the live view: per device its state and the
/// state of each of its cabled interfaces, by interface name.
pub fn state_information(metrics: &Vec<LabeledMetric>) -> (weathermap_state: WeathermapStateBase)
    ensures
        weathermap_state@ == self::weathermap_state(metric_views(metrics@)),
{
    let fqdn_key = "fqdn".to_string();
    let mut devices: StringMap<WeathermapStateDevice> = StringMap::new();
    let ghost all = metric_views(metrics@);
    let mut k: usize = 0;
    proof {
        assert(all.subrange(0, 0) =~= Seq::<MetricView>::empty());
    }
    while k < metrics.len()
        invariant
            k <= metrics.len(),
            all == metric_views(metrics@),
            fqdn_key@ == "fqdn"@,
            devices@ == self::weathermap_state(all.subrange(0, k as int)),
        decreases metrics.len() - k,
    {
        proof {
            assert(all.subrange(0, k + 1).drop_last() =~= all.subrange(0, k as int));
            assert(all.subrange(0, k + 1).last() == all[k as int]);
        }
        let metric = &metrics[k];
        match metric.labels.get(&fqdn_key) {
            Some(fqdn) => {
                let ghost before = devices@;
                let unseen = WeathermapStateDevice { state: false, interfaces: StringMap::new() };
                let placeholder = WeathermapStateDevice {
                    state: false,
                    interfaces: StringMap::new(),
                };
                let mut device = match devices.insert(fqdn.clone(), placeholder) {
                    Some(d) => d,
                    None => unseen,
                };
                note_metric(&mut device, metric);
                devices.insert(fqdn.clone(), device);
                proof {
                    assert(devices@ =~= state_after_metric(before, metric@));
                }
            },
            None => {},
        }
        k += 1;
    }
    proof {
        assert(all.subrange(0, k as int) =~= all);
    }
    WeathermapStateBase { devices }
}

} // verus!
