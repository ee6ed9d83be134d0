use jaspy::imds::IMDS;
use jaspy::inventory::Inventory;
use jaspy::projection::{LabeledMetric, MetricValue};
use jaspy::reports::{DeviceMonitorReport, InterfaceMonitorReport, InterfaceReport};
use jaspy::string_map::StringMap;
use jaspy::weathermap::state_information;

fn text(s: &str) -> String {
    s.to_string()
}

fn metric(name: &str, value: MetricValue, labels: &[(&str, &str)]) -> LabeledMetric {
    let mut map: StringMap<String> = StringMap::new();
    for (k, v) in labels {
        map.insert(text(k), text(v));
    }
    LabeledMetric { name: text(name), value, labels: map }
}

#[test]
fn state_is_gathered_per_device() {
    let metrics = vec![
        metric("jaspy_device_up", MetricValue::Int64(1), &[("fqdn", "a.example.com")]),
        metric(
            "jaspy_interface_up",
            MetricValue::Int64(1),
            &[("fqdn", "a.example.com"), ("name", "a1"), ("neighbors", "yes")],
        ),
        metric(
            "jaspy_interface_up",
            MetricValue::Int64(0),
            &[("fqdn", "a.example.com"), ("name", "a2"), ("neighbors", "yes")],
        ),
        metric(
            "jaspy_interface_up",
            MetricValue::Int64(1),
            &[("fqdn", "a.example.com"), ("name", "a3"), ("neighbors", "no")],
        ),
        metric(
            "jaspy_interface_up",
            MetricValue::Uint64(1),
            &[("fqdn", "b.example.com"), ("name", "b1")],
        ),
        metric("jaspy_device_up", MetricValue::Int64(1), &[("name", "nameless")]),
        metric("something_else", MetricValue::Int64(1), &[("fqdn", "c.example.com")]),
        metric("jaspy_interface_up", MetricValue::Int64(1), &[("fqdn", "d.example.com"), ("neighbors", "no")]),
    ];
    let state = state_information(&metrics);
    assert_eq!(state.devices.len(), 4);
    let a = state.devices.get(&text("a.example.com")).unwrap();
    assert!(a.state);
    assert_eq!(a.interfaces.len(), 2);
    assert!(a.interfaces.get(&text("a1")).unwrap().state);
    assert!(!a.interfaces.get(&text("a2")).unwrap().state);
    assert!(a.interfaces.get(&text("a3")).is_none());
    let b = state.devices.get(&text("b.example.com")).unwrap();
    assert!(!b.state);
    assert!(b.interfaces.get(&text("b1")).unwrap().state);
    let c = state.devices.get(&text("c.example.com")).unwrap();
    assert!(!c.state);
    assert_eq!(c.interfaces.len(), 0);
    assert_eq!(state.devices.get(&text("d.example.com")).unwrap().interfaces.len(), 0);
}

#[test]
fn second_sighting_of_an_interface_is_skipped() {
    let metrics = vec![
        metric(
            "jaspy_interface_up",
            MetricValue::Int64(1),
            &[("fqdn", "a.example.com"), ("name", "a1"), ("neighbors", "yes")],
        ),
        metric(
            "jaspy_interface_up",
            MetricValue::Int64(0),
            &[("fqdn", "a.example.com"), ("name", "a1"), ("neighbors", "yes")],
        ),
        metric("jaspy_device_up", MetricValue::Int64(0), &[("fqdn", "a.example.com")]),
        metric("jaspy_device_up", MetricValue::Int64(2), &[("fqdn", "a.example.com")]),
        metric("jaspy_device_up", MetricValue::Uint64(1), &[("fqdn", "b.example.com")]),
    ];
    let state = state_information(&metrics);
    let a = state.devices.get(&text("a.example.com")).unwrap();
    assert_eq!(a.interfaces.len(), 1);
    assert!(a.interfaces.get(&text("a1")).unwrap().state);
    assert!(!a.state);
    assert!(state.devices.get(&text("b.example.com")).unwrap().state);
    assert_eq!(state_information(&Vec::new()).devices.len(), 0);
}

#[test]
fn live_view_of_a_store() {
    let mut imds = IMDS::new();
    let fqdn = text("sw1.example.com");
    let kind = text("ethernet");
    imds.refresh_device_at(&fqdn, 0);
    imds.refresh_interface_at(&fqdn, 1, &kind, &text("Gi0/1"), true, None, 0);
    imds.refresh_interface_at(&fqdn, 2, &kind, &text("Gi0/2"), false, None, 0);
    let inv = Inventory::new();
    imds.report_device(&inv, DeviceMonitorReport { fqdn: fqdn.clone(), up: true });
    let up = |if_index: i32, up: bool| InterfaceReport {
        if_index,
        in_octets: None,
        out_octets: None,
        in_packets: None,
        out_packets: None,
        in_errors: None,
        out_errors: None,
        up: Some(up),
        speed: None,
    };
    imds.report_interfaces(
        &inv,
        InterfaceMonitorReport { device_fqdn: fqdn.clone(), interfaces: vec![up(1, false), up(2, true)] },
    );
    let state = state_information(&imds.get_fast_metrics());
    assert_eq!(state.devices.len(), 1);
    let dev = state.devices.get(&fqdn).unwrap();
    assert!(dev.state);
    assert_eq!(dev.interfaces.len(), 1);
    assert!(!dev.interfaces.get(&text("Gi0/1")).unwrap().state);
}
