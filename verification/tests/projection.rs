use jaspy::imds::IMDS;
use jaspy::inventory::Inventory;
use jaspy::projection::{LabeledMetric, MetricValue};
use jaspy::reports::{DeviceMonitorReport, InterfaceMonitorReport, InterfaceReport};
use jaspy::string_map::StringMap;

fn text(s: &str) -> String {
    s.to_string()
}

fn blank(if_index: i32) -> InterfaceReport {
    InterfaceReport {
        if_index,
        in_octets: None,
        out_octets: None,
        in_packets: None,
        out_packets: None,
        in_errors: None,
        out_errors: None,
        up: None,
        speed: None,
    }
}

fn label<'a>(m: &'a LabeledMetric, key: &str) -> Option<&'a str> {
    m.labels.get(&text(key)).map(|s| s.as_str())
}

fn count(metrics: &[LabeledMetric], name: &str, direction: &str) -> usize {
    metrics.iter().filter(|m| m.name == name && label(m, "direction") == Some(direction)).count()
}

fn report(imds: &mut IMDS, fqdn: &str, interfaces: Vec<InterfaceReport>) {
    imds.report_interfaces(
        &Inventory::new(),
        InterfaceMonitorReport { device_fqdn: text(fqdn), interfaces },
    );
}

#[test]
fn speed_override_wins_over_reported_speed() {
    let mut imds = IMDS::new();
    let fqdn = text("sw1.example.com");
    imds.refresh_device_at(&fqdn, 0);
    imds.refresh_interface_at(&fqdn, 1, &text("ethernet"), &text("Gi0/1"), true, Some(10000), 0);
    report(&mut imds, "sw1.example.com", vec![InterfaceReport { speed: Some(1000), ..blank(1) }]);
    let metrics = imds.get_metrics();
    assert_eq!(metrics.len(), 1);
    assert_eq!(metrics[0].name, "jaspy_interface_speed");
    assert_eq!(metrics[0].value, MetricValue::Int64(10000));
    assert_eq!(label(&metrics[0], "fqdn"), Some("sw1.example.com"));
    assert_eq!(label(&metrics[0], "name"), Some("Gi0/1"));
    assert_eq!(label(&metrics[0], "interface_type"), Some("ethernet"));
    assert_eq!(label(&metrics[0], "neighbors"), Some("yes"));
    assert_eq!(label(&metrics[0], "direction"), None);
    assert_eq!(metrics[0].labels.len(), 4);
}

#[test]
fn reported_speed_shows_without_override() {
    let mut imds = IMDS::new();
    let fqdn = text("sw1.example.com");
    imds.refresh_device_at(&fqdn, 0);
    imds.refresh_interface_at(&fqdn, 1, &text("ethernet"), &text("Gi0/1"), false, None, 0);
    assert!(imds.get_metrics().is_empty());
    report(&mut imds, "sw1.example.com", vec![InterfaceReport { speed: Some(-5), ..blank(1) }]);
    let metrics = imds.get_metrics();
    assert_eq!(metrics.len(), 1);
    assert_eq!(metrics[0].value, MetricValue::Int64(-5));
    assert_eq!(label(&metrics[0], "neighbors"), Some("no"));
}

#[test]
fn one_metric_per_known_counter() {
    let mut imds = IMDS::new();
    let a = text("a.example.com");
    let b = text("b.example.com");
    let kind = text("ethernet");
    imds.refresh_device_at(&a, 0);
    imds.refresh_interface_at(&a, 1, &kind, &text("a1"), true, None, 0);
    imds.refresh_interface_at(&a, 2, &kind, &text("a2"), false, None, 0);
    imds.refresh_device_at(&b, 0);
    imds.refresh_interface_at(&b, 1, &kind, &text("b1"), true, None, 0);
    report(
        &mut imds,
        "a.example.com",
        vec![
            InterfaceReport {
                in_octets: Some(1),
                out_octets: Some(2),
                in_packets: Some(3),
                out_packets: Some(4),
                in_errors: Some(5),
                out_errors: Some(6),
                ..blank(1)
            },
            InterfaceReport { in_octets: Some(100), out_errors: Some(u64::MAX), ..blank(2) },
        ],
    );
    report(&mut imds, "b.example.com", vec![InterfaceReport { in_octets: Some(7), ..blank(1) }]);
    let metrics = imds.get_metrics();
    assert_eq!(metrics.len(), 9);
    assert_eq!(count(&metrics, "jaspy_interface_octets", "rx"), 3);
    assert_eq!(count(&metrics, "jaspy_interface_octets", "tx"), 1);
    assert_eq!(count(&metrics, "jaspy_interface_packets", "rx"), 1);
    assert_eq!(count(&metrics, "jaspy_interface_packets", "tx"), 1);
    assert_eq!(count(&metrics, "jaspy_interface_errors", "rx"), 1);
    assert_eq!(count(&metrics, "jaspy_interface_errors", "tx"), 2);
    assert_eq!(metrics.iter().filter(|m| m.name == "jaspy_interface_speed").count(), 0);
    let rx: Vec<(&str, &str, MetricValue)> = metrics
        .iter()
        .filter(|m| m.name == "jaspy_interface_octets" && label(m, "direction") == Some("rx"))
        .map(|m| (label(m, "fqdn").unwrap(), label(m, "name").unwrap(), m.value))
        .collect();
    assert!(rx.contains(&("a.example.com", "a1", MetricValue::Uint64(1))));
    assert!(rx.contains(&("a.example.com", "a2", MetricValue::Uint64(100))));
    assert!(rx.contains(&("b.example.com", "b1", MetricValue::Uint64(7))));
    let big = metrics
        .iter()
        .find(|m| m.name == "jaspy_interface_errors" && label(m, "name") == Some("a2"))
        .unwrap();
    assert_eq!(big.value, MetricValue::Uint64(u64::MAX));
    assert_eq!(label(big, "direction"), Some("tx"));
    assert_eq!(label(big, "neighbors"), Some("no"));
    assert_eq!(big.labels.len(), 5);
}

#[test]
fn fast_metrics_show_known_liveness_only() {
    let mut imds = IMDS::new();
    let a = text("a.example.com");
    let b = text("b.example.com");
    let kind = text("ethernet");
    imds.refresh_device_at(&a, 0);
    imds.refresh_interface_at(&a, 1, &kind, &text("a1"), true, None, 0);
    imds.refresh_interface_at(&a, 2, &kind, &text("a2"), false, None, 0);
    imds.refresh_device_at(&b, 0);
    assert!(imds.get_fast_metrics().is_empty());
    imds.report_device(&Inventory::new(), DeviceMonitorReport { fqdn: a.clone(), up: true });
    imds.report_device(&Inventory::new(), DeviceMonitorReport { fqdn: b.clone(), up: false });
    report(&mut imds, "a.example.com", vec![InterfaceReport { up: Some(false), ..blank(2) }]);
    let metrics = imds.get_fast_metrics();
    assert_eq!(metrics.len(), 3);
    let dev_a = metrics
        .iter()
        .find(|m| m.name == "jaspy_device_up" && label(m, "fqdn") == Some("a.example.com"))
        .unwrap();
    assert_eq!(dev_a.value, MetricValue::Int64(1));
    assert_eq!(dev_a.labels.len(), 1);
    let dev_b = metrics
        .iter()
        .find(|m| m.name == "jaspy_device_up" && label(m, "fqdn") == Some("b.example.com"))
        .unwrap();
    assert_eq!(dev_b.value, MetricValue::Int64(0));
    let ifs: Vec<&LabeledMetric> = metrics.iter().filter(|m| m.name == "jaspy_interface_up").collect();
    assert_eq!(ifs.len(), 1);
    assert_eq!(ifs[0].value, MetricValue::Int64(0));
    assert_eq!(label(ifs[0], "fqdn"), Some("a.example.com"));
    assert_eq!(label(ifs[0], "name"), Some("a2"));
    assert_eq!(label(ifs[0], "interface_type"), Some("ethernet"));
    assert_eq!(label(ifs[0], "neighbors"), Some("no"));
    assert_eq!(ifs[0].labels.len(), 4);
}

#[test]
fn labeled_metric_copies_name_and_labels() {
    let mut labels: StringMap<String> = StringMap::new();
    labels.insert(text("k"), text("v"));
    let m = LabeledMetric::new(&text("n"), MetricValue::Uint64(3), &labels);
    labels.insert(text("k"), text("w"));
    assert_eq!(m.name, "n");
    assert_eq!(m.value, MetricValue::Uint64(3));
    assert_eq!(label(&m, "k"), Some("v"));
}
