use jaspy::imds::IMDS;
use jaspy::inventory::Inventory;
use jaspy::option82::{
    locate_client, parse_hex_i32, put_clientlocation, split_fields, ClientLocation,
    ClientLocationWrite,
};
use jaspy::projection::{LabeledMetric, MetricValue};
use jaspy::reports::{DeviceMonitorReport, InterfaceMonitorReport, InterfaceReport};
use jaspy::scrape::{push_metric_line, render};
use jaspy::string_map::StringMap;
use jaspy::text::{push_decimal, push_decimal_nat};

fn text(s: &str) -> String {
    s.to_string()
}

fn metric(name: &str, value: MetricValue, labels: &[(&str, &str)]) -> LabeledMetric {
    let mut map: StringMap<String> = StringMap::new();
    for (k, v) in labels {
        map.insert(text(k), text(v));
    }
    LabeledMetric { name: text(name), value, labels: map }
}

fn decimal(v: i64) -> String {
    let mut s = String::new();
    push_decimal(&mut s, v);
    s
}

#[test]
fn decimals_are_written_as_std_writes_them() {
    for v in [0i64, 7, 10, 99, 100, 12345, -1, -10, -2147483648, 2147483647, i64::MAX, i64::MIN] {
        assert_eq!(decimal(v), format!("{}", v));
    }
    for v in [0u64, 9, 10, 1009, u64::MAX] {
        let mut s = text("x=");
        push_decimal_nat(&mut s, v);
        assert_eq!(s, format!("x={}", v));
    }
}

#[test]
fn fields_are_split_at_colons() {
    assert_eq!(split_fields(&text("")), vec![text("")]);
    assert_eq!(split_fields(&text("abc")), vec![text("abc")]);
    assert_eq!(split_fields(&text("a:b")), vec![text("a"), text("b")]);
    assert_eq!(split_fields(&text(":")), vec![text(""), text("")]);
    assert_eq!(split_fields(&text("a::b:")), vec![text("a"), text(""), text("b"), text("")]);
    assert_eq!(split_fields(&text("é:ü")), vec![text("é"), text("ü")]);
    for s in ["", "a", ":", "::", "00:04:00:01:02:1f", "x:y:", ":x"] {
        let expected: Vec<String> = s.split(':').map(|p| p.to_string()).collect();
        assert_eq!(split_fields(&text(s)), expected);
    }
}

#[test]
fn hexadecimal_numbers_are_read_as_std_reads_them() {
    for s in [
        "", "0", "1f", "1F", "ff", "+a", "-a", "-", "+", "+-1", "7fffffff", "80000000", "-80000000",
        "-80000001", "0000000000ff", "g", "1g", " 1", "1 ", "0x10", "ffffffff", "100000000",
        "-0", "é", "12é",
    ] {
        assert_eq!(parse_hex_i32(&text(s)), i32::from_str_radix(s, 16).ok(), "for {:?}", s);
    }
    assert_eq!(parse_hex_i32(&text("1f")), Some(31));
    assert_eq!(parse_hex_i32(&text("-80000000")), Some(i32::MIN));
    assert_eq!(parse_hex_i32(&text("80000000")), None);
}

#[test]
fn client_is_located_from_relay_agent_information() {
    let place = locate_client(&text("00:04:00:01:0a:1f"), &text("01:06:aa:bb:cc:dd:ee:ff")).unwrap();
    assert_eq!(place.port_info, "10/31");
    assert_eq!(place.switch_base_mac, "aa:bb:cc:dd:ee:ff");
    let place = locate_client(&text("::::-1:+0"), &text(":::::::")).unwrap();
    assert_eq!(place.port_info, "-1/0");
    assert_eq!(place.switch_base_mac, ":::::");
    assert!(locate_client(&text("00:04:00:01:0a"), &text("01:06:aa:bb:cc:dd:ee:ff")).is_none());
    assert!(locate_client(&text("00:04:00:01:0a:1f:00"), &text("01:06:aa:bb:cc:dd:ee:ff")).is_none());
    assert!(locate_client(&text("00:04:00:01:0a:1f"), &text("01:06:aa:bb:cc:dd:ee")).is_none());
    assert!(locate_client(&text("00:04:00:01:zz:1f"), &text("01:06:aa:bb:cc:dd:ee:ff")).is_none());
    assert!(locate_client(&text("00:04:00:01:0a:"), &text("01:06:aa:bb:cc:dd:ee:ff")).is_none());
    assert!(locate_client(&text(""), &text("")).is_none());
}

#[test]
fn metrics_are_written_as_scrape_text() {
    let metrics = vec![
        metric(
            "jaspy_interface_octets",
            MetricValue::Uint64(42),
            &[("fqdn", "sw1.example.com"), ("name", "Gi0/1"), ("direction", "rx")],
        ),
        metric("jaspy_interface_speed", MetricValue::Int64(-5), &[("name", "a\"b\\c")]),
        metric("bare", MetricValue::Uint64(u64::MAX), &[]),
    ];
    assert_eq!(
        render(&metrics),
        "jaspy_interface_octets{fqdn=\"sw1.example.com\",name=\"Gi0/1\",direction=\"rx\"} 42\n\
         jaspy_interface_speed{name=\"a\\\"b\\\\c\"} -5\n\
         bare 18446744073709551615\n"
    );
    assert_eq!(render(&Vec::new()), "");
    let mut line = text("# ");
    push_metric_line(&mut line, &metrics[2]);
    assert_eq!(line, "# bare 18446744073709551615\n");
}

#[test]
fn store_projection_as_scrape_text() {
    let mut imds = IMDS::new();
    let fqdn = text("sw1.example.com");
    imds.refresh_device_at(&fqdn, 0);
    imds.refresh_interface_at(&fqdn, 1, &text("ethernet"), &text("Gi0/1"), true, None, 0);
    imds.report_device(&Inventory::new(), DeviceMonitorReport { fqdn: fqdn.clone(), up: true });
    assert_eq!(render(&imds.get_fast_metrics()), "jaspy_device_up{fqdn=\"sw1.example.com\"} 1\n");
}

#[test]
fn reports_tell_whether_they_read_the_inventory() {
    let mut imds = IMDS::new();
    let fqdn = text("sw1.example.com");
    imds.refresh_device_at(&fqdn, 0);
    imds.refresh_interface_at(&fqdn, 1, &text("ethernet"), &text("Gi0/1"), true, None, 0);
    let up = DeviceMonitorReport { fqdn: fqdn.clone(), up: true };
    let down = DeviceMonitorReport { fqdn: fqdn.clone(), up: false };
    let other = DeviceMonitorReport { fqdn: text("other.example.com"), up: false };
    assert!(!imds.device_report_reads_inventory(&up));
    imds.report_device(&Inventory::new(), DeviceMonitorReport { fqdn: fqdn.clone(), up: true });
    assert!(!imds.device_report_reads_inventory(&up));
    assert!(imds.device_report_reads_inventory(&down));
    assert!(!imds.device_report_reads_inventory(&other));
    let blank = |if_index: i32| InterfaceReport {
        if_index,
        in_octets: Some(1),
        out_octets: None,
        in_packets: None,
        out_packets: None,
        in_errors: None,
        out_errors: None,
        up: None,
        speed: None,
    };
    let counters = InterfaceMonitorReport { device_fqdn: fqdn.clone(), interfaces: vec![blank(1), blank(2)] };
    assert!(!imds.interface_reports_read_inventory(&counters));
    let elsewhere = InterfaceMonitorReport {
        device_fqdn: fqdn.clone(),
        interfaces: vec![InterfaceReport { up: Some(true), ..blank(2) }],
    };
    assert!(!imds.interface_reports_read_inventory(&elsewhere));
    let liveness = InterfaceMonitorReport {
        device_fqdn: fqdn.clone(),
        interfaces: vec![blank(1), InterfaceReport { up: Some(true), ..blank(1) }],
    };
    assert!(imds.interface_reports_read_inventory(&liveness));
    let unknown = InterfaceMonitorReport {
        device_fqdn: text("other.example.com"),
        interfaces: vec![InterfaceReport { up: Some(true), ..blank(1) }],
    };
    assert!(!imds.interface_reports_read_inventory(&unknown));
}

#[test]
fn client_location_is_written_only_when_it_changes() {
    let held = ClientLocation { device_id: 3, port_info: text("1/2") };
    assert_eq!(put_clientlocation(None, 3, &text("1/2")), ClientLocationWrite::Create);
    assert_eq!(put_clientlocation(Some(&held), 3, &text("1/2")), ClientLocationWrite::Keep);
    assert_eq!(put_clientlocation(Some(&held), 4, &text("1/2")), ClientLocationWrite::Update);
    assert_eq!(put_clientlocation(Some(&held), 3, &text("1/3")), ClientLocationWrite::Update);
}
