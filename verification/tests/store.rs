use jaspy::clock::{deadline_after, from_seconds, is_expired, METRIC_TTL, NANOS_PER_SECOND};
use jaspy::events::{Event, LinkStatus};
use jaspy::imds::IMDS;
use jaspy::inventory::{Device, Interface, Inventory};
use jaspy::reports::{DeviceMonitorReport, InterfaceMonitorReport, InterfaceReport};

fn text(s: &str) -> String {
    s.to_string()
}

fn device(id: i32, name: &str) -> Device {
    Device { id, name: text(name), dns_domain: text("example.com") }
}

fn interface(id: i32, index: i32, name: &str, device_id: i32, peer: Option<i32>) -> Interface {
    Interface {
        id,
        index,
        name: text(name),
        interface_type: text("ethernet"),
        speed_override: None,
        connected_interface: peer,
        device_id,
    }
}

fn blank(if_index: i32) -> InterfaceReport {
    InterfaceReport {
        if_index,
        in_octets: None,
        out_octets: None,
        in_packets: None,
        out_packets: None,
        in_errors: None,
        out_errors: None,
        up: None,
        speed: None,
    }
}

fn up_report(if_index: i32, up: bool) -> InterfaceReport {
    InterfaceReport { up: Some(up), ..blank(if_index) }
}

fn interfaces_report(fqdn: &str, interfaces: Vec<InterfaceReport>) -> InterfaceMonitorReport {
    InterfaceMonitorReport { device_fqdn: text(fqdn), interfaces }
}

/// sw1 (interface 1, Gi0/1) cabled to sw2 (interface 5, Gi0/5).
fn two_switches() -> Inventory {
    Inventory {
        devices: vec![device(1, "sw1"), device(2, "sw2")],
        interfaces: vec![
            interface(10, 1, "Gi0/1", 1, Some(20)),
            interface(20, 5, "Gi0/5", 2, Some(10)),
        ],
    }
}

fn store_with_sw1() -> IMDS {
    let mut imds = IMDS::new();
    let fqdn = text("sw1.example.com");
    imds.refresh_device_at(&fqdn, 0);
    imds.refresh_interface_at(&fqdn, 1, &text("ethernet"), &text("Gi0/1"), true, None, 0);
    imds
}

#[test]
fn first_ingest_is_silent() {
    let mut imds = store_with_sw1();
    let events =
        imds.report_interfaces(&two_switches(), interfaces_report("sw1.example.com", vec![up_report(1, true)]));
    assert!(events.is_empty());
    let dev = imds.get_device(&text("sw1.example.com")).unwrap();
    assert_eq!(dev.interface(1).unwrap().up, Some(true));
}

#[test]
fn up_to_down_emits_interface_change() {
    let mut imds = store_with_sw1();
    let inv = two_switches();
    imds.report_interfaces(&inv, interfaces_report("sw1.example.com", vec![up_report(1, true)]));
    let events =
        imds.report_interfaces(&inv, interfaces_report("sw1.example.com", vec![up_report(1, false)]));
    assert_eq!(events.len(), 1);
    match &events[0] {
        Event::InterfaceChange {
            fqdn,
            interface_name,
            neighbor_fqdn,
            link_statuses,
            old_up,
            new_up,
        } => {
            assert_eq!(fqdn, "sw1.example.com");
            assert_eq!(interface_name, "Gi0/1");
            assert_eq!(neighbor_fqdn.as_deref(), Some("sw2.example.com"));
            assert_eq!(link_statuses.len(), 1);
            assert_eq!(link_statuses.get(&text("Gi0/1")), Some(&LinkStatus::Down));
            assert!(*old_up);
            assert!(!*new_up);
        },
        other => panic!("unexpected event {:?}", other),
    }
    assert_eq!(events[0].kind(), "interface_change");
    let dev = imds.get_device(&text("sw1.example.com")).unwrap();
    assert_eq!(dev.interface(1).unwrap().up, Some(false));
}

#[test]
fn same_liveness_again_is_silent() {
    let mut imds = store_with_sw1();
    let inv = two_switches();
    imds.report_interfaces(&inv, interfaces_report("sw1.example.com", vec![up_report(1, true)]));
    let events =
        imds.report_interfaces(&inv, interfaces_report("sw1.example.com", vec![up_report(1, true)]));
    assert!(events.is_empty());
    let events = imds.report_interfaces(&inv, interfaces_report("sw1.example.com", vec![blank(1)]));
    assert!(events.is_empty());
    assert_eq!(
        imds.get_device(&text("sw1.example.com")).unwrap().interface(1).unwrap().up,
        Some(true)
    );
}

#[test]
fn events_follow_the_order_of_the_reports() {
    let mut imds = store_with_sw1();
    let inv = two_switches();
    let events = imds.report_interfaces(
        &inv,
        interfaces_report(
            "sw1.example.com",
            vec![up_report(1, true), up_report(1, false), up_report(1, false), up_report(1, true)],
        ),
    );
    assert_eq!(events.len(), 2);
    match (&events[0], &events[1]) {
        (
            Event::InterfaceChange { old_up: a, new_up: b, .. },
            Event::InterfaceChange { old_up: c, new_up: d, link_statuses, .. },
        ) => {
            assert_eq!((*a, *b), (true, false));
            assert_eq!((*c, *d), (false, true));
            assert_eq!(link_statuses.get(&text("Gi0/1")), Some(&LinkStatus::Up));
        },
        other => panic!("unexpected events {:?}", other),
    }
}

#[test]
fn interface_event_without_inventory_has_no_neighbor() {
    let mut imds = store_with_sw1();
    let empty = Inventory::new();
    imds.report_interfaces(&empty, interfaces_report("sw1.example.com", vec![up_report(1, true)]));
    let events =
        imds.report_interfaces(&empty, interfaces_report("sw1.example.com", vec![up_report(1, false)]));
    assert_eq!(events.len(), 1);
    match &events[0] {
        Event::InterfaceChange { neighbor_fqdn, link_statuses, interface_name, .. } => {
            assert!(neighbor_fqdn.is_none());
            assert_eq!(link_statuses.len(), 0);
            assert_eq!(interface_name, "Gi0/1");
        },
        other => panic!("unexpected event {:?}", other),
    }
}

#[test]
fn bundled_links_show_every_local_end() {
    // Two cables between sw1 and sw2: 1 <-> 5 and 2 <-> 6.
    let inv = Inventory {
        devices: vec![device(1, "sw1"), device(2, "sw2"), device(3, "sw3")],
        interfaces: vec![
            interface(10, 1, "Gi0/1", 1, Some(20)),
            interface(11, 2, "Gi0/2", 1, Some(21)),
            interface(12, 3, "Gi0/3", 1, Some(30)),
            interface(20, 5, "Gi0/5", 2, Some(10)),
            interface(21, 6, "Gi0/6", 2, Some(11)),
            interface(22, 7, "Gi0/7", 2, Some(31)),
            interface(30, 1, "Gi0/1", 3, Some(12)),
            interface(31, 2, "Gi0/2", 3, Some(22)),
        ],
    };
    let fqdn = text("sw1.example.com");
    let mut imds = IMDS::new();
    imds.refresh_device_at(&fqdn, 0);
    for (index, name) in [(1, "Gi0/1"), (2, "Gi0/2"), (3, "Gi0/3")] {
        imds.refresh_interface_at(&fqdn, index, &text("ethernet"), &text(name), true, None, 0);
    }
    imds.report_interfaces(
        &inv,
        interfaces_report("sw1.example.com", vec![up_report(1, true), up_report(3, true)]),
    );
    let events =
        imds.report_interfaces(&inv, interfaces_report("sw1.example.com", vec![up_report(1, false)]));
    assert_eq!(events.len(), 1);
    match &events[0] {
        Event::InterfaceChange { neighbor_fqdn, link_statuses, .. } => {
            assert_eq!(neighbor_fqdn.as_deref(), Some("sw2.example.com"));
            assert_eq!(link_statuses.len(), 2);
            assert_eq!(link_statuses.get(&text("Gi0/1")), Some(&LinkStatus::Down));
            assert_eq!(link_statuses.get(&text("Gi0/2")), Some(&LinkStatus::Unknown));
            assert_eq!(link_statuses.get(&text("Gi0/3")), None);
        },
        other => panic!("unexpected event {:?}", other),
    }
}

#[test]
fn device_liveness_events() {
    let mut imds = IMDS::new();
    let fqdn = text("r1.example.com");
    imds.refresh_device_at(&fqdn, 0);
    let isolated = Inventory { devices: vec![device(7, "r1")], interfaces: vec![] };
    let first =
        imds.report_device(&isolated, DeviceMonitorReport { fqdn: fqdn.clone(), up: true });
    assert!(first.is_none());
    assert_eq!(imds.get_device(&fqdn).unwrap().up, Some(true));
    let second =
        imds.report_device(&isolated, DeviceMonitorReport { fqdn: fqdn.clone(), up: false });
    match second {
        Some(Event::PingChange { fqdn: name, neighbors, old_up, new_up }) => {
            assert_eq!(name, "r1.example.com");
            assert_eq!(neighbors.len(), 0);
            assert!(old_up);
            assert!(!new_up);
        },
        other => panic!("unexpected event {:?}", other),
    }
    assert_eq!(imds.get_device(&fqdn).unwrap().up, Some(false));
    let third =
        imds.report_device(&isolated, DeviceMonitorReport { fqdn: fqdn.clone(), up: false });
    assert!(third.is_none());
}

#[test]
fn ping_change_names_each_neighbor_once() {
    let inv = Inventory {
        devices: vec![device(1, "sw1"), device(2, "sw2"), device(3, "sw3")],
        interfaces: vec![
            interface(10, 1, "Gi0/1", 1, Some(20)),
            interface(11, 2, "Gi0/2", 1, Some(21)),
            interface(12, 3, "Gi0/3", 1, Some(30)),
            interface(13, 4, "Gi0/4", 1, None),
            interface(20, 5, "Gi0/5", 2, Some(10)),
            interface(21, 6, "Gi0/6", 2, Some(11)),
            interface(30, 1, "Gi0/1", 3, Some(12)),
        ],
    };
    let fqdn = text("sw1.example.com");
    let mut imds = IMDS::new();
    imds.refresh_device_at(&fqdn, 0);
    imds.report_device(&inv, DeviceMonitorReport { fqdn: fqdn.clone(), up: false });
    let event = imds.report_device(&inv, DeviceMonitorReport { fqdn: fqdn.clone(), up: true });
    match event {
        Some(Event::PingChange { neighbors, old_up, new_up, .. }) => {
            assert_eq!(neighbors.len(), 2);
            assert!(neighbors.contains(&text("sw2.example.com")));
            assert!(neighbors.contains(&text("sw3.example.com")));
            assert!(!neighbors.contains(&text("sw1.example.com")));
            assert!(!old_up);
            assert!(new_up);
        },
        other => panic!("unexpected event {:?}", other),
    }
    assert_eq!(Event::ping_change_event(&fqdn, jaspy::string_set::StringSet::new(), true, false).kind(), "ping_change");
}

#[test]
fn device_change_unknown_to_inventory_updates_state_without_event() {
    let mut imds = IMDS::new();
    let fqdn = text("r1.example.com");
    imds.refresh_device_at(&fqdn, 0);
    let empty = Inventory::new();
    imds.report_device(&empty, DeviceMonitorReport { fqdn: fqdn.clone(), up: true });
    let event = imds.report_device(&empty, DeviceMonitorReport { fqdn: fqdn.clone(), up: false });
    assert!(event.is_none());
    assert_eq!(imds.get_device(&fqdn).unwrap().up, Some(false));
}

#[test]
fn reports_on_unknown_subjects_are_dropped() {
    let mut imds = store_with_sw1();
    let inv = two_switches();
    let event = imds.report_device(&inv, DeviceMonitorReport { fqdn: text("sw2.example.com"), up: true });
    assert!(event.is_none());
    assert!(imds.get_device(&text("sw2.example.com")).is_none());
    let events =
        imds.report_interfaces(&inv, interfaces_report("sw2.example.com", vec![up_report(5, true)]));
    assert!(events.is_empty());
    assert_eq!(imds.len(), 1);
    let events = imds.report_interfaces(
        &inv,
        interfaces_report(
            "sw1.example.com",
            vec![
                InterfaceReport { in_octets: Some(5), ..blank(9) },
                InterfaceReport { in_octets: Some(7), ..blank(1) },
            ],
        ),
    );
    assert!(events.is_empty());
    let dev = imds.get_device(&text("sw1.example.com")).unwrap();
    assert_eq!(dev.interfaces.len(), 1);
    assert!(dev.interface(9).is_none());
    assert_eq!(dev.interface(1).unwrap().in_octets, Some(7));
}

#[test]
fn prune_ladder() {
    let mut imds = IMDS::new();
    let fqdn = text("d.example.com");
    imds.refresh_device_at(&fqdn, from_seconds(0));
    imds.refresh_interface_at(&fqdn, 1, &text("ethernet"), &text("Gi0/1"), false, None, from_seconds(0));
    imds.report_device(&Inventory::new(), DeviceMonitorReport { fqdn: fqdn.clone(), up: true });
    assert_eq!(imds.get_fast_metrics().len(), 1);
    imds.prune_at(from_seconds(70));
    assert_eq!(imds.len(), 0);
    assert!(imds.get_device(&fqdn).is_none());
    assert!(imds.get_fast_metrics().is_empty());
    assert!(imds.get_metrics().is_empty());
}

#[test]
fn prune_keeps_what_is_live_and_drops_expired_interfaces() {
    let mut imds = IMDS::new();
    let a = text("a.example.com");
    let b = text("b.example.com");
    let z = text("z.example.com");
    let kind = text("ethernet");
    imds.refresh_device_at(&a, from_seconds(0));
    imds.refresh_interface_at(&a, 1, &kind, &text("a1"), false, None, from_seconds(50));
    imds.refresh_device_at(&b, from_seconds(0));
    imds.refresh_interface_at(&b, 1, &kind, &text("b1"), false, None, from_seconds(0));
    imds.refresh_interface_at(&b, 2, &kind, &text("b2"), false, None, from_seconds(30));
    imds.refresh_device_at(&b, from_seconds(30));
    imds.refresh_device_at(&z, from_seconds(40));
    imds.refresh_interface_at(&z, 1, &kind, &text("z1"), false, None, from_seconds(0));
    // At 61 s: a expired (its live interface goes with it), b stays without b1, z stays without z1.
    let now = from_seconds(61);
    imds.prune_at(now);
    assert_eq!(imds.len(), 2);
    assert!(imds.get_device(&a).is_none());
    let dev_b = imds.get_device(&b).unwrap();
    assert_eq!(dev_b.interfaces.len(), 1);
    assert!(dev_b.interface(1).is_none());
    assert_eq!(dev_b.interface(2).unwrap().name, "b2");
    assert!(imds.get_device(&z).unwrap().interfaces.is_empty());
    for fqdn in [&b, &z] {
        let dev = imds.get_device(fqdn).unwrap();
        assert!(dev.expiry >= now);
        for i in dev.interfaces.iter() {
            assert!(i.expiry >= now);
        }
    }
}

#[test]
fn prune_at_the_expiry_itself_keeps_the_record() {
    let mut imds = IMDS::new();
    let fqdn = text("d.example.com");
    imds.refresh_device_at(&fqdn, 0);
    imds.prune_at(METRIC_TTL);
    assert_eq!(imds.len(), 1);
    imds.prune_at(METRIC_TTL + 1);
    assert_eq!(imds.len(), 0);
}

#[test]
fn refresh_device_extends_expiry_and_keeps_the_rest() {
    let mut imds = store_with_sw1();
    let fqdn = text("sw1.example.com");
    imds.report_device(&Inventory::new(), DeviceMonitorReport { fqdn: fqdn.clone(), up: true });
    let before = imds.get_device(&fqdn).unwrap().expiry;
    assert_eq!(before, METRIC_TTL);
    imds.refresh_device_at(&fqdn, from_seconds(5));
    let dev = imds.get_device(&fqdn).unwrap();
    assert_eq!(dev.expiry, 65 * NANOS_PER_SECOND);
    assert!(dev.expiry >= before);
    assert_eq!(dev.up, Some(true));
    assert_eq!(dev.interfaces.len(), 1);
    assert_eq!(dev.interface(1).unwrap().expiry, METRIC_TTL);
    assert_eq!(imds.len(), 1);
}

#[test]
fn refresh_device_creates_a_blank_device() {
    let mut imds = IMDS::new();
    let fqdn = text("new.example.com");
    imds.refresh_device_at(&fqdn, 7);
    let dev = imds.get_device(&fqdn).unwrap();
    assert_eq!(dev.fqdn, "new.example.com");
    assert_eq!(dev.expiry, METRIC_TTL + 7);
    assert_eq!(dev.up, None);
    assert!(dev.interfaces.is_empty());
}

#[test]
fn refresh_interface_needs_its_device() {
    let mut imds = IMDS::new();
    imds.refresh_interface_at(&text("ghost.example.com"), 1, &text("ethernet"), &text("x"), false, None, 0);
    assert_eq!(imds.len(), 0);
}

#[test]
fn refresh_interface_updates_static_fields_and_keeps_measurements() {
    let mut imds = store_with_sw1();
    let fqdn = text("sw1.example.com");
    imds.report_interfaces(
        &Inventory::new(),
        interfaces_report(
            "sw1.example.com",
            vec![InterfaceReport { in_octets: Some(11), up: Some(true), speed: Some(1000), ..blank(1) }],
        ),
    );
    imds.refresh_interface_at(&fqdn, 1, &text("optical"), &text("Te0/1"), false, Some(10000), from_seconds(3));
    let dev = imds.get_device(&fqdn).unwrap();
    let i = dev.interface(1).unwrap();
    assert_eq!(i.name, "Te0/1");
    assert!(!i.neighbors);
    assert_eq!(i.speed_override, Some(10000));
    assert_eq!(i.expiry, 63 * NANOS_PER_SECOND);
    assert_eq!(i.interface_type, "ethernet");
    assert_eq!(i.in_octets, Some(11));
    assert_eq!(i.up, Some(true));
    assert_eq!(i.speed, Some(1000));
    assert_eq!(dev.interfaces.len(), 1);
}

#[test]
fn refresh_interface_creates_a_blank_interface() {
    let imds = store_with_sw1();
    let dev = imds.get_device(&text("sw1.example.com")).unwrap();
    let i = dev.interface(1).unwrap();
    assert_eq!(i.if_index, 1);
    assert_eq!(i.name, "Gi0/1");
    assert_eq!(i.interface_type, "ethernet");
    assert!(i.neighbors);
    assert_eq!(i.speed_override, None);
    assert_eq!(i.expiry, METRIC_TTL);
    assert_eq!(
        (i.in_octets, i.out_octets, i.in_packets, i.out_packets, i.in_errors, i.out_errors),
        (None, None, None, None, None, None)
    );
    assert_eq!(i.up, None);
    assert_eq!(i.speed, None);
}

#[test]
fn absent_fields_leave_the_latest_reported_value() {
    let mut imds = store_with_sw1();
    let inv = Inventory::new();
    imds.report_interfaces(
        &inv,
        interfaces_report(
            "sw1.example.com",
            vec![
                InterfaceReport { in_octets: Some(1), out_octets: Some(2), ..blank(1) },
                InterfaceReport { in_octets: Some(10), in_errors: Some(3), ..blank(1) },
                InterfaceReport { out_packets: Some(4), speed: Some(100), ..blank(1) },
            ],
        ),
    );
    imds.report_interfaces(
        &inv,
        interfaces_report("sw1.example.com", vec![InterfaceReport { out_octets: Some(20), ..blank(1) }, blank(1)]),
    );
    let dev = imds.get_device(&text("sw1.example.com")).unwrap();
    let i = dev.interface(1).unwrap();
    assert_eq!(i.in_octets, Some(10));
    assert_eq!(i.out_octets, Some(20));
    assert_eq!(i.in_packets, None);
    assert_eq!(i.out_packets, Some(4));
    assert_eq!(i.in_errors, Some(3));
    assert_eq!(i.out_errors, None);
    assert_eq!(i.speed, Some(100));
    assert_eq!(i.up, None);
}

#[test]
fn deadlines_and_expiry() {
    assert_eq!(METRIC_TTL, 60 * NANOS_PER_SECOND);
    assert_eq!(deadline_after(0, METRIC_TTL), 60_000_000_000);
    assert_eq!(deadline_after(5, 10), 15);
    assert_eq!(deadline_after(u64::MAX - 3, 10), u64::MAX);
    assert_eq!(deadline_after(u64::MAX - 10, 10), u64::MAX);
    assert_eq!(from_seconds(70), 70_000_000_000);
    assert_eq!(from_seconds(18_446_744_073), 18_446_744_073_000_000_000);
    assert_eq!(from_seconds(18_446_744_074), u64::MAX);
    assert!(is_expired(10, 11));
    assert!(!is_expired(10, 10));
    assert!(!is_expired(10, 9));
}

#[test]
fn clock_driven_operations_keep_what_was_just_refreshed() {
    let mut imds = IMDS::new();
    let fqdn = text("live.example.com");
    imds.refresh_device(&fqdn);
    imds.refresh_interface(&fqdn, 1, &text("ethernet"), &text("Gi0/1"), false, None);
    let first = imds.get_device(&fqdn).unwrap().expiry;
    assert!(first >= METRIC_TTL);
    imds.prune();
    let dev = imds.get_device(&fqdn).unwrap();
    assert_eq!(dev.interfaces.len(), 1);
    imds.refresh_device(&fqdn);
    assert!(imds.get_device(&fqdn).unwrap().expiry >= first);
}
