use jaspy::inventory::{Device, Interface, Inventory};
use jaspy::position::{
    find_position, get_position_data, put_position_data, PositionWrite, WeathermapDeviceInfo,
};
use jaspy::topology::{
    full_topology_data, full_topology_data_at, get_topology_data, CacheController,
    CachedWeathermapTopology,
};

fn text(s: &str) -> String {
    s.to_string()
}

fn interface(id: i32, index: i32, name: &str, device_id: i32, peer: Option<i32>) -> Interface {
    Interface {
        id,
        index,
        name: text(name),
        interface_type: text("ethernet"),
        speed_override: None,
        connected_interface: peer,
        device_id,
    }
}

fn device(id: i32, name: &str) -> Device {
    Device { id, name: text(name), dns_domain: text("example.com") }
}

fn inventory() -> Inventory {
    Inventory {
        devices: vec![device(1, "sw1"), device(2, "sw2")],
        interfaces: vec![
            interface(10, 1, "Gi0/1", 1, Some(20)),
            interface(11, 2, "Gi0/2", 1, None),
            interface(20, 5, "Gi0/5", 2, Some(10)),
        ],
    }
}

const SECOND: u64 = 1_000_000_000;

#[test]
fn topology_joins_devices_interfaces_and_peers() {
    let topo = get_topology_data(&inventory());
    assert_eq!(topo.devices.len(), 2);
    let sw1 = topo.devices.get(&text("sw1.example.com")).unwrap();
    assert_eq!(sw1.fqdn, "sw1.example.com");
    assert_eq!(sw1.interfaces.len(), 2);
    let gi1 = sw1.interfaces.get(&text("Gi0/1")).unwrap();
    assert_eq!(gi1.name, "Gi0/1");
    assert_eq!(gi1.if_index, 1);
    let to = gi1.connected_to.as_ref().unwrap();
    assert_eq!(to.fqdn, "sw2.example.com");
    assert_eq!(to.interface, "Gi0/5");
    assert!(sw1.interfaces.get(&text("Gi0/2")).unwrap().connected_to.is_none());
    let sw2 = topo.devices.get(&text("sw2.example.com")).unwrap();
    let back = sw2.interfaces.get(&text("Gi0/5")).unwrap().connected_to.as_ref().unwrap();
    assert_eq!(back.fqdn, "sw1.example.com");
    assert_eq!(back.interface, "Gi0/1");
    assert_eq!(get_topology_data(&Inventory::new()).devices.len(), 0);
}

#[test]
fn later_records_of_the_same_name_replace_earlier_ones() {
    let inv = Inventory {
        devices: vec![device(1, "sw1"), device(2, "sw1")],
        interfaces: vec![
            interface(10, 1, "Gi0/1", 1, None),
            interface(20, 7, "Te0/1", 2, None),
            interface(21, 8, "Te0/1", 2, None),
        ],
    };
    let topo = get_topology_data(&inv);
    assert_eq!(topo.devices.len(), 1);
    let sw1 = topo.devices.get(&text("sw1.example.com")).unwrap();
    assert_eq!(sw1.interfaces.len(), 1);
    assert_eq!(sw1.interfaces.get(&text("Te0/1")).unwrap().if_index, 8);
}

#[test]
fn reads_within_validity_are_equal_and_later_reads_rebuild() {
    let mut cache = CacheController::new();
    assert!(!cache.is_fresh_at(0));
    assert!(cache.lookup_at(0).is_none());
    let first = full_topology_data_at(&mut cache, &inventory(), 100 * SECOND);
    assert_eq!(first.devices.len(), 2);
    assert_eq!(cache.cached_weathermap_topology.as_ref().unwrap().valid_until, 110 * SECOND);
    // The inventory changes, the cache does not see it while it is fresh.
    let mut changed = inventory();
    changed.devices.push(device(3, "sw3"));
    assert!(cache.is_fresh_at(110 * SECOND - 1));
    let second = full_topology_data_at(&mut cache, &changed, 110 * SECOND - 1);
    assert_eq!(second.devices.len(), 2);
    assert!(second.devices.get(&text("sw3.example.com")).is_none());
    assert_eq!(cache.lookup_at(105 * SECOND).unwrap().devices.len(), 2);
    assert_eq!(cache.cached_weathermap_topology.as_ref().unwrap().valid_until, 110 * SECOND);
    // At the end of the validity the read rebuilds.
    assert!(!cache.is_fresh_at(110 * SECOND));
    assert!(cache.lookup_at(110 * SECOND).is_none());
    let third = full_topology_data_at(&mut cache, &changed, 110 * SECOND);
    assert_eq!(third.devices.len(), 3);
    assert!(third.devices.get(&text("sw3.example.com")).is_some());
    assert_eq!(cache.cached_weathermap_topology.as_ref().unwrap().valid_until, 120 * SECOND);
}

#[test]
fn cached_topology_validity() {
    let cached = CachedWeathermapTopology::new_at(get_topology_data(&inventory()), 5);
    assert_eq!(cached.valid_until, 10 * SECOND + 5);
    assert_eq!(cached.weathermap_topology.devices.len(), 2);
    let late = CachedWeathermapTopology::new_at(get_topology_data(&Inventory::new()), u64::MAX - 1);
    assert_eq!(late.valid_until, u64::MAX);
}

#[test]
fn clock_driven_read_serves_the_cache_right_after_a_rebuild() {
    let mut cache = CacheController::new();
    let first = full_topology_data(&mut cache, &inventory());
    assert_eq!(first.devices.len(), 2);
    let second = full_topology_data(&mut cache, &Inventory::new());
    assert_eq!(second.devices.len(), 2);
}

#[test]
fn positions_are_paired_with_devices_by_name() {
    let inv = Inventory {
        devices: vec![device(1, "sw1"), device(2, "sw2"), device(3, "sw3"), device(4, "sw1")],
        interfaces: vec![],
    };
    let infos = vec![
        WeathermapDeviceInfo { id: 100, device_id: 2 },
        WeathermapDeviceInfo { id: 101, device_id: 4 },
        WeathermapDeviceInfo { id: 102, device_id: 2 },
        WeathermapDeviceInfo { id: 103, device_id: 9 },
    ];
    assert_eq!(find_position(&infos, 2), Some(WeathermapDeviceInfo { id: 100, device_id: 2 }));
    assert_eq!(find_position(&infos, 1), None);
    let positions = get_position_data(&inv, &infos);
    assert_eq!(positions.len(), 2);
    assert_eq!(positions.get(&text("sw2.example.com")), Some(&100));
    assert_eq!(positions.get(&text("sw1.example.com")), Some(&101));
    assert_eq!(positions.get(&text("sw3.example.com")), None);
    assert_eq!(put_position_data(&inv, &infos, &text("sw2.example.com")), PositionWrite::Update { id: 100 });
    assert_eq!(put_position_data(&inv, &infos, &text("sw1.example.com")), PositionWrite::Create { device_id: 1 });
    assert_eq!(put_position_data(&inv, &infos, &text("sw3.example.com")), PositionWrite::Create { device_id: 3 });
    assert_eq!(put_position_data(&inv, &infos, &text("sw9.example.com")), PositionWrite::UnknownDevice);
    assert_eq!(get_position_data(&Inventory::new(), &infos).len(), 0);
}
