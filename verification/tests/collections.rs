use jaspy::events::LinkStatus;
use jaspy::inventory::{join_fqdn, Device, Interface, Inventory};
use jaspy::string_map::StringMap;
use jaspy::string_set::StringSet;

fn text(s: &str) -> String {
    s.to_string()
}

#[test]
fn string_map_insert_replaces_in_place() {
    let mut m: StringMap<String> = StringMap::new();
    assert_eq!(m.len(), 0);
    assert!(m.insert(text("a"), text("1")).is_none());
    assert!(m.insert(text("b"), text("2")).is_none());
    assert_eq!(m.insert(text("a"), text("3")), Some(text("1")));
    assert_eq!(m.len(), 2);
    assert_eq!(m.get(&text("a")), Some(&text("3")));
    assert_eq!(m.get(&text("b")), Some(&text("2")));
    assert_eq!(m.get(&text("c")), None);
    assert!(m.contains_key(&text("b")));
    assert!(!m.contains_key(&text("")));
    assert_eq!(m.position(&text("b")), Some(1));
    assert_eq!(m.key_at(0), "a");
    assert_eq!(m.value_at(0), "3");
    assert_eq!(m.key_at(1), "b");
    let copy = m.copy();
    m.insert(text("b"), text("9"));
    assert_eq!(copy.get(&text("b")), Some(&text("2")));
    assert_eq!(copy.len(), 2);
}

#[test]
fn string_set_holds_each_member_once() {
    let mut s = StringSet::new();
    assert!(s.is_empty());
    s.insert(text("x"));
    s.insert(text("y"));
    s.insert(text("x"));
    assert_eq!(s.len(), 2);
    assert!(s.contains(&text("x")));
    assert!(!s.contains(&text("z")));
    assert_eq!(s.member_at(0), "x");
    assert_eq!(s.member_at(1), "y");
    let taken = s.drain();
    assert!(s.is_empty());
    assert_eq!(s.len(), 0);
    assert_eq!(taken.len(), 2);
    assert!(taken.contains(&text("y")));
}

#[test]
fn link_status_words() {
    assert_eq!(LinkStatus::from_up(Some(true)), LinkStatus::Up);
    assert_eq!(LinkStatus::from_up(Some(false)), LinkStatus::Down);
    assert_eq!(LinkStatus::from_up(None), LinkStatus::Unknown);
    assert_eq!(LinkStatus::Up.label(), "up");
    assert_eq!(LinkStatus::Down.label(), "down");
    assert_eq!(LinkStatus::Unknown.label(), "unknown");
}

fn interface(id: i32, index: i32, name: &str, device_id: i32, peer: Option<i32>) -> Interface {
    Interface {
        id,
        index,
        name: text(name),
        interface_type: text("ethernet"),
        speed_override: None,
        connected_interface: peer,
        device_id,
    }
}

#[test]
fn inventory_lookups_take_the_first_match() {
    assert_eq!(join_fqdn(&text("sw1"), &text("example.com")), "sw1.example.com");
    assert_eq!(join_fqdn(&text(""), &text("")), ".");
    let inv = Inventory {
        devices: vec![
            Device { id: 1, name: text("sw1"), dns_domain: text("example.com") },
            Device { id: 2, name: text("sw2"), dns_domain: text("example.com") },
            Device { id: 3, name: text("sw1"), dns_domain: text("example.com") },
        ],
        interfaces: vec![
            interface(10, 1, "Gi0/1", 1, Some(20)),
            interface(20, 5, "Gi0/5", 2, Some(10)),
            interface(11, 2, "Gi0/2", 1, None),
            interface(12, 3, "Gi0/3", 1, Some(99)),
            interface(21, 1, "Gi0/1", 2, Some(40)),
            interface(40, 1, "orphan", 77, None),
        ],
    };
    assert_eq!(inv.devices[1].fqdn(), "sw2.example.com");
    assert_eq!(inv.device_by_fqdn(&text("sw1.example.com")).unwrap().id, 1);
    assert!(inv.device_by_fqdn(&text("sw1")).is_none());
    assert_eq!(inv.device_by_id(3).unwrap().name, "sw1");
    assert!(inv.device_by_id(4).is_none());
    let sw1 = &inv.devices[0];
    let sw2 = &inv.devices[1];
    let of_sw1: Vec<i32> = inv.interfaces_of(sw1).iter().map(|i| i.id).collect();
    assert_eq!(of_sw1, vec![10, 11, 12]);
    assert!(inv.interfaces_of(&inv.devices[2]).is_empty());
    assert_eq!(inv.interface_by_index(sw1, 2).unwrap().id, 11);
    assert_eq!(inv.interface_by_index(sw2, 1).unwrap().id, 21);
    assert!(inv.interface_by_index(sw2, 2).is_none());
    assert_eq!(inv.interface_by_id(20).unwrap().index, 5);
    assert_eq!(inv.peer_interface(&inv.interfaces[0]).unwrap().id, 20);
    assert!(inv.peer_interface(&inv.interfaces[2]).is_none());
    assert!(inv.peer_interface(&inv.interfaces[3]).is_none());
    assert_eq!(inv.peer_device(&inv.interfaces[0]).unwrap().id, 2);
    assert!(inv.peer_device(&inv.interfaces[4]).is_none());
    assert!(inv.interfaces[0].has_connected_peer());
    assert!(!inv.interfaces[2].has_connected_peer());
    assert!(inv.interfaces[3].has_connected_peer());
    let copy = inv.interfaces[0].clone();
    assert_eq!(copy.name, "Gi0/1");
    assert_eq!(copy.connected_interface, Some(20));
    assert_eq!(inv.devices[0].clone().dns_domain, "example.com");
}
