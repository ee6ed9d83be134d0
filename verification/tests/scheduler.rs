use jaspy::imds::IMDS;
use jaspy::inventory::{Device, Interface, Inventory};
use jaspy::scheduler::{should_continue, DeviceMetricRefreshCacheMiss, RefreshScheduler};
use jaspy::string_set::StringSet;

fn text(s: &str) -> String {
    s.to_string()
}

fn inventory() -> Inventory {
    Inventory {
        devices: vec![
            Device { id: 1, name: text("sw1"), dns_domain: text("example.com") },
            Device { id: 2, name: text("sw2"), dns_domain: text("example.com") },
        ],
        interfaces: vec![
            Interface {
                id: 10,
                index: 1,
                name: text("Gi0/1"),
                interface_type: text("ethernet"),
                speed_override: Some(10000),
                connected_interface: Some(20),
                device_id: 1,
            },
            Interface {
                id: 20,
                index: 5,
                name: text("Gi0/5"),
                interface_type: text("optical"),
                speed_override: None,
                connected_interface: None,
                device_id: 2,
            },
        ],
    }
}

const SECOND: u64 = 1_000_000_000;

#[test]
fn first_tick_refreshes_everything() {
    let mut scheduler = RefreshScheduler::new();
    let mut imds = IMDS::new();
    assert!(scheduler.is_full_refresh());
    assert!(scheduler.needs_inventory(&StringSet::new()));
    scheduler.tick_at(&mut imds, &inventory(), &StringSet::new(), 0);
    assert_eq!(imds.len(), 2);
    let sw1 = imds.get_device(&text("sw1.example.com")).unwrap();
    assert_eq!(sw1.expiry, 60 * SECOND);
    assert_eq!(sw1.up, None);
    let i = sw1.interface(1).unwrap();
    assert_eq!(i.name, "Gi0/1");
    assert_eq!(i.interface_type, "ethernet");
    assert!(i.neighbors);
    assert_eq!(i.speed_override, Some(10000));
    assert_eq!(i.expiry, 60 * SECOND);
    let sw2 = imds.get_device(&text("sw2.example.com")).unwrap();
    let j = sw2.interface(5).unwrap();
    assert!(!j.neighbors);
    assert_eq!(j.interface_type, "optical");
    assert_eq!(scheduler.phase(), 1);
    assert!(!scheduler.is_full_refresh());
}

#[test]
fn phase_returns_to_zero_after_ten_ticks() {
    let mut scheduler = RefreshScheduler::new();
    let mut imds = IMDS::new();
    let empty = Inventory::new();
    let none = StringSet::new();
    let mut full = Vec::new();
    for tick in 0..21u64 {
        full.push(scheduler.is_full_refresh());
        assert_eq!(scheduler.phase() as u64, tick % 10);
        scheduler.tick_at(&mut imds, &empty, &none, tick * SECOND);
    }
    let expected: Vec<bool> = (0..21).map(|t| t % 10 == 0).collect();
    assert_eq!(full, expected);
}

#[test]
fn a_miss_is_refreshed_on_the_next_tick_whatever_the_phase() {
    for warmup in 1..10u64 {
        let mut scheduler = RefreshScheduler::new();
        let mut imds = IMDS::new();
        let none = StringSet::new();
        for tick in 0..warmup {
            scheduler.tick_at(&mut imds, &Inventory::new(), &none, tick * SECOND);
        }
        assert!(!scheduler.is_full_refresh());
        assert!(imds.get_device(&text("sw2.example.com")).is_none());
        let mut cache = DeviceMetricRefreshCacheMiss::new();
        assert!(cache.is_empty());
        cache.insert(text("sw2.example.com"));
        cache.insert(text("sw2.example.com"));
        assert!(!cache.is_empty());
        let misses = cache.drain();
        assert!(cache.is_empty());
        assert_eq!(misses.len(), 1);
        assert!(scheduler.needs_inventory(&misses));
        scheduler.tick_at(&mut imds, &inventory(), &misses, warmup * SECOND);
        assert_eq!(imds.len(), 1);
        let sw2 = imds.get_device(&text("sw2.example.com")).unwrap();
        assert_eq!(sw2.expiry, (warmup + 60) * SECOND);
        assert!(sw2.interface(5).is_some());
        assert!(imds.get_device(&text("sw1.example.com")).is_none());
    }
}

#[test]
fn a_tick_without_refresh_neither_refreshes_nor_prunes() {
    let mut scheduler = RefreshScheduler::new();
    let mut imds = IMDS::new();
    scheduler.tick_at(&mut imds, &inventory(), &StringSet::new(), 0);
    assert!(!scheduler.needs_inventory(&StringSet::new()));
    // Far past every expiry, but no refresh pass runs, so nothing is pruned.
    scheduler.tick_at(&mut imds, &inventory(), &StringSet::new(), 500 * SECOND);
    assert_eq!(imds.len(), 2);
    assert_eq!(imds.get_device(&text("sw1.example.com")).unwrap().expiry, 60 * SECOND);
}

#[test]
fn a_refresh_pass_prunes_what_it_did_not_refresh() {
    let mut scheduler = RefreshScheduler::new();
    let mut imds = IMDS::new();
    scheduler.tick_at(&mut imds, &inventory(), &StringSet::new(), 0);
    let mut misses = StringSet::new();
    misses.insert(text("sw1.example.com"));
    misses.insert(text("unknown.example.com"));
    scheduler.tick_at(&mut imds, &inventory(), &misses, 61 * SECOND);
    assert_eq!(imds.len(), 1);
    assert!(imds.get_device(&text("sw2.example.com")).is_none());
    assert_eq!(imds.get_device(&text("sw1.example.com")).unwrap().expiry, 121 * SECOND);
}

#[test]
fn clock_driven_tick_refreshes() {
    let mut scheduler = RefreshScheduler::new();
    let mut imds = IMDS::new();
    scheduler.tick(&mut imds, &inventory(), &StringSet::new());
    assert_eq!(imds.len(), 2);
    assert_eq!(scheduler.phase(), 1);
}

#[test]
fn running_flag_is_read() {
    let flag = std::sync::atomic::AtomicBool::new(true);
    assert!(should_continue(&flag));
    flag.store(false, std::sync::atomic::Ordering::Relaxed);
    assert!(!should_continue(&flag));
}
