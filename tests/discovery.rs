use ble::device::{insert_by_address, snapshot};
use ble::handler::{polls_for, report_due, BleHandler, Found};
use ble::{BleAddress, BleDevice};

fn dev(last: u8, name: &str) -> BleDevice {
    BleDevice {
        address: BleAddress { address: [0, 0, 0, 0, 0, last] },
        name: name.to_string(),
        is_connected: false,
    }
}

fn found(d: Option<BleDevice>, p: u32) -> Found<u32> {
    Found { device: d, peripheral: p }
}

#[test]
fn polls_round_half_up() {
    assert_eq!(polls_for(1000), 5);
    assert_eq!(polls_for(300), 2);
    assert_eq!(polls_for(299), 1);
    assert_eq!(polls_for(500), 3);
}

#[test]
fn polls_at_least_one_for_short_window() {
    assert_eq!(polls_for(0), 0);
    assert_eq!(polls_for(1), 1);
    assert_eq!(polls_for(99), 1);
    assert_eq!(polls_for(u64::MAX), u64::MAX / 200);
    assert_eq!(polls_for(u64::MAX - 15), u64::MAX / 200);
    assert_eq!(polls_for(u64::MAX - 115), u64::MAX / 200);
}

#[test]
fn discovery_returns_devices_sorted_by_address() {
    let mut h: BleHandler<u32, (), ()> = BleHandler::new();
    assert_eq!(h.begin_discover(1000), 5);
    let snap = h.add_devices(vec![found(Some(dev(0xbb, "P2")), 2), found(Some(dev(0xaa, "P1")), 1)]);
    assert_eq!(snap.len(), 2);
    assert_eq!(snap[0].name, "P1");
    assert_eq!(snap[1].name, "P2");
    assert!(report_due(&snap, true));
    let again = h.add_devices(vec![found(Some(dev(0xaa, "P1")), 1), found(Some(dev(0xbb, "P2")), 2)]);
    assert_eq!(again, snap);
    assert_eq!(again[0].name, "P1");
    assert_eq!(again[1].name, "P2");
}

#[test]
fn discovery_skips_unnamed_and_keeps_last_per_address() {
    let mut h: BleHandler<u32, (), ()> = BleHandler::new();
    h.begin_discover(200);
    let snap = h.add_devices(vec![
        found(Some(dev(3, "old")), 1),
        found(None, 2),
        found(Some(dev(1, "one")), 3),
        found(Some(dev(3, "new")), 4),
    ]);
    assert_eq!(snap.len(), 2);
    assert_eq!(snap[0].name, "one");
    assert_eq!(snap[1].name, "new");
    assert_eq!(h.connect_device(&dev(3, "").address).ok(), Some(&4));
    assert_eq!(h.connect_device(&dev(1, "").address).ok(), Some(&3));
}

#[test]
fn empty_poll_reports_nothing() {
    let mut h: BleHandler<u32, (), ()> = BleHandler::new();
    h.begin_discover(1000);
    let snap = h.add_devices(vec![found(None, 1)]);
    assert!(snap.is_empty());
    assert!(!report_due(&snap, true));
    assert!(h.needs_discovery());
}

#[test]
fn report_needs_a_sink() {
    let snap = vec![dev(1, "a")];
    assert!(!report_due(&snap, false));
    assert!(report_due(&snap, true));
}

#[test]
fn begin_discover_clears_registry() {
    let mut h: BleHandler<u32, (), ()> = BleHandler::new();
    assert!(h.needs_discovery());
    h.add_devices(vec![found(Some(dev(1, "a")), 7)]);
    assert!(!h.needs_discovery());
    h.begin_discover(400);
    assert!(h.needs_discovery());
}

#[test]
fn snapshot_of_devices() {
    let s = snapshot(&vec![dev(9, "x"), dev(2, "y"), dev(9, "z"), dev(5, "w")]);
    let names: Vec<&str> = s.iter().map(|d| d.name.as_str()).collect();
    assert_eq!(names, vec!["y", "w", "z"]);
    assert!(snapshot(&vec![]).is_empty());
}

#[test]
fn insert_replaces_same_address() {
    let mut s = vec![dev(1, "a"), dev(4, "b")];
    insert_by_address(&mut s, dev(4, "c"));
    insert_by_address(&mut s, dev(2, "d"));
    insert_by_address(&mut s, dev(0, "e"));
    insert_by_address(&mut s, dev(8, "f"));
    let names: Vec<&str> = s.iter().map(|d| d.name.as_str()).collect();
    assert_eq!(names, vec!["e", "a", "d", "c", "f"]);
}

#[test]
fn device_identity_is_address() {
    let a = dev(1, "a");
    let b = BleDevice { is_connected: true, ..dev(1, "b") };
    assert_eq!(a, b);
    assert_ne!(a, dev(2, "a"));
    assert!(dev(1, "z") < dev(2, "a"));
    assert_eq!(a.partial_cmp(&b), Some(std::cmp::Ordering::Equal));
    let big = BleDevice {
        address: BleAddress { address: [1, 0, 0, 0, 0, 0] },
        name: String::new(),
        is_connected: false,
    };
    assert!(dev(255, "") < big);
}
