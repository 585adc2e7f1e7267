use ble::handler::{connect_service, BleHandler, CentralEventKind, Found, ServiceInfo};
use ble::{BleAddress, BleDevice, BleError};

fn addr(last: u8) -> BleAddress {
    BleAddress { address: [0xaa, 0, 0, 0, 0, last] }
}

fn registered(lasts: &[u8]) -> BleHandler<u32, &'static str, u8> {
    let mut h = BleHandler::new();
    h.begin_discover(1000);
    let found = lasts
        .iter()
        .map(|l| Found {
            device: Some(BleDevice { address: addr(*l), name: format!("d{}", l), is_connected: false }),
            peripheral: *l as u32,
        })
        .collect();
    h.add_devices(found);
    h
}

fn services() -> Vec<ServiceInfo> {
    vec![
        ServiceInfo { uuid: 10, characteristics: vec![1, 2] },
        ServiceInfo { uuid: 20, characteristics: vec![3, 4, 5] },
        ServiceInfo { uuid: 20, characteristics: vec![6] },
    ]
}

#[test]
fn unknown_peripheral_is_refused() {
    let h = registered(&[1]);
    assert!(matches!(h.connect_device(&addr(2)), Err(BleError::UnknownPeripheral(a)) if a == addr(2)));
    assert_eq!(h.connect_device(&addr(1)).ok(), Some(&1));
}

#[test]
fn connect_refused_only_for_same_address() {
    let mut h = registered(&[1, 2]);
    let p = *h.connect_device(&addr(1)).unwrap();
    assert!(h.establish(addr(1), p, vec![3], None, 0).is_none());
    assert!(matches!(h.connect_device(&addr(1)), Err(BleError::AlreadyConnected)));
    let q = *h.connect_device(&addr(2)).unwrap();
    assert_eq!(q, 2);
    let previous = h.establish(addr(2), q, vec![4], None, 1).unwrap();
    assert_eq!(previous.address, addr(1));
    assert_eq!(h.connected_address().ok(), Some(addr(2)));
    assert!(matches!(h.get_charac(3), Err(BleError::CharacNotAvailable(3))));
    assert!(h.get_charac(4).is_ok());
}

#[test]
fn service_not_found() {
    assert!(matches!(connect_service(&services(), 99, &vec![1]), Err(BleError::ServiceNotFound)));
    assert!(matches!(connect_service(&vec![], 10, &vec![1]), Err(BleError::ServiceNotFound)));
}

#[test]
fn service_whitelist_keeps_requested_in_service_order() {
    assert_eq!(connect_service(&services(), 20, &vec![5, 3, 9]).unwrap(), vec![3, 5]);
    assert_eq!(connect_service(&services(), 10, &vec![]).unwrap(), Vec::<u128>::new());
}

#[test]
fn whitelist_rejects_unrequested_characteristic() {
    let mut h = registered(&[1]);
    let wl = connect_service(&vec![ServiceInfo { uuid: 7, characteristics: vec![100, 200] }], 7, &vec![100]).unwrap();
    let p = *h.connect_device(&addr(1)).unwrap();
    h.establish(addr(1), p, wl, None, 0);
    assert!(h.get_charac(100).is_ok());
    assert!(matches!(h.get_charac(200), Err(BleError::CharacNotAvailable(200))));
}

#[test]
fn operations_need_a_connection() {
    let h = registered(&[1]);
    assert!(matches!(h.get_charac(1), Err(BleError::NoDeviceConnected)));
    assert!(matches!(h.connected_address(), Err(BleError::NoDeviceConnected)));
    assert!(matches!(h.connected_peripheral(), Err(BleError::NoDeviceConnected)));
    assert!(h.dispatcher().is_none());
    assert!(!h.has_connection());
}

#[test]
fn disconnect_twice_is_harmless() {
    let mut h = registered(&[1]);
    let p = *h.connect_device(&addr(1)).unwrap();
    h.establish(addr(1), p, vec![3], Some("bye"), 5);
    assert_eq!(h.dispatcher(), Some(&5));
    let ended = h.disconnect().unwrap();
    assert_eq!(ended.on_disconnect, Some("bye"));
    assert_eq!(ended.dispatcher, 5);
    assert_eq!(ended.characs, vec![3]);
    assert!(!h.has_connection());
    assert!(h.needs_discovery());
    assert!(h.disconnect().is_none());
    assert!(!h.has_connection());
    assert!(h.needs_discovery());
    assert!(matches!(h.get_charac(3), Err(BleError::NoDeviceConnected)));
}

#[test]
fn remote_disconnect_ends_connection_once() {
    let mut h = registered(&[1]);
    let p = *h.connect_device(&addr(1)).unwrap();
    h.establish(addr(1), p, vec![3], Some("cb"), 0);
    assert!(h.handle_event(CentralEventKind::Other).is_none());
    assert!(h.has_connection());
    let ended = h.handle_event(CentralEventKind::DeviceDisconnected).unwrap();
    assert_eq!(ended.on_disconnect, Some("cb"));
    assert!(!h.has_connection());
    assert!(h.handle_event(CentralEventKind::DeviceDisconnected).is_none());
    assert!(h.disconnect().is_none());
}

#[test]
fn lost_link_ends_connection() {
    let mut h = registered(&[1]);
    let p = *h.connect_device(&addr(1)).unwrap();
    h.establish(addr(1), p, vec![3], None, 0);
    assert!(h.confirm_link(true).is_none());
    assert_eq!(h.connected_peripheral().ok(), Some(&1));
    let ended = h.confirm_link(false).unwrap();
    assert_eq!(ended.peripheral, 1);
    assert!(!h.has_connection());
}
