use ble::BleAddress;

#[test]
fn address_text_is_upper_hex_with_colons() {
    let a = BleAddress { address: [0x1f, 0x2a, 0x00, 0xcc, 0x22, 0xf1] };
    assert_eq!(a.to_string(), "1F:2A:00:CC:22:F1");
}

#[test]
fn address_text_of_zero_and_max() {
    assert_eq!(BleAddress::default().to_string(), "00:00:00:00:00:00");
    let a = BleAddress { address: [0xff; 6] };
    assert_eq!(a.to_string(), "FF:FF:FF:FF:FF:FF");
}

#[test]
fn address_key_is_big_endian() {
    let a = BleAddress { address: [0x1f, 0x2a, 0x00, 0xcc, 0x22, 0xf1] };
    assert_eq!(a.key_u64(), 0x1f2a_00cc_22f1);
    let b = BleAddress { address: [0, 0, 0, 0, 0, 1] };
    assert_eq!(b.key_u64(), 1);
}

#[test]
fn address_same_as() {
    let a = BleAddress { address: [1, 2, 3, 4, 5, 6] };
    let b = BleAddress { address: [1, 2, 3, 4, 5, 6] };
    let c = BleAddress { address: [1, 2, 3, 4, 5, 7] };
    assert!(a.same_as(&b));
    assert!(!a.same_as(&c));
}
