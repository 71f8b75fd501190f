use engine::data::Data;

#[test]
fn is_null() {
    assert!(Data::null().is_null());
}

#[test]
fn address_round_trip() {
    let d = Data::from_addr(0x1000);
    assert!(!d.is_null());
    assert_eq!(d.addr(), 0x1000);
    assert_eq!(Data::from_addr(0), Data::null());
}

#[test]
fn null_handles_are_equal() {
    assert_eq!(Data::null(), Data::null());
    assert!(Data::null().is_null());
}
