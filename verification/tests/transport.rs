use std::time::Duration;

use s7comm::{Address, Area, Error, S7Transport};

#[test]
fn a_transport_is_built_in_steps() {
    let transport = S7Transport::new("plc:102", "DB12.DBB0.100");
    assert_eq!((transport.rack, transport.slot), (0, 2));
    assert!(transport.timeout.is_none());
    let transport = transport.at(1, 3).timing_out_after(Duration::from_secs(2));
    assert_eq!((transport.rack, transport.slot), (1, 3));
    assert_eq!(transport.timeout, Some(Duration::from_secs(2)));
    assert_eq!(transport.plc, "plc:102");
    assert_eq!(transport.address, "DB12.DBB0.100");
    assert_eq!(transport.name(), "s7comm");
}

#[test]
fn a_target_names_the_cpu_the_address_or_both() {
    let transport = S7Transport::new("plc:102", "M0");
    assert_eq!(
        transport.resolve(Some(("near:102", "Q0.2")), "s7comm://near:102/Q0.2"),
        ("near:102", "Q0.2")
    );
    assert_eq!(
        transport.resolve(Some(("near:102", "")), "s7comm://near:102"),
        ("near:102", "M0")
    );
    assert_eq!(transport.resolve(None, "M4"), ("plc:102", "M4"));
    assert_eq!(transport.resolve(None, "near:102"), ("near:102", "M0"));
}

#[test]
fn a_delivery_goes_to_the_resolved_address() {
    let transport = S7Transport::new("plc:102", "M0");
    let flags = Address { area: Area::Flag, db: 0, offset: 4, length: 1 };
    assert_eq!(transport.send(None, "M4"), Ok(("plc:102", flags)));
    assert_eq!(
        transport.send(Some(("near:102", "")), "s7comm://near:102"),
        Ok(("near:102", flags.slice(0, 1)))
    );
    assert_eq!(
        transport.send(None, "not an address"),
        Err(Error::NotAnAddress("not an address".to_string()))
    );
}

#[test]
fn a_poll_reads_the_configured_address_and_names_its_origin() {
    let transport = S7Transport::new("127.0.0.1:102", "db12.dbb0.100");
    let address = transport.receive().expect("address");
    assert_eq!(
        transport.origin(&address),
        "s7comm://127.0.0.1:102/DB12.DBB0.100"
    );
    let transport = S7Transport::new("127.0.0.1:1", "not an address");
    assert_eq!(
        transport.receive().expect_err("refused").to_string(),
        "\"not an address\" is not an S7 address"
    );
}

#[test]
fn an_origin_is_a_target() {
    let polled = S7Transport::new("far:102", "DB12.DBB0.100");
    let address = polled.receive().expect("address");
    let origin = polled.origin(&address);
    let uri = origin
        .strip_prefix("s7comm://")
        .and_then(|rest| rest.split_once('/'));
    let other = S7Transport::new("near:102", "M0");
    assert_eq!(other.send(uri, &origin), Ok(("far:102", address)));
}
