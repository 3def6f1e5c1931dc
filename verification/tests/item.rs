use s7comm::error::Error;
use s7comm::item::{
    decode_data, decode_item, encode_data, encode_item, is_countable, refusal, Address, Area,
    OBJECT_DOES_NOT_EXIST, OUT_OF_RANGE, RETURN_OK,
};

#[test]
fn an_address_reads_writes_and_round_trips_through_its_pointer() {
    let db: Address = "DB12.DBB0.100".parse().expect("db");
    assert_eq!(
        (db.area, db.db, db.offset, db.length),
        (Area::DataBlock, 12, 0, 100)
    );
    assert_eq!(db.to_string(), "DB12.DBB0.100");
    assert_eq!(
        encode_item(&db),
        [0x12, 0x0A, 0x10, 0x02, 0, 100, 0, 12, 0x84, 0, 0, 0]
    );
    for (text, area, shown) in [
        ("M0.10", Area::Flag, "M0.10"),
        ("I0.4", Area::Input, "I0.4"),
        ("Q0.2", Area::Output, "Q0.2"),
        ("e3", Area::Input, "I3.1"),
        ("a7.2", Area::Output, "Q7.2"),
    ] {
        let address: Address = text.parse().expect(text);
        assert_eq!(address.area, area);
        assert_eq!(address.to_string(), shown);
        assert_eq!(decode_item(&encode_item(&address)).expect("item"), address);
    }
    let far: Address = "DB1.DBB1000.2".parse().expect("far");
    assert_eq!(encode_item(&far)[9..], [0, 0x1F, 0x40], "8000 bits");
    assert_eq!(decode_item(&encode_item(&far)).expect("item"), far);
    assert_eq!(far.slice(1004, 1).to_string(), "DB1.DBB1004.1");
}

#[test]
fn a_data_item_carries_its_return_code_and_pads_to_even() {
    let ok = encode_data(RETURN_OK, b"abc");
    assert_eq!(ok, [0xFF, 0x04, 0, 24, b'a', b'b', b'c', 0]);
    assert_eq!(decode_data(&ok).expect("ok"), (RETURN_OK, &b"abc"[..], 8));
    let missing = encode_data(OBJECT_DOES_NOT_EXIST, b"ignored");
    assert_eq!(missing, [0x0A, 0, 0, 0]);
    assert_eq!(decode_data(&missing).expect("no"), (0x0A, &[][..], 4));
    assert!(decode_data(&[0xFF, 0x04, 0, 80, 1]).is_err(), "short");
    let db = "DB1.DBB0.1".parse().expect("db");
    assert!(refusal(RETURN_OK, &db).is_none());
    assert!(
        refusal(OUT_OF_RANGE, &db)
            .expect("refused")
            .to_string()
            .contains("out of range")
    );
    assert!(!refusal(0x03, &db).expect("refused").retryable());
}

#[test]
fn what_is_not_an_address_is_refused() {
    for bad in [
        "",
        "DB",
        "DBx.DBB0",
        "DB1.DBX0.1",
        "DB1.DBB0.0",
        "X0.1",
        "M0.1.2",
        "M",
    ] {
        assert!(bad.parse::<Address>().is_err(), "{bad}");
    }
    assert!(decode_item(&[0x12, 0x0A, 0x10, 0x01, 0, 1, 0, 1, 0x84, 0, 0, 0]).is_err());
    assert!(decode_item(&[0x12, 0x0A, 0x10, 0x02, 0, 1, 0, 1, 0x1C, 0, 0, 0]).is_err());
    assert!(decode_item(&[0x12, 0x0A]).is_err());
    assert!(Area::from_code(0x80).is_err());
}

#[test]
fn the_text_of_an_address_takes_what_numbers_take() {
    for (text, shown) in [
        ("db007.dbb010", "DB7.DBB10.1"),
        ("DB+1.DBB+2.+3", "DB1.DBB2.3"),
        ("DB65535.DBB4294967295.65535", "DB65535.DBB4294967295.65535"),
        ("m5", "M5.1"),
        ("q0.00002", "Q0.2"),
    ] {
        assert_eq!(text.parse::<Address>().expect(text).to_string(), shown);
    }
    for bad in [
        "DB65536.DBB0", "DB1.DBB4294967296", "M0.65536", "M0.", ".", "DB1", "DB1.", "DB1.DBB",
        "DB1.DBB0.1.2", "M 0", "M-0", "M++0", "M+", "M0x", "\u{e9}0", "M\u{663}", "MB0",
    ] {
        assert!(bad.parse::<Address>().is_err(), "{bad}");
    }
}

#[test]
fn a_refused_text_is_quoted() {
    assert_eq!(
        "X0.1".parse::<Address>().expect_err("refused").to_string(),
        "\"X0.1\" is not an S7 address"
    );
    assert_eq!(
        "a\"\n".parse::<Address>(),
        Err(Error::NotAnAddress("a\"\n".to_string()))
    );
    assert_eq!(
        "a\"\n".parse::<Address>().expect_err("refused").to_string(),
        "\"a\\\"\\n\" is not an S7 address"
    );
}

#[test]
fn an_address_that_is_written_is_read_back() {
    for area in [Area::DataBlock, Area::Input, Area::Output, Area::Flag] {
        let address = Address {
            area,
            db: if area == Area::DataBlock { 10_204 } else { 0 },
            offset: 90_817,
            length: 60_504,
        };
        assert_eq!(address.to_string().parse::<Address>(), Ok(address));
        assert_eq!(Area::from_code(area.code()), Ok(area));
    }
}

#[test]
fn a_pointer_says_where_within_two_megabytes() {
    let last = Address { area: Area::Flag, db: 0, offset: 0x1F_FFFF, length: 1 };
    assert_eq!(encode_item(&last)[9..], [0xFF, 0xFF, 0xF8]);
    assert_eq!(decode_item(&encode_item(&last)), Ok(last));
    let next = last.slice(0x20_0000, 1);
    assert_eq!(decode_item(&encode_item(&next)), Ok(last.slice(0, 1)));
}

#[test]
fn pointers_to_words_count_bytes() {
    let pointer = |size: u8, high: u8| [0x12, 0x0A, 0x10, size, high, 3, 0, 7, 0x83, 0, 1, 0x0F];
    for (size, length) in [(0x02, 3), (0x03, 3), (0x09, 3), (0x04, 6), (0x06, 12)] {
        assert_eq!(
            decode_item(&pointer(size, 0)),
            Ok(Address { area: Area::Flag, db: 7, offset: 33, length })
        );
    }
    assert_eq!(decode_item(&pointer(0x01, 0)), Err(Error::BitAddress));
    assert_eq!(decode_item(&pointer(0x1C, 0)), Err(Error::TransportSize(0x1C)));
    assert!(is_countable(&pointer(0x02, 0xFF)));
    assert!(is_countable(&pointer(0x04, 0x7F)));
    assert!(!is_countable(&pointer(0x04, 0x80)));
    assert!(is_countable(&pointer(0x06, 0x3F)));
    assert!(!is_countable(&pointer(0x06, 0x40)));
    assert!(is_countable(&[0x12, 0x0A]));
}

#[test]
fn each_fault_of_an_item_has_its_words() {
    let words = |item: &[u8]| decode_item(item).expect_err("refused").to_string();
    assert_eq!(words(&[0x12, 0x0A, 0x11]), "an item that is not an S7ANY pointer");
    assert_eq!(
        words(&[0x12, 0x0A, 0x10, 0x01, 0, 1, 0, 1, 0x84, 0, 0, 0]),
        "a bit address; this transport reads bytes"
    );
    assert_eq!(
        words(&[0x12, 0x0A, 0x10, 0x08, 0, 1, 0, 1, 0x84, 0, 0, 0]),
        "transport size 0x08 is not addressed"
    );
    assert_eq!(
        words(&[0x12, 0x0A, 0x10, 0x02, 0, 1, 0, 1, 0x1C, 0, 0, 0]),
        "area 0x1c is not addressed"
    );
    assert_eq!(
        decode_data(&[0xFF, 4, 0]).expect_err("short").to_string(),
        "a data item shorter than its header"
    );
    assert_eq!(
        decode_data(&[0xFF, 4, 0, 16, 1]).expect_err("short").to_string(),
        "a data item shorter than its length"
    );
    let address: Address = "I0.10".parse().expect("address");
    assert_eq!(
        refusal(OBJECT_DOES_NOT_EXIST, &address).expect("refused").to_string(),
        "I0.10: object does not exist"
    );
    assert_eq!(
        refusal(OUT_OF_RANGE, &address).expect("refused").to_string(),
        "I0.10: out of range"
    );
    assert_eq!(
        refusal(0x03, &address).expect("refused").to_string(),
        "I0.10: the PLC answered 0x03"
    );
}

#[test]
fn a_data_item_is_read_back_as_far_as_its_length_counts() {
    for length in [0usize, 1, 2, 461, 462, 8191] {
        let bytes = vec![0x5A; length];
        let mut item = encode_data(RETURN_OK, &bytes);
        let taken = item.len();
        assert_eq!(taken % 2, 0);
        item.push(7);
        assert_eq!(decode_data(&item), Ok((RETURN_OK, &bytes[..], taken)));
    }
    let long = encode_data(RETURN_OK, &[1; 8192]);
    assert_eq!(decode_data(&long).expect("capped").1.len(), 8191);
    assert_eq!(
        decode_data(&[0xFF, 0x09, 0, 3, 1, 2, 3]),
        Ok((RETURN_OK, &[1, 2, 3][..], 7))
    );
    assert_eq!(
        decode_data(&[0xFF, 0x05, 0, 15, 1]),
        Ok((RETURN_OK, &[1][..], 5))
    );
}

#[test]
fn an_address_may_be_written_in_either_case() {
    for text in ["db1.Dbb2.3", "m4", "e5.6", "q7", "x8", "db1.dbx0", "m1a"] {
        let raised = text.to_ascii_uppercase();
        assert_eq!(raised.parse::<Address>().ok(), text.parse::<Address>().ok(), "{text}");
    }
    assert_eq!(
        "db1.Dbb2.3".parse::<Address>().expect("db").to_string(),
        "DB1.DBB2.3"
    );
}
