use s7comm::error::Error;
use s7comm::header::{decode, encode, Message, Rosctr, Setup, PROTOCOL_ID, READ, SETUP};

#[test]
fn a_job_and_its_answer_round_trip() {
    let job = Message::job(7, Setup::proposing(480).encode(), Vec::new());
    let bytes = encode(&job);
    assert_eq!(&bytes[..10], &[0x32, 1, 0, 0, 0, 7, 0, 8, 0, 0]);
    assert_eq!(&bytes[10..], &[0xF0, 0, 0, 1, 0, 1, 1, 0xE0]);
    assert_eq!(decode(&bytes).expect("job"), job);
    assert_eq!(job.function(), Some(SETUP));
    let mut answer = Message::ack_data(7, vec![READ, 1], vec![0xFF, 4, 0, 8, 1]);
    answer.error = 0x8104;
    let bytes = encode(&answer);
    assert_eq!(&bytes[..12], &[0x32, 3, 0, 0, 0, 7, 0, 2, 0, 5, 0x81, 0x04]);
    assert_eq!(decode(&bytes).expect("answer"), answer);
    assert_eq!(
        Setup::decode(&Setup::proposing(240).encode()).expect("setup"),
        Setup::proposing(240)
    );
}

#[test]
fn what_is_not_s7_is_refused() {
    assert!(decode(&[0x32, 1, 0, 0, 0, 1, 0, 0, 0]).is_err(), "short");
    assert!(decode(&[0x33, 1, 0, 0, 0, 1, 0, 0, 0, 0]).is_err(), "id");
    assert!(
        decode(&[0x32, 9, 0, 0, 0, 1, 0, 0, 0, 0]).is_err(),
        "rosctr"
    );
    assert!(
        decode(&[0x32, 1, 0, 0, 0, 1, 0, 4, 0, 0]).is_err(),
        "past end"
    );
    assert!(
        decode(&[0x32, 3, 0, 0, 0, 1, 0, 0, 0, 0]).is_err(),
        "no error"
    );
    assert!(Setup::decode(&[READ, 1]).is_err());
    assert!(!decode(&[]).expect_err("empty").retryable());
}

#[test]
fn each_fault_of_a_header_has_its_error_and_its_words() {
    let words = |bytes: &[u8]| decode(bytes).expect_err("refused").to_string();
    assert_eq!(decode(&[0x32; 9]), Err(Error::ShortPdu));
    assert_eq!(words(&[]), "an S7 PDU shorter than its header");
    assert_eq!(
        words(&[0x3C, 1, 0, 0, 0, 1, 0, 0, 0, 0]),
        "protocol id 0x3c where S7 is 0x32"
    );
    assert_eq!(
        words(&[0x32, 9, 0, 0, 0, 1, 0, 0, 0, 0]),
        "ROSCTR 0x09 is not S7"
    );
    assert_eq!(
        decode(&[0x32, 2, 0, 0, 0, 1, 0, 0, 0, 0, 0]),
        Err(Error::NoErrorField)
    );
    assert_eq!(
        words(&[0x32, 3, 0, 0, 0, 1, 0, 0, 0, 0]),
        "an ack without its error field"
    );
    assert_eq!(
        words(&[0x32, 1, 0, 0, 0, 1, 0, 4, 0, 0, 1, 2, 3]),
        "a parameter length past the end"
    );
    assert_eq!(
        words(&[0x32, 1, 0, 0, 0, 1, 0, 2, 0, 2, 1, 2, 3]),
        "a data length past the end"
    );
    assert_eq!(
        Setup::decode(&[SETUP, 0, 0, 1, 0, 1, 1]).expect_err("short").to_string(),
        "a parameter that is not Setup Communication"
    );
    assert_eq!(
        Setup::decode(&[READ, 0, 0, 1, 0, 1, 1, 0xE0]),
        Err(Error::NotSetup)
    );
}

#[test]
fn every_kind_of_pdu_is_read_back_whatever_follows() {
    for (rosctr, code, error) in [
        (Rosctr::Job, 1, 0),
        (Rosctr::Ack, 2, 0x8500),
        (Rosctr::AckData, 3, 1),
        (Rosctr::UserData, 7, 0),
    ] {
        assert_eq!(rosctr.code(), code);
        let message = Message {
            rosctr,
            reference: 0xFFFE,
            error,
            parameter: vec![1, 2, 3],
            data: vec![4, 5],
        };
        let mut bytes = encode(&message);
        assert_eq!(bytes[0], PROTOCOL_ID);
        bytes.extend_from_slice(&[9, 9]);
        assert_eq!(decode(&bytes).expect("read back"), message);
    }
}

#[test]
fn a_pdu_is_written_as_it_was_read() {
    let bytes = [0x32, 3, 0, 0, 1, 2, 0, 2, 0, 1, 0, 0, 4, 1, 0x0A];
    let message = decode(&bytes).expect("answer");
    assert_eq!((message.reference, message.error), (0x0102, 0));
    assert_eq!(encode(&message), bytes);
}

#[test]
fn what_a_job_has_no_field_for_is_lost() {
    let mut job = Message::job(1, Vec::new(), Vec::new());
    assert_eq!(job.function(), None);
    job.error = 5;
    assert_eq!(decode(&encode(&job)).expect("job").error, 0);
    let long = Message::job(1, vec![0; 70_000], Vec::new());
    assert_eq!(encode(&long).len(), 70_010);
    assert_eq!(decode(&encode(&long)).expect("long").parameter.len(), 65_535);
}

#[test]
fn a_pdu_is_written_with_nothing_in_its_reserved_bytes() {
    let bytes = [0x32, 1, 7, 8, 1, 2, 0, 1, 0, 1, 4, 5, 9];
    let message = decode(&bytes).expect("job");
    assert_eq!(encode(&message), [0x32, 1, 0, 0, 1, 2, 0, 1, 0, 1, 4, 5]);
}

#[test]
fn a_setup_parameter_is_read_whatever_follows() {
    let setup = Setup { max_calling: 2, max_called: 3, pdu_length: 960 };
    let mut parameter = setup.encode();
    parameter.extend_from_slice(&[1, 2, 3]);
    assert_eq!(Setup::decode(&parameter), Ok(setup));
}
