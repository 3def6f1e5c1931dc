use s7comm::client::{cpu_tsap, slices, LOCAL_TSAP};
use s7comm::error::Error;
use s7comm::header::{decode, encode, Message, Rosctr, Setup, READ, SETUP, WRITE};
use s7comm::item::{encode_data, Address, RETURN_OK};
use s7comm::Client;

#[test]
fn the_cpu_tsap_names_rack_and_slot_and_a_read_is_sliced_to_the_pdu() {
    assert_eq!(cpu_tsap(0, 2), [0x01, 0x02]);
    assert_eq!(cpu_tsap(1, 3), [0x01, 0x23]);
    let address: Address = "DB1.DBB10.25".parse().expect("address");
    let sliced = slices(&address, 10);
    assert_eq!(sliced.len(), 3);
    assert_eq!(sliced[0].to_string(), "DB1.DBB10.10");
    assert_eq!(sliced[2].to_string(), "DB1.DBB30.5");
    assert_eq!(slices(&address, 100), vec![address]);
}

#[test]
fn a_tsap_keeps_three_bits_of_rack_and_five_of_slot() {
    assert_eq!(LOCAL_TSAP, [0x01, 0x00]);
    assert_eq!(cpu_tsap(7, 31), [0x01, 0xFF]);
    assert_eq!(cpu_tsap(9, 34), [0x01, 0x22]);
}

#[test]
fn slices_cover_an_address_without_a_gap() {
    let address: Address = "M7.1000".parse().expect("address");
    for per_job in [1, 7, 462, 999, 1000, 1001] {
        let sliced = slices(&address, per_job);
        let mut at = address.offset;
        for slice in &sliced {
            assert_eq!((slice.area, slice.db, slice.offset), (address.area, 0, at));
            assert!(slice.length > 0 && slice.length <= per_job);
            at += u32::from(slice.length);
        }
        assert_eq!(at, 1007);
    }
    assert!(slices(&address.slice(7, 0), 5).is_empty());
}

fn connected(granted: u16) -> Client {
    let mut client = Client::new();
    let job = decode(&client.setup()).expect("job");
    assert_eq!((job.rosctr, job.reference), (Rosctr::Job, 1));
    assert_eq!(job.parameter, Setup::proposing(480).encode());
    let answer = encode(&Message::ack_data(1, Setup::proposing(granted).encode(), Vec::new()));
    match client.connect(Some(&answer)) {
        Ok(client) => client,
        Err(error) => panic!("{}", error.to_string()),
    }
}

#[test]
fn the_granted_length_holds_within_what_was_proposed() {
    for (granted, kept) in [(0, 32), (31, 32), (32, 32), (240, 240), (480, 480), (960, 480)] {
        assert_eq!(connected(granted).pdu_length(), kept);
    }
}

fn setup_refusal(answer: Option<Vec<u8>>) -> Error {
    let mut client = Client::new();
    client.setup();
    match client.connect(answer.as_deref()) {
        Ok(_) => panic!("accepted"),
        Err(error) => error,
    }
}

#[test]
fn each_fault_of_an_answer_has_its_error_and_its_words() {
    assert_eq!(setup_refusal(None), Error::Closed);
    assert_eq!(Error::Closed.to_string(), "the CPU closed before answering");
    assert_eq!(setup_refusal(Some(vec![0x33; 10])), Error::ProtocolId(0x33));
    let granted = Setup::proposing(240).encode();
    let other = Message::ack_data(2, granted.clone(), Vec::new());
    assert_eq!(setup_refusal(Some(encode(&other))), Error::OtherReference);
    assert_eq!(Error::OtherReference.to_string(), "an answer to a different job");
    let job = Message::job(1, granted.clone(), Vec::new());
    assert_eq!(setup_refusal(Some(encode(&job))), Error::JobForAnswer);
    assert_eq!(Error::JobForAnswer.to_string(), "a job where an answer was due");
    let mut failed = Message::ack_data(1, granted, Vec::new());
    failed.error = 0x85A4;
    assert_eq!(setup_refusal(Some(encode(&failed))), Error::Cpu(0x85A4));
    assert_eq!(Error::Cpu(0x85A4).to_string(), "the CPU answered error 0x85a4");
    assert_eq!(Error::Cpu(5).to_string(), "the CPU answered error 0x0005");
    let read = Message::ack_data(1, vec![READ, 1], Vec::new());
    assert_eq!(setup_refusal(Some(encode(&read))), Error::SetupNotAnswered);
    assert_eq!(
        Error::SetupNotAnswered.to_string(),
        "the CPU did not answer Setup Communication"
    );
    let short = Message::ack_data(1, vec![SETUP, 0], Vec::new());
    assert_eq!(setup_refusal(Some(encode(&short))), Error::NotSetup);
}

#[test]
fn a_read_asks_slice_by_slice_and_keeps_what_it_got() {
    let mut client = connected(32);
    let address: Address = "DB3.DBB100.20".parse().expect("address");
    let mut read = client.read(&address);
    let job = decode(&read.job(&mut client).expect("first")).expect("job");
    assert_eq!(job.reference, 2);
    assert_eq!(
        job.parameter,
        [READ, 1, 0x12, 0x0A, 0x10, 0x02, 0, 14, 0, 3, 0x84, 0, 3, 0x20]
    );
    let answer = |reference: u16, function: u8, data: Vec<u8>| {
        encode(&Message::ack_data(reference, vec![function, 1], data))
    };
    let wrong = answer(2, READ, encode_data(RETURN_OK, &[7; 13]));
    assert_eq!(read.answer(&client, Some(&wrong)), Err(Error::WrongLength));
    assert_eq!(
        Error::WrongLength.to_string(),
        "the CPU answered fewer bytes than asked"
    );
    let other = answer(2, WRITE, vec![0xFF]);
    assert_eq!(read.answer(&client, Some(&other)), Err(Error::ReadNotAnswered));
    assert_eq!(Error::ReadNotAnswered.to_string(), "the CPU did not answer Read Var");
    let short = answer(2, READ, vec![0xFF]);
    assert_eq!(read.answer(&client, Some(&short)), Err(Error::ShortDataHeader));
    let slice = read.slice().expect("slice");
    assert_eq!(slice.to_string(), "DB3.DBB100.14");
    let refused = answer(2, READ, vec![0x03, 0, 0, 0]);
    assert_eq!(read.answer(&client, Some(&refused)), Err(Error::Refused(slice, 0x03)));
    let good = answer(2, READ, encode_data(RETURN_OK, &[7; 14]));
    assert_eq!(read.answer(&client, Some(&good)), Ok(()));
    let job = decode(&read.job(&mut client).expect("second")).expect("job");
    assert_eq!((job.reference, job.parameter[5], job.parameter[7]), (3, 0x02, 6));
    let good = answer(3, READ, encode_data(RETURN_OK, &[8; 6]));
    assert_eq!(read.answer(&client, Some(&good)), Ok(()));
    assert!(read.job(&mut client).is_none());
    let bytes = read.into_bytes();
    assert_eq!(bytes.len(), 20);
    assert_eq!((bytes[13], bytes[14]), (7, 8));
}

#[test]
fn a_write_carries_slice_by_slice() {
    let mut client = connected(32);
    let address: Address = "M0".parse().expect("address");
    let mut write = client.write(&address, &[1, 2, 3, 4, 5]).expect("write");
    let job = decode(&write.job(&mut client).expect("first")).expect("job");
    assert_eq!(job.data, [0xFF, 4, 0, 32, 1, 2, 3, 4]);
    assert_eq!(job.parameter[..8], [WRITE, 1, 0x12, 0x0A, 0x10, 0x02, 0, 4]);
    let answer = |function: u8, data: Vec<u8>| {
        encode(&Message::ack_data(2, vec![function, 1], data))
    };
    let other = answer(READ, vec![0xFF]);
    assert_eq!(write.answer(&client, Some(&other)), Err(Error::WriteNotAnswered));
    assert_eq!(Error::WriteNotAnswered.to_string(), "the CPU did not answer Write Var");
    let empty = answer(WRITE, Vec::new());
    assert_eq!(write.answer(&client, Some(&empty)), Err(Error::NoReturnCode));
    assert_eq!(
        Error::NoReturnCode.to_string(),
        "a Write Var answer without a return code"
    );
    let slice = write.slice().expect("slice");
    let refused = answer(WRITE, vec![0x05]);
    assert_eq!(write.answer(&client, Some(&refused)), Err(Error::OutOfRange(slice)));
    let good = answer(WRITE, vec![0xFF]);
    assert_eq!(write.answer(&client, Some(&good)), Ok(()));
    let job = decode(&write.job(&mut client).expect("second")).expect("job");
    assert_eq!(job.data, [0xFF, 4, 0, 8, 5, 0]);
    assert_eq!(job.parameter[11..], [0, 0, 32]);
    assert_eq!(job.reference, 3);
}

#[test]
fn more_bytes_than_an_address_spans_are_not_written() {
    let client = connected(480);
    let address: Address = "DB1.DBB0".parse().expect("address");
    let long = vec![0u8; 65_536];
    let error = client.write(&address, &long).err().expect("too many");
    assert_eq!(error.to_string(), "more bytes than one address spans");
    assert!(client.write(&address, &long[1..]).is_ok());
    assert!(client.write(&address, &[]).expect("nothing").slice().is_none());
}

#[test]
fn jobs_and_answers_keep_to_an_even_pdu_length() {
    for granted in [32, 240, 480] {
        let mut client = connected(granted);
        let address: Address = "DB1.DBB0.1000".parse().expect("address");
        let read = client.read(&address);
        let asked = read.slice().expect("slice").length;
        let answer = Message::ack_data(
            1,
            vec![READ, 1],
            encode_data(RETURN_OK, &vec![0; usize::from(asked)]),
        );
        assert_eq!(encode(&answer).len(), usize::from(granted));
        assert!(read.job(&mut client).expect("job").len() <= usize::from(granted));
        let bytes = [0; 1000];
        let write = client.write(&address, &bytes).expect("write");
        assert_eq!(write.job(&mut client).expect("job").len(), usize::from(granted));
    }
}

#[test]
fn references_wrap() {
    let mut client = Client::new();
    for _ in 0..65_535u32 {
        client.exchange(Vec::new(), Vec::new());
    }
    let job = decode(&client.exchange(Vec::new(), Vec::new())).expect("job");
    assert_eq!(job.reference, 0);
    let job = decode(&client.exchange(Vec::new(), Vec::new())).expect("job");
    assert_eq!(job.reference, 1);
}

#[test]
fn a_far_end_that_does_not_speak_s7_is_not_worth_another_try() {
    let error = setup_refusal(Some(b"<34>1 - - - - - - not S7".to_vec()));
    assert_eq!(error.to_string(), "protocol id 0x3c where S7 is 0x32");
    assert!(!error.retryable());
}

#[test]
fn only_a_pad_byte_goes_past_an_odd_pdu_length() {
    let mut client = connected(241);
    let address: Address = "DB1.DBB0".parse().expect("address");
    let bytes = [0; 1000];
    let mut write = client.write(&address, &bytes).expect("write");
    let mut sizes = Vec::new();
    while let Some(job) = write.job(&mut client) {
        sizes.push(job.len());
        let reference = decode(&job).expect("job").reference;
        let answer = encode(&Message::ack_data(reference, vec![WRITE, 1], vec![0xFF]));
        assert_eq!(write.answer(&client, Some(&answer)), Ok(()));
    }
    assert_eq!(sizes, [242, 242, 242, 242, 176]);
}
