use s7comm::error::Error;
use s7comm::header::{decode, encode, Message, Setup, READ, WRITE};
use s7comm::item::{encode_data, encode_item, Address, RETURN_OK};
use s7comm::{Area, Client, Event, Session};

/// The answer of `session` to `job`, as the client receives it.
fn serve(session: &mut Session, job: &[u8]) -> Vec<u8> {
    assert!(Session::can_serve(job));
    let (answer, _) = session
        .next_event(Some(job))
        .expect("served")
        .expect("a job");
    answer
}

fn connect(session: &mut Session) -> Client {
    let mut client = Client::new();
    let job = client.setup();
    let answer = serve(session, &job);
    match client.connect(Some(&answer)) {
        Ok(client) => client,
        Err(error) => panic!("{}", error.to_string()),
    }
}

fn read(client: &mut Client, session: &mut Session, address: &str) -> Result<Vec<u8>, Error> {
    let address: Address = address.parse().expect("address");
    let mut read = client.read(&address);
    while let Some(job) = read.job(client) {
        let answer = serve(session, &job);
        read.answer(client, Some(&answer))?;
    }
    Ok(read.into_bytes())
}

fn write(
    client: &mut Client,
    session: &mut Session,
    address: &str,
    bytes: &[u8],
) -> Result<(), Error> {
    let address: Address = address.parse().expect("address");
    let mut write = client.write(&address, bytes)?;
    while let Some(job) = write.job(client) {
        let answer = serve(session, &job);
        write.answer(client, Some(&answer))?;
    }
    Ok(())
}

#[test]
fn a_client_sets_up_reads_and_writes_and_is_refused_what_is_not_there() {
    let mut session = Session::new()
        .with_area(
            Area::DataBlock,
            12,
            (0..255u8).cycle().take(2000).collect::<Vec<_>>(),
        )
        .with_area(Area::Flag, 0, vec![0u8; 16])
        .with_area(Area::Input, 0, vec![0u8; 4]);
    let mut client = Client::new();
    let job = client.setup();
    let (answer, event) = session
        .next_event(Some(&job))
        .expect("setup")
        .expect("a job");
    assert_eq!(event, Event::Setup { pdu_length: 240 });
    let mut client = client.connect(Some(&answer)).ok().expect("connect");
    assert_eq!(client.pdu_length(), 240);
    let bytes = read(&mut client, &mut session, "DB12.DBB0.100").expect("read");
    assert_eq!(bytes.len(), 100);
    assert_eq!(&bytes[..4], &[0, 1, 2, 3]);
    let long: Vec<u8> = (0..1000u32)
        .map(|n| u8::try_from(n % 256).expect("fits"))
        .collect();
    write(&mut client, &mut session, "DB12.DBB200", &long).expect("write");
    assert_eq!(
        read(&mut client, &mut session, "DB12.DBB200.1000").expect("back"),
        long
    );
    write(&mut client, &mut session, "M0", &[0xAA, 0x55]).expect("flags");
    let missing = read(&mut client, &mut session, "DB99.DBB0.1").expect_err("no");
    assert!(missing.to_string().contains("object does not exist"));
    let past = read(&mut client, &mut session, "I0.10").expect_err("no");
    assert!(past.to_string().contains("out of range"));
    assert_eq!(session.next_event(None), Ok(None));
    assert_eq!(&session.area(Area::Flag, 0).expect("m")[..2], &[0xAA, 0x55]);
    assert_eq!(session.area(Area::DataBlock, 12).expect("db")[200], 0);
    assert_eq!(session.area(Area::DataBlock, 12).expect("db")[201], 1);
}

#[test]
fn both_ends_settle_on_the_lesser_length() {
    for (granted, client_keeps, session_keeps) in
        [(20, 32, 20), (32, 32, 32), (240, 240, 240), (480, 480, 480), (960, 480, 480)]
    {
        let mut session = Session::new().granting(granted);
        let mut client = Client::new();
        let job = client.setup();
        let (answer, event) = session
            .next_event(Some(&job))
            .expect("setup")
            .expect("a job");
        assert_eq!(event, Event::Setup { pdu_length: session_keeps });
        let client = client.connect(Some(&answer)).ok().expect("connect");
        assert_eq!(client.pdu_length(), client_keeps);
    }
}

#[test]
fn a_session_grants_no_more_than_it_once_settled() {
    let mut session = Session::new().granting(480);
    for (asked, granted) in [(300, 300), (400, 300), (100, 100), (300, 100)] {
        let job = encode(&Message::job(9, Setup::proposing(asked).encode(), Vec::new()));
        let answer = decode(&serve(&mut session, &job)).expect("answer");
        assert_eq!(answer.parameter, Setup::proposing(granted).encode());
        assert_eq!(answer.reference, 9);
    }
}

#[test]
fn a_write_past_the_end_leaves_the_slices_before_it() {
    let mut session = Session::new().granting(32).with_area(Area::Output, 0, vec![9u8; 10]);
    let mut client = connect(&mut session);
    let error = write(&mut client, &mut session, "Q0", &[1; 12]).expect_err("past");
    assert_eq!(error.to_string(), "Q8.4: out of range");
    assert_eq!(
        session.area(Area::Output, 0).expect("q"),
        &[1, 1, 1, 1, 1, 1, 1, 1, 9, 9]
    );
    let error = write(&mut client, &mut session, "Q20", &[1; 4]).expect_err("past");
    assert_eq!(error.to_string(), "Q20.4: out of range");
    let error = write(&mut client, &mut session, "DB1.DBB0", &[1; 9]).expect_err("missing");
    assert_eq!(error.to_string(), "DB1.DBB0.4: object does not exist");
    assert!(session.area(Area::DataBlock, 1).is_none());
}

#[test]
fn a_read_past_the_end_is_refused_at_the_first_slice_past_it() {
    let mut session = Session::new().granting(32).with_area(Area::Flag, 0, vec![9u8; 30]);
    let mut client = connect(&mut session);
    let error = read(&mut client, &mut session, "M0.31").expect_err("past");
    assert_eq!(error.to_string(), "M28.3: out of range");
    assert_eq!(read(&mut client, &mut session, "M0.30"), Ok(vec![9; 30]));
    let error = read(&mut client, &mut session, "DB4.DBB2.40").expect_err("missing");
    assert_eq!(error.to_string(), "DB4.DBB2.14: object does not exist");
}

#[test]
fn areas_are_told_apart_by_area_and_block() {
    let mut session = Session::new()
        .with_area(Area::DataBlock, 1, vec![1])
        .with_area(Area::DataBlock, 2, vec![2])
        .with_area(Area::Flag, 0, vec![3])
        .with_area(Area::Input, 0, vec![4])
        .with_area(Area::DataBlock, 2, vec![5, 6]);
    let mut client = connect(&mut session);
    write(&mut client, &mut session, "DB2.DBB1", &[7]).expect("write");
    assert_eq!(session.area(Area::DataBlock, 1), Some(&[1][..]));
    assert_eq!(session.area(Area::DataBlock, 2), Some(&[5, 7][..]));
    assert_eq!(session.area(Area::Flag, 0), Some(&[3][..]));
    assert_eq!(session.area(Area::Input, 0), Some(&[4][..]));
    assert_eq!(session.area(Area::Output, 0), None);
}

#[test]
fn what_a_session_does_not_serve_is_refused_and_changes_nothing() {
    let mut session = Session::new().with_area(Area::Flag, 0, vec![3]);
    let mut refuse = |bytes: &[u8]| session.next_event(Some(bytes)).expect_err("refused");
    let answer = encode(&Message::ack_data(1, vec![READ, 1], Vec::new()));
    assert_eq!(refuse(&answer).to_string(), "an answer where a job was due");
    let job = |parameter: Vec<u8>, data: Vec<u8>| encode(&Message::job(1, parameter, data));
    assert_eq!(
        refuse(&job(vec![0x29], Vec::new())).to_string(),
        "function Some(41) is not one this session serves"
    );
    assert_eq!(
        refuse(&job(Vec::new(), Vec::new())).to_string(),
        "function None is not one this session serves"
    );
    assert_eq!(
        refuse(&job(vec![READ, 2], Vec::new())).to_string(),
        "this session serves one item per job"
    );
    assert_eq!(refuse(&job(vec![READ], Vec::new())), Error::NotOneItem);
    assert_eq!(refuse(&job(vec![WRITE, 1, 0x12], Vec::new())), Error::NotAPointer);
    let mut parameter = vec![WRITE, 1];
    parameter.extend_from_slice(&encode_item(&"M0".parse().expect("address")));
    assert_eq!(refuse(&job(parameter, Vec::new())), Error::ShortDataHeader);
    assert_eq!(refuse(&[0x32]), Error::ShortPdu);
    assert_eq!(refuse(&job(vec![0xF0, 0], Vec::new())), Error::NotSetup);
    assert_eq!(session.area(Area::Flag, 0), Some(&[3][..]));
}

#[test]
fn a_write_is_as_long_as_what_it_carries() {
    let mut session = Session::new().with_area(Area::Flag, 0, vec![0; 4]);
    let mut parameter = vec![WRITE, 1];
    parameter.extend_from_slice(&encode_item(&"M1.9".parse().expect("address")));
    let job = encode(&Message::job(5, parameter, encode_data(RETURN_OK, &[1, 2])));
    let (answer, event) = session.next_event(Some(&job)).expect("served").expect("a job");
    let address: Address = "M1.9".parse().expect("address");
    assert_eq!(event, Event::Written { address, served: true });
    assert_eq!(answer, encode(&Message::ack_data(5, vec![WRITE, 1], vec![0xFF])));
    assert_eq!(session.area(Area::Flag, 0), Some(&[0, 1, 2, 0][..]));
}

#[test]
fn a_pointer_to_more_than_can_be_counted_is_seen_before_it_is_served() {
    let asking = |size: u8, high: u8| {
        let parameter =
            vec![READ, 1, 0x12, 0x0A, 0x10, size, high, 0, 0, 0, 0x83, 0, 0, 0];
        encode(&Message::job(1, parameter, Vec::new()))
    };
    assert!(Session::can_serve(&asking(0x02, 0xFF)));
    assert!(Session::can_serve(&asking(0x04, 0x7F)));
    assert!(!Session::can_serve(&asking(0x04, 0x80)));
    assert!(!Session::can_serve(&asking(0x06, 0x40)));
    assert!(Session::can_serve(b"not S7"));
    let mut session = Session::new().with_area(Area::Flag, 0, vec![0; 4]);
    let (_, event) = session
        .next_event(Some(&asking(0x04, 0x00)))
        .expect("served")
        .expect("a job");
    let address = Address { area: Area::Flag, db: 0, offset: 0, length: 0 };
    assert_eq!(event, Event::Read { address, served: true });
}

#[test]
fn what_is_not_held_is_refused_however_far() {
    let mut session = Session::new().with_area(Area::Flag, 0, vec![0; 4]);
    let mut client = connect(&mut session);
    let error = read(&mut client, &mut session, "DB1.DBB5000000.3").expect_err("missing");
    assert_eq!(error.to_string(), "DB1.DBB5000000.3: object does not exist");
    let error = write(&mut client, &mut session, "DB1.DBB5000000", &[1]).expect_err("missing");
    assert_eq!(error.to_string(), "DB1.DBB5000000.1: object does not exist");
    let error = read(&mut client, &mut session, "M2097160.1").expect_err("past");
    assert_eq!(error.to_string(), "M2097160.1: out of range");
}

#[test]
fn what_is_written_where_a_pointer_cannot_say_is_read_back() {
    let mut session = Session::new().with_area(Area::Flag, 0, vec![0; 600]);
    let mut client = connect(&mut session);
    let bytes = [7; 500];
    write(&mut client, &mut session, "M2097162", &bytes).expect("write");
    assert_eq!(
        read(&mut client, &mut session, "M2097162.500"),
        Ok(bytes.to_vec())
    );
    assert_eq!(&session.area(Area::Flag, 0).expect("m")[9..11], &[0, 7]);
}
