//! A client and a session at the two ends of one connection: what comes of
//! setting up, reading and writing when every job of the one is served by the
//! other.

use vstd::prelude::*;

use crate::client::{
    answered, lemma_reached, lemma_reached_nothing, reached, read_answer, read_job, settled, setup_answer, setup_job,
    slice_at, write_answer, write_job, ClientState, ReadState, WriteState,
};
use crate::error::Error;
use crate::header::{Pdu, Setup, DEFAULT_PDU_LENGTH, READ, SETUP, WRITE};
use crate::item::{
    as_pointed, carried, countable, data_item, pointer, refused, Address, Area, OUT_OF_RANGE, RETURN_OK,
};
use crate::laws::{
    data_round_trip, message_round_trip, pointer_keeps_the_low_bits, refusal_round_trip,
    setup_round_trip, slices_cover_the_address,
};
use crate::session::{asks_countable, item_named, overwritten, servable, Event, SessionState};

verus! {

/// The two ends after an operation, and what the client has of it.
pub struct Outcome<T> {
    pub client: ClientState,
    pub session: SessionState,
    pub result: Result<T, Error>,
}

/// Setup Communication carried out: the client proposes, the session grants.
/// A session that refuses a job closes.
pub open spec fn connected(client: ClientState, session: SessionState) -> Outcome<()> {
    let asking = client.sent();
    match session.served(setup_job(asking.reference).encoded()) {
        Err(_) => Outcome { client: asking, session, result: Err(Error::Closed) },
        Ok(served) => match setup_answer(asking.reference, Some(served.answer.encoded())) {
            Err(e) => Outcome { client: asking, session: served.session, result: Err(e) },
            Ok(pdu_length) => Outcome {
                client: ClientState { pdu_length, reference: asking.reference },
                session: served.session,
                result: Ok(()),
            },
        },
    }
}

/// One job that reads, sent, served and its answer judged.
#[verifier::opaque]
pub open spec fn slice_read(client: ClientState, slice: Address, session: SessionState) -> Outcome<
    Seq<u8>,
> {
    let asking = client.sent();
    match session.served(read_job(asking.reference, slice).encoded()) {
        Err(_) => Outcome { client: asking, session, result: Err(Error::Closed) },
        Ok(served) => Outcome {
            client: asking,
            session: served.session,
            result: read_answer(asking.reference, slice, Some(served.answer.encoded())),
        },
    }
}

/// One job that writes, sent, served and its answer judged.
#[verifier::opaque]
pub open spec fn slice_written(
    client: ClientState,
    slice: Address,
    bytes: Seq<u8>,
    session: SessionState,
) -> Outcome<()> {
    let asking = client.sent();
    match session.served(write_job(asking.reference, slice, bytes).encoded()) {
        Err(_) => Outcome { client: asking, session, result: Err(Error::Closed) },
        Ok(served) => Outcome {
            client: asking,
            session: served.session,
            result: write_answer(asking.reference, slice, Some(served.answer.encoded())),
        },
    }
}

/// A read carried to its end, slice by slice.
pub open spec fn polled(client: ClientState, read: ReadState, session: SessionState) -> Outcome<
    Seq<u8>,
>
    decreases read.slices().len() - read.done,
{
    if read.finished() {
        Outcome { client, session, result: Ok(read.bytes) }
    } else {
        let step = slice_read(client, read.slice(), session);
        match step.result {
            Err(e) => step,
            Ok(bytes) => polled(step.client, read.brought(bytes), step.session),
        }
    }
}

/// A write carried to its end, slice by slice.
pub open spec fn delivered(
    client: ClientState,
    write: WriteState,
    session: SessionState,
) -> Outcome<()>
    decreases write.slices().len() - write.done,
{
    if write.finished() {
        Outcome { client, session, result: Ok(()) }
    } else {
        let step = slice_written(client, write.slice(), write.chunk(), session);
        match step.result {
            Err(e) => step,
            Ok(()) => delivered(step.client, write.written(), step.session),
        }
    }
}

/// Whether every slice starts where the 24 bits of a pointer can say so.
pub open spec fn addressable(slices: Seq<Address>) -> bool {
    forall|i: int| 0 <= i < slices.len() ==> (#[trigger] slices[i]).offset * 8 < 0x100_0000
}

/// Whether every slice starts in the same two megabytes as `address`: of
/// where they start, pointers then leave out the same.
pub open spec fn in_one_block(slices: Seq<Address>, address: Address) -> bool {
    forall|i: int|
        0 <= i < slices.len() ==> (#[trigger] slices[i]).offset / 0x20_0000 == address.offset
            / 0x20_0000
}

/// Whether the slice at `k` is the first that ends past `length` bytes.
pub open spec fn first_past(slices: Seq<Address>, k: int, length: nat) -> bool {
    &&& 0 <= k < slices.len()
    &&& slices[k].offset + slices[k].length > length
    &&& forall|i: int|
        0 <= i < k ==> (#[trigger] slices[i]).offset + slices[i].length <= length
}

/// Whether every slice that ends within `length` bytes starts where the 24
/// bits of a pointer can say so.
pub open spec fn addressable_within(slices: Seq<Address>, length: nat) -> bool {
    forall|i: int|
        0 <= i < slices.len() && (#[trigger] slices[i]).offset + slices[i].length <= length
            ==> slices[i].offset * 8 < 0x100_0000
}

/// Whether the pointer to the first slice that ends past `length` bytes names
/// what does so too.
pub open spec fn pointed_past(slices: Seq<Address>, length: nat) -> bool {
    forall|k: int| #[trigger]
        first_past(slices, k, length) ==> as_pointed(slices[k]).offset + slices[k].length > length
}

/// What is sent is what is received.
proof fn lemma_arrives(pdu: Pdu)
    requires
        pdu.fits(),
    ensures
        Pdu::decoded(pdu.encoded()) == Ok::<Pdu, Error>(pdu),
{
    message_round_trip(pdu, Seq::empty());
    assert(pdu.encoded() + Seq::empty() =~= pdu.encoded());
}

/// The parameter part of a job arrives, however long its data part is.
proof fn lemma_parameter_arrives(job: Pdu)
    requires
        job.rosctr is Job,
        job.parameter.len() <= u16::MAX,
    ensures
        Pdu::decoded(job.encoded()) matches Ok(got) && got.rosctr is Job && got.parameter
            == job.parameter,
{
    let bytes = job.encoded();
    let middle = 10 + job.parameter.len();
    assert(forall|i: int| 0 <= i < 10 ==> bytes[i] == job.header()[i]);
    assert(bytes.subrange(10, middle as int) =~= job.parameter);
}

/// A job that can be counted can be served when it arrives.
proof fn lemma_servable(job: Pdu)
    requires
        job.rosctr is Job,
        job.parameter.len() <= u16::MAX,
        asks_countable(job),
    ensures
        servable(job.encoded()),
{
    lemma_parameter_arrives(job);
}

/// A job that is sent is the job that is served.
proof fn lemma_job_arrives(job: Pdu, session: SessionState)
    requires
        job.fits(),
    ensures
        session.served(job.encoded()) == session.answer_to(job),
{
    lemma_arrives(job);
}

/// An answer that is sent is the answer that is judged.
proof fn lemma_answer_arrives(answer: Pdu)
    requires
        answer.fits(),
        answer.rosctr is AckData,
        answer.error == 0,
    ensures
        answered(answer.reference, Some(answer.encoded())) == Ok::<Pdu, Error>(answer),
{
    lemma_arrives(answer);
}

/// The item that a job for one slice names is what its pointer says of it.
proof fn lemma_item_named(function: u8, slice: Address)
    ensures
        item_named(seq![function, 1] + pointer(slice)) == Ok::<Address, Error>(as_pointed(slice)),
        countable((seq![function, 1] + pointer(slice)).skip(2)),
        (seq![function, 1] + pointer(slice)).len() == 14,
        (seq![function, 1] + pointer(slice))[0] == function,
{
    pointer_keeps_the_low_bits(slice, Seq::empty());
    assert(pointer(slice) + Seq::empty() =~= pointer(slice));
    assert((seq![function, 1] + pointer(slice)).skip(2) =~= pointer(slice));
}

/// What a data item carries is read back.
proof fn lemma_data_arrives(code: u8, bytes: Seq<u8>)
    requires
        bytes.len() * 8 <= u16::MAX,
    ensures
        data_item(code, bytes).len() <= u16::MAX,
        carried(data_item(code, bytes)) matches Ok((got, data, _)) && got == code && data == if code
            == RETURN_OK {
            bytes
        } else {
            Seq::empty()
        },
{
    assert(data_item(code, bytes) + Seq::empty() =~= data_item(code, bytes));
    if code == RETURN_OK {
        data_round_trip(bytes, Seq::empty());
    } else {
        refusal_round_trip(code, bytes, Seq::empty());
    }
}

/// Setup Communication as both ends see it, the PDUs taken for their bytes.
proof fn lemma_setup_granted(reference: u16, session: SessionState)
    ensures
        ({
            let granted = if session.pdu_length <= DEFAULT_PDU_LENGTH {
                session.pdu_length
            } else {
                DEFAULT_PDU_LENGTH
            };
            &&& session.answer_to(setup_job(reference)) matches Ok(served)
            &&& served.session == SessionState { areas: session.areas, pdu_length: granted }
            &&& served.answer == Pdu::ack_data(
                reference,
                Setup::proposal(granted).encoded(),
                Seq::empty(),
            )
        }),
{
    setup_round_trip(Setup::proposal(DEFAULT_PDU_LENGTH));
    assert(setup_job(reference).function() == Some(SETUP));
}

/// A client and a session settle on the lesser of what is proposed and what
/// is granted, and no less than 32 on the client's side.
pub proof fn both_ends_settle(client: ClientState, session: SessionState)
    ensures
        ({
            let outcome = connected(client, session);
            let granted = if session.pdu_length <= DEFAULT_PDU_LENGTH {
                session.pdu_length
            } else {
                DEFAULT_PDU_LENGTH
            };
            &&& outcome.result is Ok
            &&& outcome.session == SessionState { areas: session.areas, pdu_length: granted }
            &&& outcome.client.pdu_length == settled(granted)
            &&& granted >= 32 ==> outcome.client.pdu_length == outcome.session.pdu_length
        }),
{
    let reference = client.sent().reference;
    let job = setup_job(reference);
    lemma_setup_granted(reference, session);
    lemma_job_arrives(job, session);
    let served = session.answer_to(job)->Ok_0;
    lemma_answer_arrives(served.answer);
    setup_round_trip(Setup::proposal(served.session.pdu_length));
    assert(served.answer.function() == Some(SETUP));
}

/// What serving a slice to be read gives.
proof fn lemma_read_served(reference: u16, slice: Address, session: SessionState)
    ensures
        ({
            let code = session.verdict(as_pointed(slice), slice.length as nat);
            let start = as_pointed(slice).offset as int;
            let bytes = if code == RETURN_OK {
                session.areas[(slice.area, slice.db)].subrange(start, start + slice.length)
            } else {
                Seq::empty()
            };
            &&& read_job(reference, slice).fits()
            &&& session.answer_to(read_job(reference, slice)) matches Ok(served)
            &&& served.session == session
            &&& served.answer == Pdu::ack_data(reference, seq![READ, 1], data_item(code, bytes))
        }),
{
    lemma_item_named(READ, slice);
}

/// One slice read: the bytes its pointer names, or the refusal; the session is
/// as it was.
proof fn lemma_slice_read(client: ClientState, slice: Address, session: SessionState)
    requires
        slice.length * 8 <= u16::MAX,
    ensures
        ({
            let step = slice_read(client, slice, session);
            let code = session.verdict(as_pointed(slice), slice.length as nat);
            let start = as_pointed(slice).offset as int;
            &&& step.client == client.sent()
            &&& step.session == session
            &&& step.result == if code == RETURN_OK {
                Ok::<Seq<u8>, Error>(
                    session.areas[(slice.area, slice.db)].subrange(start, start + slice.length),
                )
            } else {
                Err::<Seq<u8>, Error>(refused(code, slice)->Some_0)
            }
        }),
{
    reveal(slice_read);
    let reference = client.sent().reference;
    let job = read_job(reference, slice);
    let code = session.verdict(as_pointed(slice), slice.length as nat);
    let start = as_pointed(slice).offset as int;
    let bytes = if code == RETURN_OK {
        session.areas[(slice.area, slice.db)].subrange(start, start + slice.length)
    } else {
        Seq::empty()
    };
    lemma_read_served(reference, slice, session);
    lemma_job_arrives(job, session);
    lemma_data_arrives(code, bytes);
    let answer = Pdu::ack_data(reference, seq![READ, 1], data_item(code, bytes));
    assert(answer.function() == Some(READ));
    lemma_answer_arrives(answer);
}

/// What serving a slice to be written gives.
proof fn lemma_write_served(reference: u16, slice: Address, bytes: Seq<u8>, session: SessionState)
    requires
        bytes.len() * 8 <= u16::MAX,
    ensures
        ({
            let code = session.verdict(as_pointed(slice), bytes.len());
            &&& write_job(reference, slice, bytes).fits()
            &&& session.answer_to(write_job(reference, slice, bytes)) matches Ok(served)
            &&& served.session == session.taking(as_pointed(slice), bytes)
            &&& served.answer == Pdu::ack_data(reference, seq![WRITE, 1], seq![code])
        }),
{
    lemma_item_named(WRITE, slice);
    lemma_data_arrives(RETURN_OK, bytes);
}

/// One slice written: its bytes are where its pointer says, or it is refused
/// and the session is as it was.
proof fn lemma_slice_written(
    client: ClientState,
    slice: Address,
    bytes: Seq<u8>,
    session: SessionState,
)
    requires
        bytes.len() * 8 <= u16::MAX,
    ensures
        ({
            let step = slice_written(client, slice, bytes, session);
            let code = session.verdict(as_pointed(slice), bytes.len());
            &&& step.client == client.sent()
            &&& step.session == session.taking(as_pointed(slice), bytes)
            &&& step.result == if code == RETURN_OK {
                Ok::<(), Error>(())
            } else {
                Err::<(), Error>(refused(code, slice)->Some_0)
            }
        }),
{
    reveal(slice_written);
    let reference = client.sent().reference;
    let job = write_job(reference, slice, bytes);
    let code = session.verdict(as_pointed(slice), bytes.len());
    lemma_write_served(reference, slice, bytes, session);
    lemma_job_arrives(job, session);
    let answer = Pdu::ack_data(reference, seq![WRITE, 1], seq![code]);
    assert(answer.function() == Some(WRITE));
    lemma_answer_arrives(answer);
}

/// A read whose slices are all in the same two megabytes brings the bytes
/// that its pointers name.
proof fn lemma_polled_within(client: ClientState, read: ReadState, session: SessionState)
    requires
        0 < read.per_job <= 8191,
        read.whole.offset + read.whole.length <= u32::MAX,
        in_one_block(read.slices(), read.whole),
        read.done <= read.slices().len(),
        session.verdict(as_pointed(read.whole), read.whole.length as nat) == RETURN_OK,
        read.bytes == session.areas[(read.whole.area, read.whole.db)].subrange(
            as_pointed(read.whole).offset as int,
            as_pointed(read.whole).offset + reached(read.whole, read.per_job, read.done),
        ),
    ensures
        polled(client, read, session).session == session,
        polled(client, read, session).result == Ok::<Seq<u8>, Error>(
            session.areas[(read.whole.area, read.whole.db)].subrange(
                as_pointed(read.whole).offset as int,
                as_pointed(read.whole).offset + read.whole.length,
            ),
        ),
    decreases read.slices().len() - read.done,
{
    if !read.finished() {
        let slice = read.slice();
        let area = session.areas[(read.whole.area, read.whole.db)];
        let from = as_pointed(read.whole).offset as int;
        let start = from + reached(read.whole, read.per_job, read.done);
        lemma_reached(read.whole, read.per_job, read.done);
        assert(slice == slice_at(read.whole, read.per_job, read.done as int));
        assert(slice == read.slices()[read.done as int]);
        assert(as_pointed(slice).offset == start);
        lemma_slice_read(client, slice, session);
        let bytes = area.subrange(start, start + slice.length);
        assert(read.brought(bytes).bytes =~= area.subrange(from, start + slice.length));
        lemma_polled_within(client.sent(), read.brought(bytes), session);
    }
}

/// A read begun has brought nothing yet.
proof fn lemma_read_begun(client: ClientState, address: Address, session: SessionState)
    requires
        32 <= client.pdu_length <= DEFAULT_PDU_LENGTH,
        address.offset + address.length <= u32::MAX,
        in_one_block(ReadState::begun(address, client.pdu_length).slices(), address),
        session.verdict(as_pointed(address), address.length as nat) == RETURN_OK,
    ensures
        ({
            let outcome = polled(
                client,
                ReadState::begun(address, client.pdu_length),
                session,
            );
            let start = as_pointed(address).offset as int;
            &&& outcome.session == session
            &&& outcome.result == Ok::<Seq<u8>, Error>(
                session.areas[(address.area, address.db)].subrange(start, start + address.length),
            )
        }),
{
    let read = ReadState::begun(address, client.pdu_length);
    let start = as_pointed(address).offset as int;
    lemma_reached_nothing(address, read.per_job);
    assert(read.bytes =~= session.areas[(address.area, address.db)].subrange(start, start));
    lemma_polled_within(client, read, session);
}

/// A read of what a session holds brings exactly those bytes, in however many
/// jobs it takes, and leaves the session as it was.
pub proof fn read_brings_what_is_held(client: ClientState, address: Address, session: SessionState)
    requires
        32 <= client.pdu_length <= DEFAULT_PDU_LENGTH,
        address.offset + address.length <= u32::MAX,
        addressable(ReadState::begun(address, client.pdu_length).slices()),
        session.areas.contains_key((address.area, address.db)),
        address.offset + address.length <= session.areas[(address.area, address.db)].len(),
    ensures
        ({
            let outcome = polled(
                client,
                ReadState::begun(address, client.pdu_length),
                session,
            );
            let start = address.offset as int;
            &&& outcome.session == session
            &&& outcome.result == Ok::<Seq<u8>, Error>(
                session.areas[(address.area, address.db)].subrange(start, start + address.length),
            )
        }),
{
    let read = ReadState::begun(address, client.pdu_length);
    let start = address.offset as int;
    slices_cover_the_address(address, read.per_job);
    if address.length == 0 {
        assert(session.areas[(address.area, address.db)].subrange(start, start) =~= read.bytes);
    } else {
        assert(read.slices()[0].offset == start);
        lemma_read_begun(client, address, session);
    }
}

/// A read of an area that a session does not hold is refused: the object does
/// not exist.
pub proof fn read_of_what_is_not_held(client: ClientState, address: Address, session: SessionState)
    requires
        32 <= client.pdu_length <= DEFAULT_PDU_LENGTH,
        address.offset + address.length <= u32::MAX,
        address.length > 0,
        !session.areas.contains_key((address.area, address.db)),
    ensures
        ({
            let read = ReadState::begun(address, client.pdu_length);
            let outcome = polled(client, read, session);
            &&& outcome.session == session
            &&& outcome.result == Err::<Seq<u8>, Error>(Error::ObjectDoesNotExist(read.slices()[0]))
        }),
{
    let read = ReadState::begun(address, client.pdu_length);
    slices_cover_the_address(address, read.per_job);
    lemma_slice_read(client, read.slice(), session);
}

proof fn lemma_polled_past(client: ClientState, read: ReadState, session: SessionState)
    requires
        0 < read.per_job <= 8191,
        read.whole.offset + read.whole.length <= u32::MAX,
        read.whole.length > 0,
        read.done <= read.slices().len(),
        session.verdict(read.whole, read.whole.length as nat) == OUT_OF_RANGE,
        pointed_past(
            read.slices(),
            session.areas[(read.whole.area, read.whole.db)].len(),
        ),
        forall|i: int|
            0 <= i < read.done ==> (#[trigger] read.slices()[i]).offset + read.slices()[i].length
                <= session.areas[(read.whole.area, read.whole.db)].len(),
    ensures
        polled(client, read, session).session == session,
        exists|k: int| #[trigger]
            first_past(
                read.slices(),
                k,
                session.areas[(read.whole.area, read.whole.db)].len(),
            ) && polled(client, read, session).result == Err::<Seq<u8>, Error>(
                Error::OutOfRange(read.slices()[k]),
            ),
    decreases read.slices().len() - read.done,
{
    let held = session.areas[(read.whole.area, read.whole.db)].len();
    let slices = read.slices();
    if read.finished() {
        slices_cover_the_address(read.whole, read.per_job);
        assert(slices[slices.len() - 1].offset + slices[slices.len() - 1].length <= held);
    } else {
        let slice = read.slice();
        lemma_reached(read.whole, read.per_job, read.done);
        assert(slice == slice_at(read.whole, read.per_job, read.done as int));
        lemma_slice_read(client, slice, session);
        if slice.offset + slice.length > held {
            assert(first_past(slices, read.done as int, held));
        } else {
            let start = as_pointed(slice).offset as int;
            let bytes = session.areas[(slice.area, slice.db)].subrange(start, start + slice.length);
            lemma_polled_past(client.sent(), read.brought(bytes), session);
        }
    }
}

/// A read past the end of what a session holds is refused as out of range, at
/// the first slice that is past it, where the pointer to that slice names what
/// is past it too.
pub proof fn read_past_the_end(client: ClientState, address: Address, session: SessionState)
    requires
        32 <= client.pdu_length <= DEFAULT_PDU_LENGTH,
        address.offset + address.length <= u32::MAX,
        address.length > 0,
        session.areas.contains_key((address.area, address.db)),
        address.offset + address.length > session.areas[(address.area, address.db)].len(),
        pointed_past(
            ReadState::begun(address, client.pdu_length).slices(),
            session.areas[(address.area, address.db)].len(),
        ),
    ensures
        ({
            let read = ReadState::begun(address, client.pdu_length);
            let outcome = polled(client, read, session);
            &&& outcome.session == session
            &&& exists|k: int| #[trigger]
                first_past(read.slices(), k, session.areas[(address.area, address.db)].len())
                    && outcome.result == Err::<Seq<u8>, Error>(Error::OutOfRange(read.slices()[k]))
        }),
{
    lemma_polled_past(client, ReadState::begun(address, client.pdu_length), session);
}

/// What an area of `held` bytes holds once the first `n` of `bytes` have been
/// written from `start` on.
pub open spec fn partly_written(held: Seq<u8>, start: int, bytes: Seq<u8>, n: int) -> Seq<u8> {
    if n == 0 {
        held
    } else {
        overwritten(held, start, bytes.take(n))
    }
}

/// A write under way of which the slices done are in the area, from `start`
/// on.
spec fn under_way(write: WriteState, session: SessionState, held: Seq<u8>, start: int) -> bool {
    let key = (write.whole.area, write.whole.db);
    let n = reached(write.whole, write.per_job, write.done);
    &&& 0 < write.per_job <= 8191
    &&& write.whole.offset + write.whole.length <= u32::MAX
    &&& write.whole.length == write.bytes.len()
    &&& write.done <= write.slices().len()
    &&& session.areas.contains_key(key)
    &&& session.areas[key] == partly_written(held, start, write.bytes, n)
    &&& 0 <= start
    &&& n > 0 ==> start + n <= held.len()
}

/// One slice more of a write under way, where its pointer names what comes
/// next, or is past the end as that is.
proof fn lemma_write_step(
    client: ClientState,
    write: WriteState,
    session: SessionState,
    held: Seq<u8>,
    start: int,
)
    requires
        under_way(write, session, held, start),
        !write.finished(),
        ({
            let there = as_pointed(write.slice()).offset;
            let next = start + reached(write.whole, write.per_job, write.done);
            if next + write.slice().length <= held.len() {
                there == next
            } else {
                there + write.slice().length > held.len()
            }
        }),
    ensures
        ({
            let step = slice_written(client, write.slice(), write.chunk(), session);
            let key = (write.whole.area, write.whole.db);
            let n = reached(write.whole, write.per_job, write.done);
            let fits = start + n + write.slice().length <= held.len();
            &&& step.client == client.sent()
            &&& fits ==> {
                &&& step.result is Ok
                &&& under_way(write.written(), step.session, held, start)
                &&& step.session == SessionState {
                    areas: session.areas.insert(key, step.session.areas[key]),
                    pdu_length: session.pdu_length,
                }
            }
            &&& !fits ==> {
                &&& step.result == Err::<(), Error>(Error::OutOfRange(write.slice()))
                &&& step.session == session
            }
        }),
{
    let key = (write.whole.area, write.whole.db);
    let slice = write.slice();
    let chunk = write.chunk();
    let n = reached(write.whole, write.per_job, write.done);
    let m = reached(write.whole, write.per_job, write.done + 1);
    lemma_reached(write.whole, write.per_job, write.done);
    assert(slice == slice_at(write.whole, write.per_job, write.done as int));
    assert(chunk == write.bytes.subrange(n, m));
    lemma_slice_written(client, slice, chunk, session);
    assert(session.areas[key].len() == held.len());
    if start + n + slice.length <= held.len() {
        assert(overwritten(session.areas[key], start + n, chunk) =~= overwritten(
            held,
            start,
            write.bytes.take(m),
        ));
        let after = session.taking(as_pointed(slice), chunk);
        assert(after.areas.contains_key(key));
        assert(after.areas[key] == overwritten(session.areas[key], start + n, chunk));
    }
}

/// A write whose slices are all in the same two megabytes puts the bytes where
/// its pointers say.
proof fn lemma_delivered_within(
    client: ClientState,
    write: WriteState,
    session: SessionState,
    held: Seq<u8>,
    start: int,
)
    requires
        under_way(write, session, held, start),
        in_one_block(write.slices(), write.whole),
        start == as_pointed(write.whole).offset,
        start + write.whole.length <= held.len(),
    ensures
        ({
            let outcome = delivered(client, write, session);
            let key = (write.whole.area, write.whole.db);
            &&& outcome.result == Ok::<(), Error>(())
            &&& outcome.client.pdu_length == client.pdu_length
            &&& outcome.session == SessionState {
                areas: session.areas.insert(key, overwritten(held, start, write.bytes)),
                pdu_length: session.pdu_length,
            }
        }),
    decreases write.slices().len() - write.done,
{
    let key = (write.whole.area, write.whole.db);
    if write.finished() {
        assert(write.bytes.take(write.bytes.len() as int) =~= write.bytes);
        assert(overwritten(held, start, write.bytes) =~= session.areas[key]);
        assert(session.areas.insert(key, session.areas[key]) =~= session.areas);
    } else {
        lemma_reached(write.whole, write.per_job, write.done);
        assert(write.slice() == write.slices()[write.done as int]);
        lemma_write_step(client, write, session, held, start);
        let step = slice_written(client, write.slice(), write.chunk(), session);
        lemma_delivered_within(step.client, write.written(), step.session, held, start);
        assert(step.session.areas.insert(key, overwritten(held, start, write.bytes))
            =~= session.areas.insert(key, overwritten(held, start, write.bytes)));
    }
}

/// A write begun has put nothing yet.
proof fn lemma_write_begun(
    client: ClientState,
    address: Address,
    bytes: Seq<u8>,
    session: SessionState,
)
    requires
        32 <= client.pdu_length <= DEFAULT_PDU_LENGTH,
        bytes.len() <= u16::MAX,
        address.offset + bytes.len() <= u32::MAX,
        in_one_block(WriteState::begun(address, bytes, client.pdu_length).slices(), address),
        session.verdict(as_pointed(address), bytes.len()) == RETURN_OK,
    ensures
        ({
            let outcome = delivered(
                client,
                WriteState::begun(address, bytes, client.pdu_length),
                session,
            );
            let key = (address.area, address.db);
            let start = as_pointed(address).offset as int;
            &&& outcome.result == Ok::<(), Error>(())
            &&& outcome.client.pdu_length == client.pdu_length
            &&& outcome.session == SessionState {
                areas: session.areas.insert(key, overwritten(session.areas[key], start, bytes)),
                pdu_length: session.pdu_length,
            }
        }),
{
    let write = WriteState::begun(address, bytes, client.pdu_length);
    let start = as_pointed(address).offset as int;
    lemma_reached_nothing(write.whole, write.per_job);
    lemma_delivered_within(client, write, session, session.areas[(address.area, address.db)], start);
}

/// A write into what a session holds puts exactly the bytes there, in however
/// many jobs it takes, and changes nothing else.
pub proof fn write_puts_the_bytes(
    client: ClientState,
    address: Address,
    bytes: Seq<u8>,
    session: SessionState,
)
    requires
        32 <= client.pdu_length <= DEFAULT_PDU_LENGTH,
        bytes.len() <= u16::MAX,
        address.offset + bytes.len() <= u32::MAX,
        addressable(WriteState::begun(address, bytes, client.pdu_length).slices()),
        session.areas.contains_key((address.area, address.db)),
        address.offset + bytes.len() <= session.areas[(address.area, address.db)].len(),
    ensures
        ({
            let outcome = delivered(
                client,
                WriteState::begun(address, bytes, client.pdu_length),
                session,
            );
            let key = (address.area, address.db);
            &&& outcome.result == Ok::<(), Error>(())
            &&& outcome.client.pdu_length == client.pdu_length
            &&& outcome.session == SessionState {
                areas: session.areas.insert(
                    key,
                    overwritten(session.areas[key], address.offset as int, bytes),
                ),
                pdu_length: session.pdu_length,
            }
        }),
{
    let write = WriteState::begun(address, bytes, client.pdu_length);
    let key = (address.area, address.db);
    slices_cover_the_address(write.whole, write.per_job);
    if bytes.len() == 0 {
        assert(overwritten(session.areas[key], address.offset as int, bytes)
            =~= session.areas[key]);
        assert(session.areas.insert(key, session.areas[key]) =~= session.areas);
    } else {
        assert(write.slices()[0].offset == address.offset);
        lemma_write_begun(client, address, bytes, session);
    }
}

/// A write into an area that a session does not hold is refused, as long as
/// there is something to write: the object does not exist.
pub proof fn write_of_what_is_not_held(
    client: ClientState,
    address: Address,
    bytes: Seq<u8>,
    session: SessionState,
)
    requires
        32 <= client.pdu_length <= DEFAULT_PDU_LENGTH,
        0 < bytes.len() <= u16::MAX,
        address.offset + bytes.len() <= u32::MAX,
        !session.areas.contains_key((address.area, address.db)),
    ensures
        ({
            let write = WriteState::begun(address, bytes, client.pdu_length);
            let outcome = delivered(client, write, session);
            &&& outcome.session == session
            &&& outcome.result == Err::<(), Error>(Error::ObjectDoesNotExist(write.slices()[0]))
        }),
{
    let write = WriteState::begun(address, bytes, client.pdu_length);
    slices_cover_the_address(write.whole, write.per_job);
    assert(write.slice() == write.slices()[0]);
    lemma_slice_written(client, write.slice(), write.chunk(), session);
}

proof fn lemma_delivered_past(
    client: ClientState,
    write: WriteState,
    session: SessionState,
    held: Seq<u8>,
)
    requires
        under_way(write, session, held, write.whole.offset as int),
        write.whole.length > 0,
        write.whole.offset + write.whole.length > held.len(),
        forall|i: int|
            0 <= i < write.done ==> (#[trigger] write.slices()[i]).offset + write.slices()[i].length
                <= held.len(),
        addressable_within(write.slices(), held.len()),
        pointed_past(write.slices(), held.len()),
    ensures
        exists|k: int| #[trigger]
            first_past(write.slices(), k, held.len()) && {
                let outcome = delivered(client, write, session);
                let key = (write.whole.area, write.whole.db);
                let start = write.whole.offset as int;
                &&& outcome.result == Err::<(), Error>(Error::OutOfRange(write.slices()[k]))
                &&& outcome.session == SessionState {
                    areas: session.areas.insert(
                        key,
                        partly_written(held, start, write.bytes, write.slices()[k].offset - start),
                    ),
                    pdu_length: session.pdu_length,
                }
            },
    decreases write.slices().len() - write.done,
{
    let key = (write.whole.area, write.whole.db);
    let start = write.whole.offset as int;
    let slices = write.slices();
    if write.finished() {
        slices_cover_the_address(write.whole, write.per_job);
        assert(slices[slices.len() - 1].offset + slices[slices.len() - 1].length <= held.len());
    } else {
        let slice = write.slice();
        lemma_reached(write.whole, write.per_job, write.done);
        assert(slice == slices[write.done as int]);
        if slice.offset + slice.length > held.len() {
            assert(first_past(slices, write.done as int, held.len()));
        }
        lemma_write_step(client, write, session, held, start);
        let step = slice_written(client, slice, write.chunk(), session);
        if slice.offset + slice.length > held.len() {
            assert(session.areas.insert(key, session.areas[key]) =~= session.areas);
        } else {
            lemma_delivered_past(step.client, write.written(), step.session, held);
            let k = choose|k: int| #[trigger]
                first_past(slices, k, held.len()) && {
                    let outcome = delivered(step.client, write.written(), step.session);
                    &&& outcome.result == Err::<(), Error>(Error::OutOfRange(slices[k]))
                    &&& outcome.session == SessionState {
                        areas: step.session.areas.insert(
                            key,
                            partly_written(held, start, write.bytes, slices[k].offset - start),
                        ),
                        pdu_length: session.pdu_length,
                    }
                };
            let end = partly_written(held, start, write.bytes, slices[k].offset - start);
            assert(step.session.areas.insert(key, end) =~= session.areas.insert(key, end));
        }
    }
}

/// A write past the end of what a session holds is refused as out of range at
/// the first slice that is past it, where the pointer to that slice names what
/// is past it too; the slices before that one have been written.
pub proof fn write_past_the_end(
    client: ClientState,
    address: Address,
    bytes: Seq<u8>,
    session: SessionState,
)
    requires
        32 <= client.pdu_length <= DEFAULT_PDU_LENGTH,
        0 < bytes.len() <= u16::MAX,
        address.offset + bytes.len() <= u32::MAX,
        session.areas.contains_key((address.area, address.db)),
        address.offset + bytes.len() > session.areas[(address.area, address.db)].len(),
        addressable_within(
            WriteState::begun(address, bytes, client.pdu_length).slices(),
            session.areas[(address.area, address.db)].len(),
        ),
        pointed_past(
            WriteState::begun(address, bytes, client.pdu_length).slices(),
            session.areas[(address.area, address.db)].len(),
        ),
    ensures
        ({
            let write = WriteState::begun(address, bytes, client.pdu_length);
            let outcome = delivered(client, write, session);
            let key = (address.area, address.db);
            let held = session.areas[key];
            let start = address.offset as int;
            exists|k: int| #[trigger]
                first_past(write.slices(), k, held.len()) && {
                    &&& outcome.result == Err::<(), Error>(Error::OutOfRange(write.slices()[k]))
                    &&& outcome.session == SessionState {
                        areas: session.areas.insert(
                            key,
                            partly_written(held, start, bytes, write.slices()[k].offset - start),
                        ),
                        pdu_length: session.pdu_length,
                    }
                }
        }),
{
    let write = WriteState::begun(address, bytes, client.pdu_length);
    lemma_reached_nothing(write.whole, write.per_job);
    lemma_delivered_past(client, write, session, session.areas[(address.area, address.db)]);
}

/// What a client writes into an area that a session holds, a read of the same
/// range brings back, wherever the pointers to both say it is, as long as they
/// agree: where no slice of either starts in other two megabytes.
pub proof fn read_brings_back_what_was_written(
    client: ClientState,
    address: Address,
    bytes: Seq<u8>,
    session: SessionState,
)
    requires
        32 <= client.pdu_length <= DEFAULT_PDU_LENGTH,
        bytes.len() <= u16::MAX,
        address.offset + bytes.len() <= u32::MAX,
        in_one_block(WriteState::begun(address, bytes, client.pdu_length).slices(), address),
        in_one_block(
            ReadState::begun(
                address.part(address.offset, bytes.len() as u16),
                client.pdu_length,
            ).slices(),
            address,
        ),
        bytes.len() == 0 || session.verdict(as_pointed(address), bytes.len()) == RETURN_OK,
    ensures
        ({
            let written = delivered(
                client,
                WriteState::begun(address, bytes, client.pdu_length),
                session,
            );
            let range = address.part(address.offset, bytes.len() as u16);
            let read = ReadState::begun(range, written.client.pdu_length);
            &&& written.result == Ok::<(), Error>(())
            &&& polled(written.client, read, written.session).result == Ok::<Seq<u8>, Error>(bytes)
        }),
{
    let range = address.part(address.offset, bytes.len() as u16);
    if bytes.len() == 0 {
        assert(bytes =~= Seq::empty());
    } else {
        lemma_write_begun(client, address, bytes, session);
        let written = delivered(
            client,
            WriteState::begun(address, bytes, client.pdu_length),
            session,
        );
        let start = as_pointed(address).offset as int;
        let area = written.session.areas[(address.area, address.db)];
        lemma_read_begun(written.client, range, written.session);
        assert(area.subrange(start, start + bytes.len()) =~= bytes);
    }
}

/// Serving a job changes no area but by a write that was served, keeps every
/// area it holds as long as it is, takes on none, and grants no longer PDU
/// than before.
pub proof fn serving_keeps_what_is_held(session: SessionState, bytes: Seq<u8>)
    requires
        session.served(bytes) is Ok,
    ensures
        ({
            let served = session.served(bytes)->Ok_0;
            &&& served.session.areas.dom() == session.areas.dom()
            &&& forall|key: (Area, u16)| #[trigger]
                session.areas.contains_key(key) ==> served.session.areas[key].len()
                    == session.areas[key].len()
            &&& !(served.event matches Event::Written { served: true, .. }) ==> served.session.areas
                == session.areas
            &&& served.session.pdu_length <= session.pdu_length
            &&& served.event !is Setup ==> served.session.pdu_length == session.pdu_length
        }),
{
    let served = session.served(bytes)->Ok_0;
    assert(served.session.areas.dom() =~= session.areas.dom());
}

/// What a client sends, a session can serve: its pointers are to bytes, and
/// span no more than an address counts.
pub proof fn jobs_are_servable(reference: u16, slice: Address, bytes: Seq<u8>)
    ensures
        servable(setup_job(reference).encoded()),
        servable(read_job(reference, slice).encoded()),
        servable(write_job(reference, slice, bytes).encoded()),
{
    assert(servable(setup_job(reference).encoded())) by {
        assert(setup_job(reference).function() == Some(SETUP));
        lemma_servable(setup_job(reference));
    }
    assert(servable(read_job(reference, slice).encoded())) by {
        lemma_item_named(READ, slice);
        lemma_servable(read_job(reference, slice));
    }
    assert(servable(write_job(reference, slice, bytes).encoded())) by {
        lemma_item_named(WRITE, slice);
        lemma_servable(write_job(reference, slice, bytes));
    }
}

/// An answer echoes the reference and the function of its job, and carries no
/// error: a refusal is in the return code.
pub proof fn answers_echo_their_jobs(session: SessionState, job: Pdu)
    requires
        session.answer_to(job) is Ok,
    ensures
        ({
            let answer = session.answer_to(job)->Ok_0.answer;
            &&& answer.rosctr is AckData
            &&& answer.reference == job.reference
            &&& answer.function() == job.function()
            &&& answer.error == 0
        }),
{
}

} // verus!
