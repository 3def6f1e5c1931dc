//! What one exchange comes to, at either end: which answers a client takes and
//! what it makes of them, and what a session answers, reports and changes for
//! every job it is sent.

use vstd::prelude::*;

use crate::client::{
    answered, bytes_per_read, bytes_per_write, next_reference, read_answer, received_bytes, settled,
    setup_answer, write_answer, ClientState, ReadState, WriteState,
};
use crate::error::Error;
use crate::header::{Pdu, Rosctr};
use crate::item::{carried, pointed, Address};
use crate::session::{
    asks_countable, item_named, overwritten, servable, Event, Served, SessionState,
};

verus! {

/// Every job has the reference after that of the one before, and after the
/// last one there is zero; sending changes nothing else.
pub proof fn references_follow_one_another(client: ClientState, reference: u16)
    ensures
        next_reference(reference) == (reference + 1) % 0x1_0000,
        client.sent().reference == (client.reference + 1) % 0x1_0000,
        client.sent().pdu_length == client.pdu_length,
{
}

/// A job takes what the PDU length leaves after 18 bytes of an answer or 28 of
/// a job, and at least one byte.
pub proof fn room_in_a_pdu(pdu_length: u16)
    ensures
        pdu_length > 18 ==> bytes_per_read(pdu_length) + 18 == pdu_length,
        pdu_length <= 18 ==> bytes_per_read(pdu_length) == 1,
        pdu_length > 28 ==> bytes_per_write(pdu_length) + 28 == pdu_length,
        pdu_length <= 28 ==> bytes_per_write(pdu_length) == 1,
{
}

/// What is granted between 32 and 480 is kept to; less counts as 32, more as
/// 480.
pub proof fn what_is_settled(granted: u16)
    ensures
        32 <= granted <= 480 ==> settled(granted) == granted,
        granted < 32 ==> settled(granted) == 32,
        granted > 480 ==> settled(granted) == 480,
{
}

/// What was received is judged as the bytes it is.
pub proof fn what_was_received(bytes: &[u8])
    ensures
        received_bytes(None) == None::<Seq<u8>>,
        received_bytes(Some(bytes)) == Some(bytes@),
{
}

/// An answer is taken when it echoes the reference, is no job, and bears no
/// error; what is wrong with another is told in that order.
pub proof fn answers_that_are_taken(reference: u16, bytes: Seq<u8>)
    ensures
        answered(reference, None) == Err::<Pdu, Error>(Error::Closed),
        Pdu::decoded(bytes) matches Err(e) ==> answered(reference, Some(bytes)) == Err::<
            Pdu,
            Error,
        >(e),
        Pdu::decoded(bytes) matches Ok(answer) ==> {
            let got = answered(reference, Some(bytes));
            let error = bytes[10] * 256 + bytes[11];
            if bytes[4] * 256 + bytes[5] != reference {
                got == Err::<Pdu, Error>(Error::OtherReference)
            } else if bytes[1] == 1 {
                got == Err::<Pdu, Error>(Error::JobForAnswer)
            } else if bytes[1] != 7 && error != 0 {
                got == Err::<Pdu, Error>(Error::Cpu(error as u16))
            } else {
                got == Ok::<Pdu, Error>(answer)
            }
        },
{
    crate::layout::bytes_refused_as_no_pdu(bytes);
    if Pdu::decoded(bytes) is Ok {
        crate::layout::pdu_as_read(bytes);
    }
}

/// An answer that is not taken settles, brings and writes nothing, and is told
/// as what it is.
pub proof fn answers_that_are_not_taken(
    reference: u16,
    slice: Address,
    received: Option<Seq<u8>>,
)
    ensures
        answered(reference, received) matches Err(e) ==> {
            &&& setup_answer(reference, received) == Err::<u16, Error>(e)
            &&& read_answer(reference, slice, received) == Err::<Seq<u8>, Error>(e)
            &&& write_answer(reference, slice, received) == Err::<(), Error>(e)
        },
{
}

/// The answer to Setup Communication opens with 0xF0 and grants in its bytes 6
/// and 7 the PDU length, of which 32 to 480 is kept to.
pub proof fn what_setup_settles(reference: u16, received: Option<Seq<u8>>)
    requires
        answered(reference, received) is Ok,
    ensures
        ({
            let parameter = answered(reference, received)->Ok_0.parameter;
            let granted = parameter[6] * 256 + parameter[7];
            let got = setup_answer(reference, received);
            if parameter.len() == 0 || parameter[0] != 0xF0 {
                got == Err::<u16, Error>(Error::SetupNotAnswered)
            } else if parameter.len() < 8 {
                got == Err::<u16, Error>(Error::NotSetup)
            } else {
                &&& got matches Ok(pdu_length)
                &&& 32 <= pdu_length <= 480
                &&& 32 <= granted <= 480 ==> pdu_length == granted
                &&& granted < 32 ==> pdu_length == 32
                &&& granted > 480 ==> pdu_length == 480
            }
        }),
{
}

/// The answer to Read Var opens with 4 and carries a data item; the bytes are
/// taken as they stand in it when its return code is 0xFF and they are as many
/// as the slice asks for.
pub proof fn what_a_read_brings(reference: u16, slice: Address, received: Option<Seq<u8>>)
    requires
        answered(reference, received) is Ok,
    ensures
        ({
            let parameter = answered(reference, received)->Ok_0.parameter;
            let data = answered(reference, received)->Ok_0.data;
            let length = data[2] * 256 + data[3];
            let n = if data[1] == 4 || data[1] == 5 {
                length / 8
            } else {
                length
            };
            let got = read_answer(reference, slice, received);
            if parameter.len() == 0 || parameter[0] != 4 {
                got == Err::<Seq<u8>, Error>(Error::ReadNotAnswered)
            } else if data.len() < 4 {
                got == Err::<Seq<u8>, Error>(Error::ShortDataHeader)
            } else if data[0] == 0x0A {
                got == Err::<Seq<u8>, Error>(Error::ObjectDoesNotExist(slice))
            } else if data[0] == 0x05 {
                got == Err::<Seq<u8>, Error>(Error::OutOfRange(slice))
            } else if data[0] != 0xFF {
                got == Err::<Seq<u8>, Error>(Error::Refused(slice, data[0]))
            } else if 4 + n > data.len() {
                got == Err::<Seq<u8>, Error>(Error::ShortData)
            } else if n != slice.length {
                got == Err::<Seq<u8>, Error>(Error::WrongLength)
            } else {
                &&& got matches Ok(bytes)
                &&& bytes.len() == slice.length
                &&& forall|i: int| 0 <= i < bytes.len() ==> #[trigger] bytes[i] == data[4 + i]
            }
        }),
{
}

/// The answer to Write Var opens with 5 and says in its first byte of data
/// whether the slice was written: 0xFF says so, and nothing else does.
pub proof fn what_a_write_is_told(reference: u16, slice: Address, received: Option<Seq<u8>>)
    requires
        answered(reference, received) is Ok,
    ensures
        ({
            let parameter = answered(reference, received)->Ok_0.parameter;
            let data = answered(reference, received)->Ok_0.data;
            let got = write_answer(reference, slice, received);
            if parameter.len() == 0 || parameter[0] != 5 {
                got == Err::<(), Error>(Error::WriteNotAnswered)
            } else if data.len() == 0 {
                got == Err::<(), Error>(Error::NoReturnCode)
            } else if data[0] == 0xFF {
                got == Ok::<(), Error>(())
            } else if data[0] == 0x0A {
                got == Err::<(), Error>(Error::ObjectDoesNotExist(slice))
            } else if data[0] == 0x05 {
                got == Err::<(), Error>(Error::OutOfRange(slice))
            } else {
                got == Err::<(), Error>(Error::Refused(slice, data[0]))
            }
        }),
{
}

/// A read begins with the whole address to ask for and no bytes, and a write
/// with the bytes it was given to put where its address starts.
pub proof fn reads_and_writes_begin(address: Address, bytes: Seq<u8>, pdu_length: u16)
    ensures
        ({
            let read = ReadState::begun(address, pdu_length);
            &&& read.whole == address
            &&& pdu_length > 18 ==> read.per_job + 18 == pdu_length
            &&& pdu_length <= 18 ==> read.per_job == 1
            &&& read.done == 0 && read.bytes.len() == 0
        }),
        bytes.len() <= 0xFFFF ==> {
            let write = WriteState::begun(address, bytes, pdu_length);
            &&& write.whole.area == address.area && write.whole.db == address.db
            &&& write.whole.offset == address.offset
            &&& write.whole.length == bytes.len()
            &&& pdu_length > 28 ==> write.per_job + 28 == pdu_length
            &&& pdu_length <= 28 ==> write.per_job == 1
            &&& write.done == 0 && write.bytes == bytes
        },
{
}

/// An answered slice is counted, and its bytes go after those before it; a
/// written one is counted, and no bytes change.
pub proof fn reads_and_writes_go_on(read: ReadState, bytes: Seq<u8>, write: WriteState)
    ensures
        ({
            let next = read.brought(bytes);
            &&& next.whole == read.whole && next.per_job == read.per_job
            &&& next.done == read.done + 1
            &&& next.bytes.len() == read.bytes.len() + bytes.len()
            &&& forall|i: int|
                0 <= i < read.bytes.len() ==> #[trigger] read.bytes[i] == next.bytes[i]
            &&& forall|i: int|
                0 <= i < bytes.len() ==> #[trigger] bytes[i] == next.bytes[read.bytes.len() + i]
        }),
        ({
            let next = write.written();
            &&& next.whole == write.whole && next.per_job == write.per_job
            &&& next.done == write.done + 1
            &&& next.bytes == write.bytes
        }),
{
}

/// The slice after `done` whole ones starts that many of them on, and is whole
/// too, or what is left; there is none once nothing is left.
proof fn lemma_next_slice(whole: Address, per_job: u16, done: nat)
    requires
        per_job > 0,
        whole.offset + whole.length <= u32::MAX,
    ensures
        ({
            let slices = crate::client::slices_of(whole, per_job);
            &&& done >= slices.len() <==> done * per_job >= whole.length
            &&& done < slices.len() ==> {
                let slice = slices[done as int];
                &&& slice.area == whole.area && slice.db == whole.db
                &&& slice.offset == whole.offset + done * per_job
                &&& slice.length == if whole.length - done * per_job <= per_job {
                    whole.length - done * per_job
                } else {
                    per_job as int
                }
            }
        }),
{
    let slices = crate::client::slices_of(whole, per_job);
    let n = slices.len();
    if done < n {
        crate::client::lemma_slice_within(whole, per_job, done as int);
    } else if n == 0 {
        crate::laws::slices_cover_the_address(whole, per_job);
        assert(0 <= done * per_job) by (nonlinear_arith)
            requires
                done >= 0,
                per_job > 0,
        ;
    } else {
        crate::client::lemma_slice_within(whole, per_job, n - 1);
        assert((n - 1) * per_job + per_job == n * per_job) by (nonlinear_arith);
        assert(n * per_job <= done * per_job) by (nonlinear_arith)
            requires
                n <= done,
                per_job > 0,
        ;
    }
}

/// A read asks next for what follows the slices that are done, as much as a
/// job takes or is left, and is finished when nothing is left.
pub proof fn what_a_read_asks_next(read: ReadState)
    requires
        read.per_job > 0,
        read.whole.offset + read.whole.length <= u32::MAX,
    ensures
        ({
            let before = read.done * read.per_job;
            let left = read.whole.length - before;
            &&& read.finished() <==> left <= 0
            &&& left > 0 ==> {
                &&& read.slice().area == read.whole.area && read.slice().db == read.whole.db
                &&& read.slice().offset == read.whole.offset + before
                &&& left >= read.per_job ==> read.slice().length == read.per_job
                &&& left < read.per_job ==> read.slice().length == left
            }
        }),
{
    lemma_next_slice(read.whole, read.per_job, read.done);
}

/// A write puts next what follows the slices that are done, as much as a job
/// takes or is left, where the address goes on, and is finished when nothing
/// is left.
pub proof fn what_a_write_puts_next(write: WriteState)
    requires
        write.per_job > 0,
        write.whole.offset + write.whole.length <= u32::MAX,
        write.whole.length == write.bytes.len(),
    ensures
        ({
            let before = write.done * write.per_job;
            let left = write.bytes.len() - before;
            &&& write.finished() <==> left <= 0
            &&& left > 0 ==> {
                &&& write.slice().area == write.whole.area && write.slice().db == write.whole.db
                &&& write.slice().offset == write.whole.offset + before
                &&& left >= write.per_job ==> write.slice().length == write.per_job
                &&& left < write.per_job ==> write.slice().length == left
                &&& write.chunk().len() == write.slice().length
                &&& forall|i: int|
                    0 <= i < write.chunk().len() ==> #[trigger] write.chunk()[i]
                        == write.bytes[before + i]
            }
        }),
{
    lemma_next_slice(write.whole, write.per_job, write.done);
    assert(0 <= write.done * write.per_job) by (nonlinear_arith)
        requires
            write.done >= 0,
            write.per_job > 0,
    ;
}

/// Bytes put into an area are there from where they start, and all around
/// them is as it was.
pub proof fn what_is_overwritten(area: Seq<u8>, start: int, bytes: Seq<u8>)
    requires
        0 <= start,
        start + bytes.len() <= area.len(),
    ensures
        overwritten(area, start, bytes).len() == area.len(),
        forall|i: int|
            0 <= i < bytes.len() ==> #[trigger] bytes[i] == overwritten(area, start, bytes)[start
                + i],
        forall|i: int|
            0 <= i < area.len() && !(start <= i < start + bytes.len())
                ==> #[trigger] overwritten(area, start, bytes)[i] == area[i],
{
}

/// A job for one item says so in its second byte, and the pointer follows.
pub proof fn one_item_is_named(parameter: Seq<u8>)
    ensures
        parameter.len() < 2 || parameter[1] != 1 ==> item_named(parameter) == Err::<
            Address,
            Error,
        >(Error::NotOneItem),
        parameter.len() >= 2 && parameter[1] == 1 ==> item_named(parameter) == pointed(
            parameter.subrange(2, parameter.len() as int),
        ),
{
}

/// The return code is 0x0A where the area is not held, 0x05 where it ends
/// before the last byte asked for, and 0xFF in every other case.
pub proof fn return_code_of_a_range(session: SessionState, address: Address, length: nat)
    ensures
        ({
            let key = (address.area, address.db);
            let code = session.verdict(address, length);
            &&& code == 0x0A <==> !session.areas.contains_key(key)
            &&& code == 0x05 <==> session.areas.contains_key(key) && address.offset + length
                > session.areas[key].len()
            &&& code == 0xFF <==> session.areas.contains_key(key) && address.offset + length
                <= session.areas[key].len()
        }),
{
}

/// Only jobs are served, by the function they open with: 0xF0, 4 and 5. What
/// cannot be read is told as what it is.
pub proof fn jobs_are_told_apart(session: SessionState, bytes: Seq<u8>)
    ensures
        Pdu::decoded(bytes) matches Err(e) ==> session.served(bytes) == Err::<Served, Error>(e),
        Pdu::decoded(bytes) matches Ok(job) ==> {
            let got = session.served(bytes);
            let parameter = job.parameter;
            if job.rosctr != Rosctr::Job {
                got == Err::<Served, Error>(Error::AnswerForJob)
            } else if parameter.len() == 0 {
                got == Err::<Served, Error>(Error::Function(None))
            } else if parameter[0] == 0xF0 {
                got == session.set_up(job)
            } else if parameter[0] == 4 {
                got == session.read(job)
            } else if parameter[0] == 5 {
                got == session.write(job)
            } else {
                got == Err::<Served, Error>(Error::Function(Some(parameter[0])))
            }
        },
{
}

/// Setup Communication is answered with what was asked, but for the PDU
/// length, which is the lesser of what was asked and what the session grants;
/// that is what it reports and grants from now on, and no area changes.
pub proof fn setup_is_served(session: SessionState, job: Pdu)
    ensures
        job.parameter.len() < 8 || job.parameter[0] != 0xF0 ==> session.set_up(job) == Err::<
            Served,
            Error,
        >(Error::NotSetup),
        job.parameter.len() >= 8 && job.parameter[0] == 0xF0 ==> {
            &&& session.set_up(job) matches Ok(served)
            &&& served.event matches Event::Setup { pdu_length }
            &&& pdu_length <= session.pdu_length
            &&& pdu_length <= job.parameter[6] * 256 + job.parameter[7]
            &&& pdu_length == session.pdu_length || pdu_length == job.parameter[6] * 256
                + job.parameter[7]
            &&& served.session.pdu_length == pdu_length
            &&& served.session.areas == session.areas
            &&& served.answer.rosctr == Rosctr::AckData
            &&& served.answer.reference == job.reference
            &&& served.answer.error == 0
            &&& served.answer.parameter.len() == 8
            &&& served.answer.parameter[0] == 0xF0 && served.answer.parameter[1] == 0
            &&& forall|i: int|
                2 <= i < 6 ==> #[trigger] served.answer.parameter[i] == job.parameter[i]
            &&& served.answer.parameter[6] * 256 + served.answer.parameter[7] == pdu_length
            &&& served.answer.data.len() == 0
        },
{
    if job.parameter.len() >= 8 && job.parameter[0] == 0xF0 {
        let parameter = session.set_up(job)->Ok_0.answer.parameter;
        assert(parameter[2] == job.parameter[2] && parameter[3] == job.parameter[3]
            && parameter[4] == job.parameter[4] && parameter[5] == job.parameter[5]);
    }
}

/// Read Var is answered with one data item, and reported with the address that
/// its pointer names. It is served exactly when the area is held and the range
/// ends within it: then the item is the bytes held there under 0xFF, padded to
/// even. Otherwise it is 0x0A or 0x05 and nothing more. The session stays.
pub proof fn reads_are_served(session: SessionState, job: Pdu)
    ensures
        item_named(job.parameter) matches Err(e) ==> session.read(job) == Err::<Served, Error>(e),
        item_named(job.parameter) matches Ok(address) ==> {
            let key = (address.area, address.db);
            let start = address.offset as int;
            let n = address.length as int;
            let held = session.areas.contains_key(key);
            let within = start + n <= session.areas[key].len();
            &&& session.read(job) matches Ok(served)
            &&& served.session == session
            &&& served.event == (Event::Read { address, served: held && within })
            &&& served.answer.rosctr == Rosctr::AckData
            &&& served.answer.reference == job.reference
            &&& served.answer.error == 0
            &&& served.answer.parameter == seq![4u8, 1]
            &&& !held ==> served.answer.data == seq![0x0Au8, 0, 0, 0]
            &&& held && !within ==> served.answer.data == seq![0x05u8, 0, 0, 0]
            &&& held && within ==> {
                let data = served.answer.data;
                &&& data.len() == 4 + n + n % 2
                &&& data[0] == 0xFF && data[1] == 4
                &&& n <= 8191 ==> data[2] * 256 + data[3] == n * 8
                &&& n > 8191 ==> data[2] == 0xFF && data[3] == 0xFF
                &&& forall|i: int|
                    start <= i < start + n ==> #[trigger] session.areas[key][i] == data[4 + i
                        - start]
                &&& n % 2 == 1 ==> data[4 + n] == 0
            }
        },
{
}

/// Write Var is answered with one return code, and reported with the address
/// that its pointer names. It is served exactly when the area is held and the
/// bytes the job carries end within it from where the address starts: then
/// they are held there, all else in the area is as it was, and the return code
/// is 0xFF. Otherwise it is 0x0A or 0x05, and the session stays.
pub proof fn writes_are_served(session: SessionState, job: Pdu)
    ensures
        item_named(job.parameter) matches Err(e) ==> session.write(job) == Err::<Served, Error>(e),
        item_named(job.parameter) is Ok ==> (carried(job.data) matches Err(e) ==> session.write(job)
            == Err::<Served, Error>(e)),
        item_named(job.parameter) is Ok && carried(job.data) is Ok ==> {
            let address = item_named(job.parameter)->Ok_0;
            let bytes = carried(job.data)->Ok_0.1;
            let key = (address.area, address.db);
            let start = address.offset as int;
            let held = session.areas.contains_key(key);
            let within = start + bytes.len() <= session.areas[key].len();
            &&& session.write(job) matches Ok(served)
            &&& served.event == (Event::Written { address, served: held && within })
            &&& served.answer.rosctr == Rosctr::AckData
            &&& served.answer.reference == job.reference
            &&& served.answer.error == 0
            &&& served.answer.parameter == seq![5u8, 1]
            &&& !held ==> served.answer.data == seq![0x0Au8]
            &&& held && !within ==> served.answer.data == seq![0x05u8]
            &&& held && within ==> served.answer.data == seq![0xFFu8]
            &&& !(held && within) ==> served.session == session
            &&& held && within ==> {
                let before = session.areas[key];
                let after = served.session.areas[key];
                &&& served.session.pdu_length == session.pdu_length
                &&& served.session.areas.dom() == session.areas.dom()
                &&& forall|other: (crate::item::Area, u16)|
                    other != key && session.areas.contains_key(other)
                        ==> #[trigger] served.session.areas[other] == session.areas[other]
                &&& after.len() == before.len()
                &&& forall|i: int|
                    0 <= i < bytes.len() ==> #[trigger] bytes[i] == after[start + i]
                &&& forall|i: int|
                    0 <= i < before.len() && !(start <= i < start + bytes.len())
                        ==> #[trigger] before[i] == after[i]
            }
        },
{
    if item_named(job.parameter) is Ok && carried(job.data) is Ok {
        let address = item_named(job.parameter)->Ok_0;
        let bytes = carried(job.data)->Ok_0.1;
        let key = (address.area, address.db);
        let served = session.write(job)->Ok_0;
        if session.areas.contains_key(key) && address.offset + bytes.len()
            <= session.areas[key].len() {
            what_is_overwritten(session.areas[key], address.offset as int, bytes);
            assert(served.session.areas.dom() =~= session.areas.dom());
        }
    }
}

/// What a session reports of a job is what it answered: a read or a write is
/// reported as served exactly when the first byte of the data that answers it
/// is 0xFF, and that is exactly when the area is held and the bytes asked for,
/// or carried, end within it. The address is the one that the pointer in the
/// job names.
pub proof fn events_say_what_was_answered(session: SessionState, bytes: Seq<u8>)
    requires
        session.served(bytes) is Ok,
    ensures
        ({
            let served = session.served(bytes)->Ok_0;
            let job = Pdu::decoded(bytes)->Ok_0;
            let code = served.answer.data[0];
            let item = job.parameter.subrange(2, job.parameter.len() as int);
            &&& bytes[1] == 1 && job.parameter.len() > 0
            &&& match served.event {
                Event::Setup { pdu_length } => {
                    &&& job.parameter[0] == 0xF0
                    &&& pdu_length == served.session.pdu_length
                },
                Event::Read { address, served: done } => {
                    let key = (address.area, address.db);
                    &&& job.parameter[0] == 4
                    &&& pointed(item) == Ok::<Address, Error>(address)
                    &&& done <==> code == 0xFF
                    &&& done <==> session.areas.contains_key(key) && address.offset
                        + address.length <= session.areas[key].len()
                    &&& served.session == session
                },
                Event::Written { address, served: done } => {
                    let key = (address.area, address.db);
                    let carries = carried(job.data)->Ok_0.1;
                    &&& job.parameter[0] == 5
                    &&& pointed(item) == Ok::<Address, Error>(address)
                    &&& done <==> code == 0xFF
                    &&& done <==> session.areas.contains_key(key) && address.offset + carries.len()
                        <= session.areas[key].len()
                    &&& !done ==> served.session == session
                },
            }
        }),
{
    let job = Pdu::decoded(bytes)->Ok_0;
    crate::layout::bytes_refused_as_no_pdu(bytes);
    crate::layout::pdu_as_read(bytes);
    jobs_are_told_apart(session, bytes);
    one_item_is_named(job.parameter);
    if job.parameter[0] == 4 {
        reads_are_served(session, job);
    } else if job.parameter[0] == 5 {
        writes_are_served(session, job);
    }
}

/// All that a session can be sent it can serve, but a read or a write of one
/// item whose pointer is to more than 32767 words or 16383 double words.
pub proof fn what_can_be_served(bytes: Seq<u8>, job: Pdu)
    ensures
        Pdu::decoded(bytes) is Err ==> servable(bytes),
        Pdu::decoded(bytes) matches Ok(sent) ==> servable(bytes) == asks_countable(sent),
        ({
            let p = job.parameter;
            let count = p[6] * 256 + p[7];
            asks_countable(job) <==> !(job.rosctr == Rosctr::Job && p.len() >= 14 && (p[0] == 4
                || p[0] == 5) && p[1] == 1 && p[2] == 0x12 && p[3] == 0x0A && p[4] == 0x10 && (p[5]
                == 0x04 && count > 32767 || p[5] == 0x06 && count > 16383))
        }),
{
    let p = job.parameter;
    if p.len() >= 2 {
        let item = p.skip(2);
        crate::layout::pointer_as_read(item);
        assert(p.len() >= 14 ==> item[0] == p[2] && item[1] == p[3] && item[2] == p[4] && item[3]
            == p[5] && item[4] == p[6] && item[5] == p[7]);
    }
}

} // verus!
