//! The CPU's side of one session: what a test or the playground puts at the
//! far end so a client can be driven without a PLC in the room.
//!
//! Not a PLC. One session serves one client and holds areas as byte vectors
//! keyed by area and data block number: it answers Setup Communication,
//! serves Read Var from an area and Write Var into one, and refuses what is
//! not there with the return codes a CPU would use.

use std::collections::HashMap;

use vstd::prelude::*;
use vstd::slice::slice_subrange;

use crate::error::Error;
use crate::header::{decode, encode, Message, Pdu, Rosctr, Setup, READ, SETUP, WRITE};
use crate::item::{
    decode_data, decode_item, encode_data, is_countable, Address, Area, OBJECT_DOES_NOT_EXIST,
    OUT_OF_RANGE, RETURN_OK,
};

verus! {

broadcast use vstd::std_specs::hash::group_hash_axioms;

/// What the client asked, as [`Session::next_event`] reports it with the
/// answer.
#[derive(Clone, Copy, Debug, PartialEq, Eq, Structural)]
pub enum Event {
    /// Setup Communication; the PDU length settled on.
    Setup { pdu_length: u16 },
    /// Read Var; the address, and whether it was served.
    Read { address: Address, served: bool },
    /// Write Var; the address, and whether it was served.
    Written { address: Address, served: bool },
}

/// One client's worth of CPU, but for the connection that carries it.
pub struct Session {
    areas: HashMap<u32, Vec<u8>>,
    pdu_length: u16,
}

/// What a [`Session`] keeps: the bytes of each area, by data block number
/// where it is one, and the PDU length it grants.
#[verifier::ext_equal]
pub struct SessionState {
    pub areas: Map<(Area, u16), Seq<u8>>,
    pub pdu_length: u16,
}

/// A job served: the session after it, the answer, and what was asked.
#[verifier::ext_equal]
pub struct Served {
    pub session: SessionState,
    pub answer: Pdu,
    pub event: Event,
}

/// The one item that a Read Var or Write Var names.
pub open spec fn item_named(parameter: Seq<u8>) -> Result<Address, Error> {
    if parameter.len() < 2 || parameter[1] != 1 {
        Err(Error::NotOneItem)
    } else {
        crate::item::pointed(parameter.skip(2))
    }
}

/// `area` with `bytes` from `start` on.
pub open spec fn overwritten(area: Seq<u8>, start: int, bytes: Seq<u8>) -> Seq<u8> {
    area.take(start) + bytes + area.skip(start + bytes.len())
}

/// Whether what bytes ask of a session can be counted in an address. Only a
/// pointer to words or double words can span more bytes than that.
pub open spec fn servable(bytes: Seq<u8>) -> bool {
    Pdu::decoded(bytes) matches Ok(job) ==> asks_countable(job)
}

/// Whether what a job asks can be counted in an address.
pub open spec fn asks_countable(job: Pdu) -> bool {
    job.rosctr is Job && (job.function() == Some(READ) || job.function() == Some(WRITE))
        && job.parameter.len() >= 2 && job.parameter[1] == 1 ==> crate::item::countable(
        job.parameter.skip(2),
    )
}

impl SessionState {
    /// The return code for `length` bytes from where `address` starts.
    pub open spec fn verdict(self, address: Address, length: nat) -> u8 {
        let key = (address.area, address.db);
        if !self.areas.contains_key(key) {
            OBJECT_DOES_NOT_EXIST
        } else if address.offset + length > self.areas[key].len() {
            OUT_OF_RANGE
        } else {
            RETURN_OK
        }
    }

    /// The session once `bytes` have been written where `address` starts, or
    /// refused.
    pub open spec fn taking(self, address: Address, bytes: Seq<u8>) -> SessionState {
        let key = (address.area, address.db);
        if self.verdict(address, bytes.len()) == RETURN_OK {
            SessionState {
                areas: self.areas.insert(
                    key,
                    overwritten(self.areas[key], address.offset as int, bytes),
                ),
                pdu_length: self.pdu_length,
            }
        } else {
            self
        }
    }

    /// Setup Communication served: the lesser of what is asked and what is
    /// granted holds from now on, and the answer says so.
    pub open spec fn set_up(self, job: Pdu) -> Result<Served, Error> {
        match Setup::decoded(job.parameter) {
            Err(e) => Err(e),
            Ok(asked) => {
                let pdu_length = if asked.pdu_length <= self.pdu_length {
                    asked.pdu_length
                } else {
                    self.pdu_length
                };
                let granted = Setup {
                    max_calling: asked.max_calling,
                    max_called: asked.max_called,
                    pdu_length,
                };
                Ok(
                    Served {
                        session: SessionState { areas: self.areas, pdu_length },
                        answer: Pdu::ack_data(job.reference, granted.encoded(), Seq::empty()),
                        event: Event::Setup { pdu_length },
                    },
                )
            },
        }
    }

    /// Read Var served: the bytes of the address, or the return code that
    /// refuses it.
    pub open spec fn read(self, job: Pdu) -> Result<Served, Error> {
        match item_named(job.parameter) {
            Err(e) => Err(e),
            Ok(address) => {
                let code = self.verdict(address, address.length as nat);
                let start = address.offset as int;
                let bytes = if code == RETURN_OK {
                    self.areas[(address.area, address.db)].subrange(start, start + address.length)
                } else {
                    Seq::empty()
                };
                Ok(
                    Served {
                        session: self,
                        answer: Pdu::ack_data(
                            job.reference,
                            seq![READ, 1],
                            crate::item::data_item(code, bytes),
                        ),
                        event: Event::Read { address, served: code == RETURN_OK },
                    },
                )
            },
        }
    }

    /// Write Var served: the bytes the job carries, however long the address
    /// says they are, go where the address starts; or the return code that
    /// refuses them, and nothing changes.
    pub open spec fn write(self, job: Pdu) -> Result<Served, Error> {
        match item_named(job.parameter) {
            Err(e) => Err(e),
            Ok(address) => match crate::item::carried(job.data) {
                Err(e) => Err(e),
                Ok((_, bytes, _)) => {
                    let code = self.verdict(address, bytes.len());
                    Ok(
                        Served {
                            session: self.taking(address, bytes),
                            answer: Pdu::ack_data(job.reference, seq![WRITE, 1], seq![code]),
                            event: Event::Written { address, served: code == RETURN_OK },
                        },
                    )
                },
            },
        }
    }

    /// A job served.
    pub open spec fn answer_to(self, job: Pdu) -> Result<Served, Error> {
        if !(job.rosctr is Job) {
            Err(Error::AnswerForJob)
        } else if job.function() == Some(SETUP) {
            self.set_up(job)
        } else if job.function() == Some(READ) {
            self.read(job)
        } else if job.function() == Some(WRITE) {
            self.write(job)
        } else {
            Err(Error::Function(job.function()))
        }
    }

    /// What was received served.
    pub open spec fn served(self, bytes: Seq<u8>) -> Result<Served, Error> {
        match Pdu::decoded(bytes) {
            Err(e) => Err(e),
            Ok(job) => self.answer_to(job),
        }
    }
}

/// The key under which an area is held.
spec fn key_of(area: Area, db: u16) -> u32 {
    (area.wire_code() * 65536 + db) as u32
}

fn key(area: Area, db: u16) -> (r: u32)
    ensures
        r == key_of(area, db),
{
    area.code() as u32 * 65536 + db as u32
}

impl View for Session {
    type V = SessionState;

    closed spec fn view(&self) -> SessionState {
        SessionState {
            areas: Map::new(
                |k: (Area, u16)| self.areas@.contains_key(key_of(k.0, k.1)),
                |k: (Area, u16)| self.areas@[key_of(k.0, k.1)]@,
            ),
            pdu_length: self.pdu_length,
        }
    }
}

/// Put `bytes` into `area` from `start` on.
fn overwrite(area: &mut Vec<u8>, start: usize, bytes: &[u8])
    requires
        start + bytes@.len() <= old(area)@.len(),
    ensures
        final(area)@ == overwritten(old(area)@, start as int, bytes@),
{
    let ghost before = area@;
    let mut i: usize = 0;
    while i < bytes.len()
        invariant
            i <= bytes@.len(),
            start + bytes@.len() <= before.len() == area.len(),
            area@ == overwritten(before, start as int, bytes@.take(i as int)),
        decreases bytes.len() - i,
    {
        area.set(start + i, bytes[i]);
        i += 1;
        assert(area@ =~= overwritten(before, start as int, bytes@.take(i as int)));
    }
    assert(bytes@.take(i as int) =~= bytes@);
}

/// The one item that a Read Var or Write Var from a client names.
fn one_item(parameter: &[u8]) -> (r: Result<Address, Error>)
    requires
        parameter@.len() >= 2 && parameter@[1] == 1 ==> crate::item::countable(parameter@.skip(2)),
    ensures
        r == item_named(parameter@),
{
    if parameter.len() < 2 || parameter[1] != 1 {
        return Err(Error::NotOneItem);
    }
    let item = slice_subrange(parameter, 2, parameter.len());
    assert(item@ =~= parameter@.skip(2));
    decode_item(item)
}

/// Whether a job is served as `expected`, given the session after it.
spec fn serves(
    expected: Result<Served, Error>,
    before: SessionState,
    after: SessionState,
    got: Result<(Message, Event), Error>,
) -> bool {
    match (expected, got) {
        (Ok(served), Ok((answer, event))) => {
            &&& after == served.session
            &&& answer@ == served.answer
            &&& event == served.event
        },
        (Err(expected), Err(e)) => e == expected && after == before,
        _ => false,
    }
}

impl Session {
    /// A session that holds nothing yet and grants 240 bytes of PDU.
    pub fn new() -> (r: Session)
        ensures
            r@.areas == Map::<(Area, u16), Seq<u8>>::empty(),
            r@.pdu_length == 240,
    {
        let r = Session { areas: HashMap::new(), pdu_length: 240 };
        assert(r@.areas =~= Map::<(Area, u16), Seq<u8>>::empty());
        r
    }

    /// Hold `bytes` as `area`: data block `db`, or zero for the others.
    pub fn with_area(self, area: Area, db: u16, bytes: Vec<u8>) -> (r: Session)
        ensures
            r@.areas == self@.areas.insert((area, db), bytes@),
            r@.pdu_length == self@.pdu_length,
    {
        let mut r = self;
        r.areas.insert(key(area, db), bytes);
        assert(r@.areas =~= self@.areas.insert((area, db), bytes@));
        r
    }

    /// Grant at most `pdu_length` to a client's Setup Communication.
    pub fn granting(self, pdu_length: u16) -> (r: Session)
        ensures
            r@ == (SessionState { areas: self@.areas, pdu_length }),
    {
        Session { areas: self.areas, pdu_length }
    }

    /// The bytes held as `area`, as they are now.
    pub fn area(&self, area: Area, db: u16) -> (r: Option<&[u8]>)
        ensures
            match r {
                Some(bytes) => self@.areas.contains_key((area, db)) && bytes@
                    == self@.areas[(area, db)],
                None => !self@.areas.contains_key((area, db)),
            },
    {
        match self.areas.get(&key(area, db)) {
            Some(bytes) => Some(bytes.as_slice()),
            None => None,
        }
    }

    /// Whether what `bytes` ask can be counted in an address.
    pub fn can_serve(bytes: &[u8]) -> (r: bool)
        ensures
            r == servable(bytes@),
    {
        match decode(bytes) {
            Err(_) => true,
            Ok(job) => {
                let function = job.function();
                if job.rosctr == Rosctr::Job && (function == Some(READ) || function == Some(WRITE))
                    && job.parameter.len() >= 2 && job.parameter[1] == 1 {
                    let item = slice_subrange(job.parameter.as_slice(), 2, job.parameter.len());
                    assert(item@ =~= job.parameter@.skip(2));
                    is_countable(item)
                } else {
                    true
                }
            },
        }
    }

    /// The answer to the next request and what it was, or `None` when the
    /// client disconnected and nothing was received. What is not an S7 job, or
    /// not one a session serves, is an error and changes nothing.
    pub fn next_event(&mut self, received: Option<&[u8]>) -> (r: Result<
        Option<(Vec<u8>, Event)>,
        Error,
    >)
        requires
            received matches Some(bytes) ==> servable(bytes@),
        ensures
            match received {
                None => r == Ok::<Option<(Vec<u8>, Event)>, Error>(None) && final(self)@
                    == old(self)@,
                Some(bytes) => match (old(self)@.served(bytes@), r) {
                    (Ok(served), Ok(Some((answer, event)))) => {
                        &&& final(self)@ == served.session
                        &&& answer@ == served.answer.encoded()
                        &&& event == served.event
                    },
                    (Err(expected), Err(e)) => e == expected && final(self)@ == old(self)@,
                    _ => false,
                },
            },
    {
        let bytes = match received {
            Some(bytes) => bytes,
            None => {
                return Ok(None);
            },
        };
        let job = match decode(bytes) {
            Ok(job) => job,
            Err(e) => {
                return Err(e);
            },
        };
        if job.rosctr != Rosctr::Job {
            return Err(Error::AnswerForJob);
        }
        let answered = match job.function() {
            Some(SETUP) => self.setup(&job),
            Some(READ) => self.read(&job),
            Some(WRITE) => self.write(&job),
            other => Err(Error::Function(other)),
        };
        match answered {
            Ok((answer, event)) => Ok(Some((encode(&answer), event))),
            Err(e) => Err(e),
        }
    }

    fn setup(&mut self, job: &Message) -> (r: Result<(Message, Event), Error>)
        ensures
            serves(old(self)@.set_up(job@), old(self)@, final(self)@, r),
            r matches Ok((answer, _)) ==> answer.parameter@.len() + answer.data@.len() <= 0x2_0000,
    {
        let asked = match Setup::decode(job.parameter.as_slice()) {
            Ok(asked) => asked,
            Err(e) => {
                return Err(e);
            },
        };
        let pdu_length: u16 = if asked.pdu_length < self.pdu_length {
            asked.pdu_length
        } else {
            self.pdu_length
        };
        self.pdu_length = pdu_length;
        let granted = Setup {
            max_calling: asked.max_calling,
            max_called: asked.max_called,
            pdu_length,
        };
        Ok(
            (
                Message::ack_data(job.reference, granted.encode(), Vec::new()),
                Event::Setup { pdu_length },
            ),
        )
    }

    fn read(&self, job: &Message) -> (r: Result<(Message, Event), Error>)
        requires
            job.parameter@.len() >= 2 && job.parameter@[1] == 1 ==> crate::item::countable(
                job.parameter@.skip(2),
            ),
        ensures
            serves(self@.read(job@), self@, self@, r),
            r matches Ok((answer, _)) ==> answer.parameter@.len() + answer.data@.len() <= 0x2_0000,
    {
        let address = match one_item(job.parameter.as_slice()) {
            Ok(address) => address,
            Err(e) => {
                return Err(e);
            },
        };
        let start: usize = address.offset as usize;
        let length: usize = address.length as usize;
        let none: Vec<u8> = Vec::new();
        let (code, bytes): (u8, &[u8]) = match self.areas.get(&key(address.area, address.db)) {
            None => (OBJECT_DOES_NOT_EXIST, none.as_slice()),
            Some(area) => if start <= area.len() && length <= area.len() - start {
                (RETURN_OK, slice_subrange(area.as_slice(), start, start + length))
            } else {
                (OUT_OF_RANGE, none.as_slice())
            },
        };
        Ok(
            (
                Message::ack_data(job.reference, vec![READ, 1], encode_data(code, bytes)),
                Event::Read { address, served: code == RETURN_OK },
            ),
        )
    }

    fn write(&mut self, job: &Message) -> (r: Result<(Message, Event), Error>)
        requires
            job.parameter@.len() >= 2 && job.parameter@[1] == 1 ==> crate::item::countable(
                job.parameter@.skip(2),
            ),
        ensures
            serves(old(self)@.write(job@), old(self)@, final(self)@, r),
            r matches Ok((answer, _)) ==> answer.parameter@.len() + answer.data@.len() <= 0x2_0000,
    {
        let ghost before = self@;
        let address = match one_item(job.parameter.as_slice()) {
            Ok(address) => address,
            Err(e) => {
                return Err(e);
            },
        };
        let (_, bytes, _) = match decode_data(job.data.as_slice()) {
            Ok(carried) => carried,
            Err(e) => {
                return Err(e);
            },
        };
        let start: usize = address.offset as usize;
        let key: u32 = key(address.area, address.db);
        let code: u8 = match self.areas.remove(&key) {
            None => OBJECT_DOES_NOT_EXIST,
            Some(mut area) => {
                let code: u8 = if start <= area.len() && bytes.len() <= area.len() - start {
                    overwrite(&mut area, start, bytes);
                    RETURN_OK
                } else {
                    OUT_OF_RANGE
                };
                self.areas.insert(key, area);
                code
            },
        };
        let answer = Message::ack_data(job.reference, vec![WRITE, 1], vec![code]);
        proof {
            assert(self@ =~= before.taking(address, bytes@));
            assert(answer.data@ =~= seq![code]);
        }
        Ok((answer, Event::Written { address, served: code == RETURN_OK }))
    }
}

} // verus!
