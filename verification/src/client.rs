//! The client's side of one S7 session: set up communication, then read and
//! write areas by address.
//!
//! A read or write longer than the negotiated PDU is made in as many jobs as
//! it takes, each a slice of the address; the caller sees one area of bytes.
//!
//! Nothing here touches the connection. A [`Client`] says which bytes to send
//! and judges what was received, `None` where the CPU closed: one exchange to
//! set up communication, then one for every job of a [`Read`] or a [`Write`].

use vstd::arithmetic::div_mod::lemma_fundamental_div_mod_converse;
use vstd::prelude::*;
use vstd::slice::slice_subrange;

use crate::error::Error;
use crate::header::{
    decode, encode, Message, Pdu, Rosctr, Setup, DEFAULT_PDU_LENGTH, READ, SETUP, WRITE,
};
use crate::item::{decode_data, encode_data, encode_item, refusal, Address, Area, RETURN_OK};
use crate::wire::push_all;

verus! {

/// The TSAP a client presents itself from: a programming device, connection 0.
pub const LOCAL_TSAP: [u8; 2] = [0x01, 0x00];

/// The TSAP a CPU listens on for `rack` and `slot`: `01` then the rack in the
/// top three bits and the slot in the low five; `0102` for rack 0, slot 2,
/// where a 300-series CPU sits.
pub fn cpu_tsap(rack: u8, slot: u8) -> (r: [u8; 2])
    ensures
        r@ == seq![0x01u8, (rack % 8 * 32 + slot % 32) as u8],
{
    let second: u8 = (rack << 5) | (slot & 0x1F);
    assert(second == (rack % 8 * 32 + slot % 32) as u8) by (bit_vector)
        requires
            second == (rack << 5) | (slot & 0x1F),
    ;
    let r = [0x01, second];
    assert(r@ =~= seq![0x01u8, (rack % 8 * 32 + slot % 32) as u8]);
    r
}

/// How many slices of at most `per_job` bytes `length` bytes make.
pub open spec fn slice_count(length: u16, per_job: u16) -> nat {
    if length == 0 {
        0
    } else {
        ((length + per_job - 1) / per_job as int) as nat
    }
}

/// The slice of `address` before which `i` full ones lie: as many bytes as a
/// job takes, or as are left.
pub open spec fn slice_at(address: Address, per_job: u16, i: int) -> Address {
    let left = address.length - i * per_job;
    address.part(
        (address.offset + i * per_job) as u32,
        if left <= per_job {
            left as u16
        } else {
            per_job
        },
    )
}

/// `address` in slices of at most `per_job` bytes.
pub open spec fn slices_of(address: Address, per_job: u16) -> Seq<Address> {
    Seq::new(slice_count(address.length, per_job), |i: int| slice_at(address, per_job, i))
}

/// A count of slices is the count where the last of them is the first to
/// reach the end.
pub proof fn lemma_slice_count(length: u16, per_job: u16, n: nat)
    requires
        per_job > 0,
        n > 0 ==> (n - 1) * per_job < length,
        length <= n * per_job,
    ensures
        slice_count(length, per_job) == n,
{
    if n == 0 {
        assert(n * per_job == 0) by (nonlinear_arith)
            requires
                n == 0,
        ;
    } else {
        assert((n - 1) * per_job == n * per_job - per_job) by (nonlinear_arith);
        assert(length > 0) by (nonlinear_arith)
            requires
                (n - 1) * per_job < length,
                n > 0,
        ;
        let x = length + per_job - 1;
        lemma_fundamental_div_mod_converse(x, per_job as int, n as int, x - n * per_job);
    }
}

/// `address` in slices of at most `per_job` bytes.
pub fn slices(address: &Address, per_job: u16) -> (r: Vec<Address>)
    requires
        address.length == 0 || per_job > 0,
        address.offset + address.length <= u32::MAX,
    ensures
        r@ == slices_of(*address, per_job),
{
    let mut out: Vec<Address> = Vec::new();
    let mut offset: u32 = address.offset;
    let mut remaining: u16 = address.length;
    if remaining == 0 {
        assert(out@ =~= slices_of(*address, per_job));
        return out;
    }
    assert(0 * per_job == 0);
    while remaining > 0
        invariant
            per_job > 0,
            address.offset + address.length <= u32::MAX,
            offset + remaining == address.offset + address.length,
            remaining > 0 ==> offset == address.offset + out@.len() * per_job,
            remaining == 0 ==> address.length <= out@.len() * per_job,
            out@.len() > 0 ==> (out@.len() - 1) * per_job < address.length,
            forall|i: int|
                0 <= i < out@.len() ==> out@[i] == #[trigger] slice_at(*address, per_job, i),
        decreases remaining,
    {
        let ghost n = out@.len();
        let take: u16 = if remaining < per_job {
            remaining
        } else {
            per_job
        };
        out.push(address.slice(offset, take));
        assert(out@[n as int] == slice_at(*address, per_job, n as int));
        offset += take as u32;
        remaining -= take;
        assert((n + 1) * per_job == n * per_job + per_job) by (nonlinear_arith);
        assert(out@.len() - 1 == n);
    }
    proof {
        lemma_slice_count(address.length, per_job, out@.len());
    }
    assert(out@ =~= slices_of(*address, per_job));
    out
}

/// Every slice that is counted starts before the end, and none ends past it.
pub proof fn lemma_slice_within(address: Address, per_job: u16, i: int)
    requires
        per_job > 0,
        0 <= i < slice_count(address.length, per_job),
        address.offset + address.length <= u32::MAX,
    ensures
        0 <= i * per_job < address.length,
        slice_at(address, per_job, i).offset == address.offset + i * per_job,
        0 < slice_at(address, per_job, i).length <= per_job,
        i * per_job + slice_at(address, per_job, i).length <= address.length,
        i + 1 < slice_count(address.length, per_job) ==> slice_at(address, per_job, i).length
            == per_job,
        i + 1 == slice_count(address.length, per_job) ==> i * per_job + slice_at(
            address,
            per_job,
            i,
        ).length == address.length,
{
    let n = slice_count(address.length, per_job) as int;
    let x = address.length + per_job - 1;
    vstd::arithmetic::div_mod::lemma_fundamental_div_mod(x, per_job as int);
    assert(per_job * n == n * per_job) by (nonlinear_arith);
    assert((n - 1) * per_job == n * per_job - per_job) by (nonlinear_arith);
    assert(0 <= i * per_job <= (n - 1) * per_job) by (nonlinear_arith)
        requires
            0 <= i <= n - 1,
            per_job > 0,
    ;
    if i + 1 < n {
        assert((i + 1) * per_job <= (n - 1) * per_job) by (nonlinear_arith)
            requires
                i + 1 <= n - 1,
                per_job > 0,
        ;
        assert((i + 1) * per_job == i * per_job + per_job) by (nonlinear_arith);
    }
}

/// How many bytes of `address` the first `done` slices span.
pub open spec fn reached(address: Address, per_job: u16, done: nat) -> int {
    if done < slice_count(address.length, per_job) {
        done * per_job
    } else {
        address.length as int
    }
}

/// No slices reach nothing.
pub proof fn lemma_reached_nothing(address: Address, per_job: u16)
    requires
        per_job > 0,
    ensures
        reached(address, per_job, 0) == 0,
{
    let x = address.length + per_job - 1;
    if address.length > 0 {
        vstd::arithmetic::div_mod::lemma_div_is_ordered(per_job as int, x, per_job as int);
        vstd::arithmetic::div_mod::lemma_div_by_self(per_job as int);
    }
    assert(0 * per_job == 0);
}

/// One slice more reaches as much further as it is long.
pub proof fn lemma_reached(address: Address, per_job: u16, done: nat)
    requires
        per_job > 0,
        address.offset + address.length <= u32::MAX,
        done < slice_count(address.length, per_job),
    ensures
        slices_of(address, per_job)[done as int] == slice_at(address, per_job, done as int),
        slice_at(address, per_job, done as int).offset == address.offset + reached(
            address,
            per_job,
            done,
        ),
        reached(address, per_job, done + 1) == reached(address, per_job, done) + slice_at(
            address,
            per_job,
            done as int,
        ).length,
        0 <= reached(address, per_job, done),
        reached(address, per_job, done + 1) <= address.length,
        0 < slice_at(address, per_job, done as int).length <= per_job,
{
    lemma_slice_within(address, per_job, done as int);
    assert((done + 1) * per_job == done * per_job + per_job) by (nonlinear_arith);
}

/// How many bytes one Read Var may ask for: what the header of the answer
/// (12), its parameter (2) and the header of its data item (4) leave.
pub open spec fn bytes_per_read(pdu_length: u16) -> u16 {
    if pdu_length > 18 {
        (pdu_length - 18) as u16
    } else {
        1
    }
}

/// How many bytes one Write Var may carry: what the header of the job (10),
/// its parameter (14) and the header of its data item (4) leave.
pub open spec fn bytes_per_write(pdu_length: u16) -> u16 {
    if pdu_length > 28 {
        (pdu_length - 28) as u16
    } else {
        1
    }
}

/// The reference after `reference`.
pub open spec fn next_reference(reference: u16) -> u16 {
    if reference == u16::MAX {
        0
    } else {
        (reference + 1) as u16
    }
}

/// The bytes that were received, if any were.
pub open spec fn received_bytes(received: Option<&[u8]>) -> Option<Seq<u8>> {
    match received {
        Some(bytes) => Some(bytes@),
        None => None,
    }
}

/// The answer to the job under `reference` that was received.
pub open spec fn answered(reference: u16, received: Option<Seq<u8>>) -> Result<Pdu, Error> {
    match received {
        None => Err(Error::Closed),
        Some(bytes) => match Pdu::decoded(bytes) {
            Err(e) => Err(e),
            Ok(answer) => if answer.reference != reference {
                Err(Error::OtherReference)
            } else if answer.rosctr is Job {
                Err(Error::JobForAnswer)
            } else if answer.error != 0 {
                Err(Error::Cpu(answer.error))
            } else {
                Ok(answer)
            },
        },
    }
}

/// The job that proposes the PDU length.
pub open spec fn setup_job(reference: u16) -> Pdu {
    Pdu::job(reference, Setup::proposal(DEFAULT_PDU_LENGTH).encoded(), Seq::empty())
}

/// The job that reads `slice`.
pub open spec fn read_job(reference: u16, slice: Address) -> Pdu {
    Pdu::job(reference, seq![READ, 1] + crate::item::pointer(slice), Seq::empty())
}

/// The job that writes `bytes` at `slice`.
pub open spec fn write_job(reference: u16, slice: Address, bytes: Seq<u8>) -> Pdu {
    Pdu::job(
        reference,
        seq![WRITE, 1] + crate::item::pointer(slice),
        crate::item::data_item(RETURN_OK, bytes),
    )
}

/// The PDU length to keep to once the CPU has granted one: no more than was
/// proposed, and never less than 32.
pub open spec fn settled(granted: u16) -> u16 {
    if granted < 32 {
        32
    } else if granted > DEFAULT_PDU_LENGTH {
        DEFAULT_PDU_LENGTH
    } else {
        granted
    }
}

/// The PDU length that the answer to [`setup_job`] settles.
pub open spec fn setup_answer(reference: u16, received: Option<Seq<u8>>) -> Result<u16, Error> {
    match answered(reference, received) {
        Err(e) => Err(e),
        Ok(answer) => if answer.function() != Some(SETUP) {
            Err(Error::SetupNotAnswered)
        } else {
            match Setup::decoded(answer.parameter) {
                Err(e) => Err(e),
                Ok(setup) => Ok(settled(setup.pdu_length)),
            }
        },
    }
}

/// The bytes that the answer to [`read_job`] brings.
pub open spec fn read_answer(
    reference: u16,
    slice: Address,
    received: Option<Seq<u8>>,
) -> Result<Seq<u8>, Error> {
    match answered(reference, received) {
        Err(e) => Err(e),
        Ok(answer) => if answer.function() != Some(READ) {
            Err(Error::ReadNotAnswered)
        } else {
            match crate::item::carried(answer.data) {
                Err(e) => Err(e),
                Ok((code, bytes, _)) => match crate::item::refused(code, slice) {
                    Some(e) => Err(e),
                    None => if bytes.len() != slice.length {
                        Err(Error::WrongLength)
                    } else {
                        Ok(bytes)
                    },
                },
            }
        },
    }
}

/// What the answer to [`write_job`] says.
pub open spec fn write_answer(
    reference: u16,
    slice: Address,
    received: Option<Seq<u8>>,
) -> Result<(), Error> {
    match answered(reference, received) {
        Err(e) => Err(e),
        Ok(answer) => if answer.function() != Some(WRITE) {
            Err(Error::WriteNotAnswered)
        } else if answer.data.len() == 0 {
            Err(Error::NoReturnCode)
        } else {
            match crate::item::refused(answer.data[0], slice) {
                Some(e) => Err(e),
                None => Ok(()),
            }
        },
    }
}

/// One session with a CPU, but for the connection that carries it.
pub struct Client {
    pdu_length: u16,
    reference: u16,
}

/// What a [`Client`] keeps: the PDU length it holds to and the reference of
/// the job it sent last.
pub struct ClientState {
    pub pdu_length: u16,
    pub reference: u16,
}

impl ClientState {
    /// Once one more job has been sent.
    pub open spec fn sent(self) -> ClientState {
        ClientState { pdu_length: self.pdu_length, reference: next_reference(self.reference) }
    }
}

impl View for Client {
    type V = ClientState;

    closed spec fn view(&self) -> ClientState {
        ClientState { pdu_length: self.pdu_length, reference: self.reference }
    }
}

impl Client {
    #[verifier::type_invariant]
    spec fn keeps_to_a_settled_length(self) -> bool {
        32 <= self.pdu_length <= DEFAULT_PDU_LENGTH
    }

    /// A client that has sent nothing yet, and counts on the PDU length it is
    /// going to propose.
    pub fn new() -> (r: Client)
        ensures
            r@ == (ClientState { pdu_length: DEFAULT_PDU_LENGTH, reference: 0 }),
    {
        Client { pdu_length: DEFAULT_PDU_LENGTH, reference: 0 }
    }

    /// The PDU length the CPU granted.
    pub fn pdu_length(&self) -> (r: u16)
        ensures
            r == self@.pdu_length,
            32 <= r <= DEFAULT_PDU_LENGTH,
    {
        proof {
            use_type_invariant(self);
        }
        self.pdu_length
    }

    /// The bytes of the next job, under the next reference.
    pub fn exchange(&mut self, parameter: Vec<u8>, data: Vec<u8>) -> (r: Vec<u8>)
        requires
            12 + parameter@.len() + data@.len() <= usize::MAX,
        ensures
            final(self)@ == old(self)@.sent(),
            r@ == Pdu::job(final(self)@.reference, parameter@, data@).encoded(),
    {
        proof {
            use_type_invariant(&*self);
        }
        self.reference = self.reference.wrapping_add(1);
        encode(&Message::job(self.reference, parameter, data))
    }

    /// The answer to the job sent last, out of what was received.
    pub fn answer(&self, received: Option<&[u8]>) -> (r: Result<Message, Error>)
        ensures
            match (answered(self@.reference, received_bytes(received)), r) {
                (Ok(pdu), Ok(message)) => message@ == pdu,
                (Err(expected), Err(e)) => e == expected,
                _ => false,
            },
    {
        let bytes = match received {
            Some(bytes) => bytes,
            None => {
                return Err(Error::Closed);
            },
        };
        let answer = match decode(bytes) {
            Ok(answer) => answer,
            Err(e) => {
                return Err(e);
            },
        };
        if answer.reference != self.reference {
            return Err(Error::OtherReference);
        }
        if answer.rosctr == Rosctr::Job {
            return Err(Error::JobForAnswer);
        }
        if answer.error != 0 {
            return Err(Error::Cpu(answer.error));
        }
        Ok(answer)
    }

    /// The bytes that open the session: Setup Communication, proposing
    /// [`DEFAULT_PDU_LENGTH`].
    pub fn setup(&mut self) -> (r: Vec<u8>)
        ensures
            final(self)@ == old(self)@.sent(),
            r@ == setup_job(final(self)@.reference).encoded(),
    {
        self.exchange(Setup::proposing(DEFAULT_PDU_LENGTH).encode(), Vec::new())
    }

    /// The client once the CPU has answered Setup Communication; an error
    /// where it did not.
    pub fn connect(self, received: Option<&[u8]>) -> (r: Result<Client, Error>)
        ensures
            match (setup_answer(self@.reference, received_bytes(received)), r) {
                (Ok(pdu_length), Ok(client)) => client@ == (ClientState {
                    pdu_length,
                    reference: self@.reference,
                }),
                (Err(expected), Err(e)) => e == expected,
                _ => false,
            },
    {
        let answer = match self.answer(received) {
            Ok(answer) => answer,
            Err(e) => {
                return Err(e);
            },
        };
        if answer.function() != Some(SETUP) {
            return Err(Error::SetupNotAnswered);
        }
        let granted: u16 = match Setup::decode(answer.parameter.as_slice()) {
            Ok(setup) => setup.pdu_length,
            Err(e) => {
                return Err(e);
            },
        };
        let pdu_length: u16 = if granted < 32 {
            32
        } else if granted > DEFAULT_PDU_LENGTH {
            DEFAULT_PDU_LENGTH
        } else {
            granted
        };
        Ok(Client { pdu_length, reference: self.reference })
    }

    /// Read the bytes of `address`: the jobs that takes, none of them sent.
    pub fn read(&self, address: &Address) -> (r: Read)
        requires
            address.offset + address.length <= u32::MAX,
        ensures
            r@ == ReadState::begun(*address, self@.pdu_length),
    {
        let per_job: u16 = if self.pdu_length > 18 {
            self.pdu_length - 18
        } else {
            1
        };
        let slices = slices(address, per_job);
        proof {
            lemma_reached_nothing(*address, per_job);
        }
        Read { whole: *address, per_job, slices, done: 0, bytes: Vec::new() }
    }

    /// Write `bytes` at `address`, for as many bytes as they are: the jobs
    /// that takes, none of them sent. More bytes than one address spans are an
    /// error.
    pub fn write<'a>(&self, address: &Address, bytes: &'a [u8]) -> (r: Result<Write<'a>, Error>)
        requires
            bytes@.len() <= u16::MAX ==> address.offset + bytes@.len() <= u32::MAX,
        ensures
            match r {
                Ok(write) => bytes@.len() <= u16::MAX && write@ == WriteState::begun(
                    *address,
                    bytes@,
                    self@.pdu_length,
                ),
                Err(e) => bytes@.len() > u16::MAX && e == Error::TooManyBytes,
            },
    {
        if bytes.len() > 0xFFFF {
            return Err(Error::TooManyBytes);
        }
        let per_job: u16 = if self.pdu_length > 28 {
            self.pdu_length - 28
        } else {
            1
        };
        let whole = address.slice(address.offset, bytes.len() as u16);
        let slices = slices(&whole, per_job);
        Ok(Write { whole, per_job, slices, done: 0, bytes })
    }
}

/// A read under way.
pub struct Read {
    whole: Address,
    per_job: u16,
    slices: Vec<Address>,
    done: usize,
    bytes: Vec<u8>,
}

/// What a [`Read`] keeps: the address and the most a job takes of it, how many
/// slices have been answered, and the bytes they brought.
#[verifier::ext_equal]
pub struct ReadState {
    pub whole: Address,
    pub per_job: u16,
    pub done: nat,
    pub bytes: Seq<u8>,
}

impl ReadState {
    /// A read of `address` of which nothing is done.
    pub open spec fn begun(address: Address, pdu_length: u16) -> ReadState {
        ReadState {
            whole: address,
            per_job: bytes_per_read(pdu_length),
            done: 0,
            bytes: Seq::empty(),
        }
    }

    pub open spec fn slices(self) -> Seq<Address> {
        slices_of(self.whole, self.per_job)
    }

    /// Whether every slice has been answered.
    pub open spec fn finished(self) -> bool {
        self.done >= self.slices().len()
    }

    /// The slice to ask for next.
    pub open spec fn slice(self) -> Address {
        self.slices()[self.done as int]
    }

    /// Once `bytes` have answered the slice.
    pub open spec fn brought(self, bytes: Seq<u8>) -> ReadState {
        ReadState {
            whole: self.whole,
            per_job: self.per_job,
            done: self.done + 1,
            bytes: self.bytes + bytes,
        }
    }
}

impl View for Read {
    type V = ReadState;

    closed spec fn view(&self) -> ReadState {
        ReadState {
            whole: self.whole,
            per_job: self.per_job,
            done: self.done as nat,
            bytes: self.bytes@,
        }
    }
}

impl Read {
    #[verifier::type_invariant]
    spec fn keeps_to_its_slices(self) -> bool {
        &&& self.slices@ == slices_of(self.whole, self.per_job)
        &&& self.done <= self.slices@.len()
        &&& self.per_job > 0
        &&& self.whole.offset + self.whole.length <= u32::MAX
        &&& self.bytes@.len() == reached(self.whole, self.per_job, self.done as nat)
    }

    /// A read that asks for nothing, and so has nothing left to ask for.
    fn of_nothing() -> (r: Read)
        ensures
            r@ == (ReadState {
                whole: Address { area: Area::Flag, db: 0, offset: 0, length: 0 },
                per_job: 1,
                done: 0,
                bytes: Seq::empty(),
            }),
            r@.finished(),
    {
        let whole = Address { area: Area::Flag, db: 0, offset: 0, length: 0 };
        let slices: Vec<Address> = Vec::new();
        assert(slices@ =~= slices_of(whole, 1));
        Read { whole, per_job: 1, slices, done: 0, bytes: Vec::new() }
    }

    /// The slice the next job asks for, or `None` when there is no more.
    pub fn slice(&self) -> (r: Option<Address>)
        ensures
            r == if self@.finished() {
                None
            } else {
                Some(self@.slice())
            },
    {
        proof {
            use_type_invariant(self);
        }
        if self.done < self.slices.len() {
            Some(self.slices[self.done])
        } else {
            None
        }
    }

    /// The bytes of the job to send next, or `None` when there is no more to
    /// read.
    pub fn job(&self, client: &mut Client) -> (r: Option<Vec<u8>>)
        requires
            !self@.finished() ==> self@.slice().offset * 8 <= u32::MAX,
        ensures
            match r {
                None => self@.finished() && final(client)@ == old(client)@,
                Some(bytes) => !self@.finished() && final(client)@ == old(client)@.sent()
                    && bytes@ == read_job(final(client)@.reference, self@.slice()).encoded(),
            },
    {
        match self.slice() {
            None => None,
            Some(slice) => {
                let mut parameter: Vec<u8> = vec![READ, 1];
                let item = encode_item(&slice);
                push_all(&mut parameter, item.as_slice());
                assert(parameter@ =~= seq![READ, 1] + crate::item::pointer(slice));
                Some(client.exchange(parameter, Vec::new()))
            },
        }
    }

    /// Take what was received as the answer to the job sent last; on an error
    /// nothing is taken.
    pub fn answer(&mut self, client: &Client, received: Option<&[u8]>) -> (r: Result<(), Error>)
        requires
            !old(self)@.finished(),
        ensures
            match read_answer(client@.reference, old(self)@.slice(), received_bytes(received)) {
                Ok(bytes) => r == Ok::<(), Error>(()) && final(self)@ == old(self)@.brought(bytes),
                Err(e) => r == Err::<(), Error>(e) && final(self)@ == old(self)@,
            },
    {
        proof {
            use_type_invariant(&*self);
        }
        let slice = self.slices[self.done];
        let answer = match client.answer(received) {
            Ok(answer) => answer,
            Err(e) => {
                return Err(e);
            },
        };
        if answer.function() != Some(READ) {
            return Err(Error::ReadNotAnswered);
        }
        let (code, data, _) = match decode_data(answer.data.as_slice()) {
            Ok(carried) => carried,
            Err(e) => {
                return Err(e);
            },
        };
        match refusal(code, &slice) {
            Some(refused) => {
                return Err(refused);
            },
            None => {},
        }
        if data.len() != slice.length as usize {
            return Err(Error::WrongLength);
        }
        proof {
            lemma_reached(self.whole, self.per_job, self.done as nat);
        }
        let mut read = Read::of_nothing();
        std::mem::swap(self, &mut read);
        let mut bytes = read.bytes;
        push_all(&mut bytes, data);
        assert(read.done < read.slices.len());
        *self =
        Read {
            whole: read.whole,
            per_job: read.per_job,
            slices: read.slices,
            done: read.done + 1,
            bytes,
        };
        Ok(())
    }

    /// The bytes that were read: when there is no more to read, as many as the
    /// address asks for, whatever the answers were.
    pub fn into_bytes(self) -> (r: Vec<u8>)
        ensures
            r@ == self@.bytes,
            self@.finished() ==> r@.len() == self@.whole.length,
    {
        proof {
            use_type_invariant(&self);
        }
        self.bytes
    }
}

/// A write under way.
pub struct Write<'a> {
    whole: Address,
    per_job: u16,
    slices: Vec<Address>,
    done: usize,
    bytes: &'a [u8],
}

/// What a [`Write`] keeps: the address, as long as the bytes are, the most a
/// job takes of them, how many slices have been answered, and the bytes.
#[verifier::ext_equal]
pub struct WriteState {
    pub whole: Address,
    pub per_job: u16,
    pub done: nat,
    pub bytes: Seq<u8>,
}

impl WriteState {
    /// A write of `bytes` at `address` of which nothing is done.
    pub open spec fn begun(address: Address, bytes: Seq<u8>, pdu_length: u16) -> WriteState {
        WriteState {
            whole: address.part(address.offset, bytes.len() as u16),
            per_job: bytes_per_write(pdu_length),
            done: 0,
            bytes,
        }
    }

    pub open spec fn slices(self) -> Seq<Address> {
        slices_of(self.whole, self.per_job)
    }

    /// Whether every slice has been answered.
    pub open spec fn finished(self) -> bool {
        self.done >= self.slices().len()
    }

    /// The slice to write next.
    pub open spec fn slice(self) -> Address {
        self.slices()[self.done as int]
    }

    /// The bytes that go there.
    pub open spec fn chunk(self) -> Seq<u8> {
        let start = self.slice().offset - self.whole.offset;
        self.bytes.subrange(start, start + self.slice().length)
    }

    /// Once the slice has been written.
    pub open spec fn written(self) -> WriteState {
        WriteState {
            whole: self.whole,
            per_job: self.per_job,
            done: self.done + 1,
            bytes: self.bytes,
        }
    }
}

impl<'a> View for Write<'a> {
    type V = WriteState;

    closed spec fn view(&self) -> WriteState {
        WriteState {
            whole: self.whole,
            per_job: self.per_job,
            done: self.done as nat,
            bytes: self.bytes@,
        }
    }
}

impl<'a> Write<'a> {
    #[verifier::type_invariant]
    spec fn keeps_to_its_slices(self) -> bool {
        &&& self.slices@ == slices_of(self.whole, self.per_job)
        &&& self.done <= self.slices@.len()
        &&& self.per_job > 0
        &&& self.whole.length == self.bytes@.len()
        &&& self.whole.offset + self.whole.length <= u32::MAX
    }

    /// The slice the next job writes, or `None` when there is no more.
    pub fn slice(&self) -> (r: Option<Address>)
        ensures
            r == if self@.finished() {
                None
            } else {
                Some(self@.slice())
            },
    {
        proof {
            use_type_invariant(self);
        }
        if self.done < self.slices.len() {
            Some(self.slices[self.done])
        } else {
            None
        }
    }

    /// The bytes of the job to send next, or `None` when there is no more to
    /// write.
    pub fn job(&self, client: &mut Client) -> (r: Option<Vec<u8>>)
        requires
            !self@.finished() ==> self@.slice().offset * 8 <= u32::MAX,
        ensures
            match r {
                None => self@.finished() && final(client)@ == old(client)@,
                Some(bytes) => !self@.finished() && final(client)@ == old(client)@.sent()
                    && bytes@ == write_job(
                    final(client)@.reference,
                    self@.slice(),
                    self@.chunk(),
                ).encoded(),
            },
    {
        match self.slice() {
            None => None,
            Some(slice) => {
                proof {
                    use_type_invariant(self);
                    lemma_slice_within(self.whole, self.per_job, self.done as int);
                }
                let start: usize = (slice.offset - self.whole.offset) as usize;
                let chunk = slice_subrange(self.bytes, start, start + slice.length as usize);
                let mut parameter: Vec<u8> = vec![WRITE, 1];
                let item = encode_item(&slice);
                push_all(&mut parameter, item.as_slice());
                assert(parameter@ =~= seq![WRITE, 1] + crate::item::pointer(slice));
                Some(client.exchange(parameter, encode_data(RETURN_OK, chunk)))
            },
        }
    }

    /// Take what was received as the answer to the job sent last; on an error
    /// the slice stays to be written.
    pub fn answer(&mut self, client: &Client, received: Option<&[u8]>) -> (r: Result<(), Error>)
        requires
            !old(self)@.finished(),
        ensures
            r == write_answer(client@.reference, old(self)@.slice(), received_bytes(received)),
            final(self)@ == if r is Ok {
                old(self)@.written()
            } else {
                old(self)@
            },
    {
        proof {
            use_type_invariant(&*self);
        }
        let slice = self.slices[self.done];
        let answer = match client.answer(received) {
            Ok(answer) => answer,
            Err(e) => {
                return Err(e);
            },
        };
        if answer.function() != Some(WRITE) {
            return Err(Error::WriteNotAnswered);
        }
        if answer.data.len() == 0 {
            return Err(Error::NoReturnCode);
        }
        match refusal(answer.data[0], &slice) {
            Some(refused) => {
                return Err(refused);
            },
            None => {},
        }
        self.done += 1;
        Ok(())
    }
}

} // verus!
