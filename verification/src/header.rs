//! The S7 protocol data unit: a ten-byte header, twelve on an answer, a
//! parameter part and a data part, and the Setup Communication parameter that
//! opens every session.
//!
//! `32 RR 00 00 PP PP LL LL DD DD [EE EE]`: protocol id 0x32, the remote
//! operating service control (job, ack, ack-data, user data), two reserved
//! bytes, the PDU reference the answer echoes, the parameter and data
//! lengths, and on an ack the error class and code. Siemens never published
//! this; what is here is what the plant floor reverse-engineered and every
//! open S7 driver agrees on.

use vstd::prelude::*;
use vstd::slice::{slice_subrange, slice_to_vec};

use crate::error::Error;
use crate::wire::{cap, push_all, push_be, read_be};

verus! {

/// The first byte of every S7 PDU.
pub const PROTOCOL_ID: u8 = 0x32;

/// The function code of Setup Communication.
pub const SETUP: u8 = 0xF0;

/// The function code of Read Var.
pub const READ: u8 = 0x04;

/// The function code of Write Var.
pub const WRITE: u8 = 0x05;

/// The PDU length a client proposes: what a 300-series CPU grants.
pub const DEFAULT_PDU_LENGTH: u16 = 480;

/// Remote operating service control: what kind of PDU this is.
#[derive(Clone, Copy, Debug, PartialEq, Eq, Structural)]
pub enum Rosctr {
    /// A request, 0x01.
    Job,
    /// An answer without data, 0x02.
    Ack,
    /// An answer with data, 0x03.
    AckData,
    /// Diagnostics and the like, 0x07; carried, not interpreted here.
    UserData,
}

impl Rosctr {
    /// The code that stands for it on the wire.
    pub open spec fn wire_code(self) -> u8 {
        match self {
            Rosctr::Job => 0x01,
            Rosctr::Ack => 0x02,
            Rosctr::AckData => 0x03,
            Rosctr::UserData => 0x07,
        }
    }

    /// What a code stands for.
    pub open spec fn coded(code: u8) -> Result<Rosctr, Error> {
        if code == 0x01 {
            Ok(Rosctr::Job)
        } else if code == 0x02 {
            Ok(Rosctr::Ack)
        } else if code == 0x03 {
            Ok(Rosctr::AckData)
        } else if code == 0x07 {
            Ok(Rosctr::UserData)
        } else {
            Err(Error::Rosctr(code))
        }
    }

    /// Whether the header of such a PDU has an error field.
    pub open spec fn has_error_field(self) -> bool {
        self is Ack || self is AckData
    }

    /// The code on the wire.
    pub fn code(self) -> (r: u8)
        ensures
            r == self.wire_code(),
    {
        match self {
            Rosctr::Job => 0x01,
            Rosctr::Ack => 0x02,
            Rosctr::AckData => 0x03,
            Rosctr::UserData => 0x07,
        }
    }
}

/// One PDU, header fields and both parts.
#[derive(Clone, Debug, PartialEq, Eq)]
pub struct Message {
    pub rosctr: Rosctr,
    pub reference: u16,
    /// Error class and code; zero on a job and on success.
    pub error: u16,
    pub parameter: Vec<u8>,
    pub data: Vec<u8>,
}

/// What a [`Message`] holds.
#[verifier::ext_equal]
pub struct Pdu {
    pub rosctr: Rosctr,
    pub reference: u16,
    pub error: u16,
    pub parameter: Seq<u8>,
    pub data: Seq<u8>,
}

impl View for Message {
    type V = Pdu;

    open spec fn view(&self) -> Pdu {
        Pdu {
            rosctr: self.rosctr,
            reference: self.reference,
            error: self.error,
            parameter: self.parameter@,
            data: self.data@,
        }
    }
}

impl Pdu {
    /// A job under `reference`.
    pub open spec fn job(reference: u16, parameter: Seq<u8>, data: Seq<u8>) -> Pdu {
        Pdu { rosctr: Rosctr::Job, reference, error: 0, parameter, data }
    }

    /// The ack-data answering `reference`.
    pub open spec fn ack_data(reference: u16, parameter: Seq<u8>, data: Seq<u8>) -> Pdu {
        Pdu { rosctr: Rosctr::AckData, reference, error: 0, parameter, data }
    }

    /// The function code the parameter part opens with, if any.
    pub open spec fn function(self) -> Option<u8> {
        if self.parameter.len() > 0 {
            Some(self.parameter[0])
        } else {
            None
        }
    }

    /// Whether the header can carry the PDU: it has two bytes for the length
    /// of each part, and an error field on an ack alone.
    pub open spec fn fits(self) -> bool {
        &&& self.parameter.len() <= u16::MAX
        &&& self.data.len() <= u16::MAX
        &&& self.rosctr.has_error_field() || self.error == 0
    }

    /// The header.
    pub open spec fn header(self) -> Seq<u8> {
        seq![PROTOCOL_ID, self.rosctr.wire_code(), 0, 0] + crate::wire::be(self.reference)
            + crate::wire::be(crate::wire::capped(self.parameter.len())) + crate::wire::be(
            crate::wire::capped(self.data.len()),
        ) + (if self.rosctr.has_error_field() {
            crate::wire::be(self.error)
        } else {
            Seq::empty()
        })
    }

    /// The PDU as bytes on the wire.
    pub open spec fn encoded(self) -> Seq<u8> {
        self.header() + self.parameter + self.data
    }

    /// The PDU that bytes open with.
    pub open spec fn decoded(bytes: Seq<u8>) -> Result<Pdu, Error> {
        if bytes.len() < 10 {
            Err(Error::ShortPdu)
        } else if bytes[0] != PROTOCOL_ID {
            Err(Error::ProtocolId(bytes[0]))
        } else {
            match Rosctr::coded(bytes[1]) {
                Err(e) => Err(e),
                Ok(rosctr) => {
                    let start: int = if rosctr.has_error_field() {
                        12
                    } else {
                        10
                    };
                    let middle = start + crate::wire::word(bytes[6], bytes[7]);
                    let end = middle + crate::wire::word(bytes[8], bytes[9]);
                    if bytes.len() < start {
                        Err(Error::NoErrorField)
                    } else if bytes.len() < middle {
                        Err(Error::ParameterPastEnd)
                    } else if bytes.len() < end {
                        Err(Error::DataPastEnd)
                    } else {
                        Ok(
                            Pdu {
                                rosctr,
                                reference: crate::wire::word(bytes[4], bytes[5]),
                                error: if rosctr.has_error_field() {
                                    crate::wire::word(bytes[10], bytes[11])
                                } else {
                                    0
                                },
                                parameter: bytes.subrange(start, middle),
                                data: bytes.subrange(middle, end),
                            },
                        )
                    }
                },
            }
        }
    }
}

impl Message {
    /// A job carrying `parameter` and `data` under `reference`.
    pub fn job(reference: u16, parameter: Vec<u8>, data: Vec<u8>) -> (r: Message)
        ensures
            r@ == Pdu::job(reference, parameter@, data@),
    {
        Message { rosctr: Rosctr::Job, reference, error: 0, parameter, data }
    }

    /// The ack-data answering `reference`.
    pub fn ack_data(reference: u16, parameter: Vec<u8>, data: Vec<u8>) -> (r: Message)
        ensures
            r@ == Pdu::ack_data(reference, parameter@, data@),
    {
        Message { rosctr: Rosctr::AckData, reference, error: 0, parameter, data }
    }

    /// The function code the parameter part opens with, if any.
    pub fn function(&self) -> (r: Option<u8>)
        ensures
            r == self@.function(),
    {
        if self.parameter.len() > 0 {
            Some(self.parameter[0])
        } else {
            None
        }
    }
}

/// The length of a part as its header field carries it.
fn length(part: &[u8]) -> (r: u16)
    ensures
        r == crate::wire::capped(part@.len()),
{
    cap(part.len())
}

/// `message` as bytes on the wire.
pub fn encode(message: &Message) -> (r: Vec<u8>)
    requires
        12 + message.parameter@.len() + message.data@.len() <= usize::MAX,
    ensures
        r@ == message@.encoded(),
{
    let mut out: Vec<u8> = Vec::with_capacity(12 + message.parameter.len() + message.data.len());
    out.push(PROTOCOL_ID);
    out.push(message.rosctr.code());
    out.push(0);
    out.push(0);
    push_be(&mut out, message.reference);
    push_be(&mut out, length(message.parameter.as_slice()));
    push_be(&mut out, length(message.data.as_slice()));
    if matches!(message.rosctr, Rosctr::Ack | Rosctr::AckData) {
        push_be(&mut out, message.error);
    }
    assert(out@ =~= message@.header());
    push_all(&mut out, message.parameter.as_slice());
    push_all(&mut out, message.data.as_slice());
    out
}

/// Read one PDU. What is not S7 is an error: a protocol id other than 0x32, a
/// ROSCTR nobody sends, or lengths past the end.
pub fn decode(bytes: &[u8]) -> (r: Result<Message, Error>)
    ensures
        match (Pdu::decoded(bytes@), r) {
            (Ok(pdu), Ok(message)) => message@ == pdu,
            (Err(expected), Err(e)) => e == expected,
            _ => false,
        },
{
    if bytes.len() < 10 {
        return Err(Error::ShortPdu);
    }
    if bytes[0] != PROTOCOL_ID {
        return Err(Error::ProtocolId(bytes[0]));
    }
    let rosctr = match bytes[1] {
        0x01 => Rosctr::Job,
        0x02 => Rosctr::Ack,
        0x03 => Rosctr::AckData,
        0x07 => Rosctr::UserData,
        other => {
            return Err(Error::Rosctr(other));
        },
    };
    let reference: u16 = read_be(bytes[4], bytes[5]);
    let parameter_len: usize = read_be(bytes[6], bytes[7]) as usize;
    let data_len: usize = read_be(bytes[8], bytes[9]) as usize;
    let has_error: bool = matches!(rosctr, Rosctr::Ack | Rosctr::AckData);
    let start: usize = if has_error {
        12
    } else {
        10
    };
    if bytes.len() < start {
        return Err(Error::NoErrorField);
    }
    let error: u16 = if has_error {
        read_be(bytes[10], bytes[11])
    } else {
        0
    };
    if bytes.len() - start < parameter_len {
        return Err(Error::ParameterPastEnd);
    }
    let middle: usize = start + parameter_len;
    if bytes.len() - middle < data_len {
        return Err(Error::DataPastEnd);
    }
    Ok(
        Message {
            rosctr,
            reference,
            error,
            parameter: slice_to_vec(slice_subrange(bytes, start, middle)),
            data: slice_to_vec(slice_subrange(bytes, middle, middle + data_len)),
        },
    )
}

/// The Setup Communication parameter, function 0xF0: how many jobs may be
/// outstanding each way, and the PDU length both sides settle on.
#[derive(Clone, Copy, Debug, PartialEq, Eq, Structural)]
pub struct Setup {
    pub max_calling: u16,
    pub max_called: u16,
    pub pdu_length: u16,
}

impl Setup {
    /// One job at a time each way.
    pub open spec fn proposal(pdu_length: u16) -> Setup {
        Setup { max_calling: 1, max_called: 1, pdu_length }
    }

    /// The parameter part.
    pub open spec fn encoded(self) -> Seq<u8> {
        seq![SETUP, 0] + crate::wire::be(self.max_calling) + crate::wire::be(self.max_called)
            + crate::wire::be(self.pdu_length)
    }

    /// What a parameter part says.
    pub open spec fn decoded(parameter: Seq<u8>) -> Result<Setup, Error> {
        if parameter.len() < 8 || parameter[0] != SETUP {
            Err(Error::NotSetup)
        } else {
            Ok(
                Setup {
                    max_calling: crate::wire::word(parameter[2], parameter[3]),
                    max_called: crate::wire::word(parameter[4], parameter[5]),
                    pdu_length: crate::wire::word(parameter[6], parameter[7]),
                },
            )
        }
    }

    /// One job at a time each way, `pdu_length` proposed.
    pub fn proposing(pdu_length: u16) -> (r: Setup)
        ensures
            r == Setup::proposal(pdu_length),
    {
        Setup { max_calling: 1, max_called: 1, pdu_length }
    }

    /// The parameter part.
    pub fn encode(self) -> (r: Vec<u8>)
        ensures
            r@ == self.encoded(),
    {
        let mut out: Vec<u8> = vec![SETUP, 0];
        push_be(&mut out, self.max_calling);
        push_be(&mut out, self.max_called);
        push_be(&mut out, self.pdu_length);
        assert(out@ =~= self.encoded());
        out
    }

    /// From a parameter part; one that is not Setup Communication, or is
    /// short, is an error.
    pub fn decode(parameter: &[u8]) -> (r: Result<Setup, Error>)
        ensures
            r == Setup::decoded(parameter@),
    {
        if parameter.len() < 8 || parameter[0] != SETUP {
            return Err(Error::NotSetup);
        }
        Ok(
            Setup {
                max_calling: read_be(parameter[2], parameter[3]),
                max_called: read_be(parameter[4], parameter[5]),
                pdu_length: read_be(parameter[6], parameter[7]),
            },
        )
    }
}

} // verus!
