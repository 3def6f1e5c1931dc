//! What is refused, and the words for it.

use vstd::prelude::*;
use vstd::string::*;

use crate::item::Address;
use crate::text::{decimal, hex, quoted, wide_hex};

verus! {

/// Why bytes, an address or an answer were refused.
#[derive(Clone, Debug, PartialEq, Eq)]
pub enum Error {
    /// A PDU shorter than its header.
    ShortPdu,
    /// A PDU that opens with another protocol id.
    ProtocolId(u8),
    /// A ROSCTR nobody sends.
    Rosctr(u8),
    /// An ack that ends before its error field.
    NoErrorField,
    /// A parameter part that ends past the PDU.
    ParameterPastEnd,
    /// A data part that ends past the PDU.
    DataPastEnd,
    /// A parameter part that is not Setup Communication.
    NotSetup,
    /// Text that is not an address.
    NotAnAddress(String),
    /// An area code that is not addressed.
    Area(u8),
    /// An item that is not an S7ANY pointer.
    NotAPointer,
    /// A pointer to bits.
    BitAddress,
    /// A transport size that is not addressed.
    TransportSize(u8),
    /// A data item that ends inside its header.
    ShortDataHeader,
    /// A data item that ends before its length.
    ShortData,
    /// The PLC does not have the object.
    ObjectDoesNotExist(Address),
    /// The address is past the end of its area.
    OutOfRange(Address),
    /// The PLC answered another return code.
    Refused(Address, u8),
    /// Something else where an answer to Setup Communication was due.
    SetupNotAnswered,
    /// Something else where an answer to Read Var was due.
    ReadNotAnswered,
    /// Something else where an answer to Write Var was due.
    WriteNotAnswered,
    /// A Read Var answer of another length.
    WrongLength,
    /// More bytes to write than an address spans.
    TooManyBytes,
    /// A Write Var answer that carries nothing.
    NoReturnCode,
    /// The CPU closed where an answer was due.
    Closed,
    /// An answer that echoes another reference.
    OtherReference,
    /// A job where an answer was due.
    JobForAnswer,
    /// An answer with an error class and code.
    Cpu(u16),
    /// An answer where a job was due.
    AnswerForJob,
    /// A function that no session serves.
    Function(Option<u8>),
    /// A job for other than one item.
    NotOneItem,
}

impl Error {
    /// The words for the error.
    pub open spec fn text(self) -> Seq<char> {
        match self {
            Error::ShortPdu => "an S7 PDU shorter than its header"@,
            Error::ProtocolId(id) => "protocol id "@ + crate::text::hex_text(id)
                + " where S7 is 0x32"@,
            Error::Rosctr(code) => "ROSCTR "@ + crate::text::hex_text(code) + " is not S7"@,
            Error::NoErrorField => "an ack without its error field"@,
            Error::ParameterPastEnd => "a parameter length past the end"@,
            Error::DataPastEnd => "a data length past the end"@,
            Error::NotSetup => "a parameter that is not Setup Communication"@,
            Error::NotAnAddress(text) => crate::text::quoted_text(text@)
                + " is not an S7 address"@,
            Error::Area(code) => "area "@ + crate::text::hex_text(code) + " is not addressed"@,
            Error::NotAPointer => "an item that is not an S7ANY pointer"@,
            Error::BitAddress => "a bit address; this transport reads bytes"@,
            Error::TransportSize(size) => "transport size "@ + crate::text::hex_text(size)
                + " is not addressed"@,
            Error::ShortDataHeader => "a data item shorter than its header"@,
            Error::ShortData => "a data item shorter than its length"@,
            Error::ObjectDoesNotExist(address) => address.text() + ": object does not exist"@,
            Error::OutOfRange(address) => address.text() + ": out of range"@,
            Error::Refused(address, code) => address.text() + ": the PLC answered "@
                + crate::text::hex_text(code),
            Error::SetupNotAnswered => "the CPU did not answer Setup Communication"@,
            Error::ReadNotAnswered => "the CPU did not answer Read Var"@,
            Error::WriteNotAnswered => "the CPU did not answer Write Var"@,
            Error::WrongLength => "the CPU answered fewer bytes than asked"@,
            Error::TooManyBytes => "more bytes than one address spans"@,
            Error::NoReturnCode => "a Write Var answer without a return code"@,
            Error::Closed => "the CPU closed before answering"@,
            Error::OtherReference => "an answer to a different job"@,
            Error::JobForAnswer => "a job where an answer was due"@,
            Error::Cpu(error) => "the CPU answered error "@ + crate::text::wide_hex_text(error),
            Error::AnswerForJob => "an answer where a job was due"@,
            Error::Function(None) => "function None is not one this session serves"@,
            Error::Function(Some(code)) => "function Some("@ + crate::text::decimal_text(
                code as nat,
            ) + ") is not one this session serves"@,
            Error::NotOneItem => "this session serves one item per job"@,
        }
    }

    /// Whether trying again may help. What is refused here is refused for
    /// what it is, so it never does.
    pub fn retryable(&self) -> (r: bool)
        ensures
            !r,
    {
        false
    }

    /// The words for the error.
    pub fn to_string(&self) -> (r: String)
        ensures
            r@ == self.text(),
    {
        match self {
            Error::ShortPdu => "an S7 PDU shorter than its header".to_owned(),
            Error::ProtocolId(id) => "protocol id ".to_owned().concat(hex(*id).as_str()).concat(
                " where S7 is 0x32",
            ),
            Error::Rosctr(code) => "ROSCTR ".to_owned().concat(hex(*code).as_str()).concat(
                " is not S7",
            ),
            Error::NoErrorField => "an ack without its error field".to_owned(),
            Error::ParameterPastEnd => "a parameter length past the end".to_owned(),
            Error::DataPastEnd => "a data length past the end".to_owned(),
            Error::NotSetup => "a parameter that is not Setup Communication".to_owned(),
            Error::NotAnAddress(text) => quoted(text.as_str()).concat(" is not an S7 address"),
            Error::Area(code) => "area ".to_owned().concat(hex(*code).as_str()).concat(
                " is not addressed",
            ),
            Error::NotAPointer => "an item that is not an S7ANY pointer".to_owned(),
            Error::BitAddress => "a bit address; this transport reads bytes".to_owned(),
            Error::TransportSize(size) => "transport size ".to_owned().concat(
                hex(*size).as_str(),
            ).concat(" is not addressed"),
            Error::ShortDataHeader => "a data item shorter than its header".to_owned(),
            Error::ShortData => "a data item shorter than its length".to_owned(),
            Error::ObjectDoesNotExist(address) => address.to_string().concat(
                ": object does not exist",
            ),
            Error::OutOfRange(address) => address.to_string().concat(": out of range"),
            Error::Refused(address, code) => address.to_string().concat(
                ": the PLC answered ",
            ).concat(hex(*code).as_str()),
            Error::SetupNotAnswered => "the CPU did not answer Setup Communication".to_owned(),
            Error::ReadNotAnswered => "the CPU did not answer Read Var".to_owned(),
            Error::WriteNotAnswered => "the CPU did not answer Write Var".to_owned(),
            Error::WrongLength => "the CPU answered fewer bytes than asked".to_owned(),
            Error::TooManyBytes => "more bytes than one address spans".to_owned(),
            Error::NoReturnCode => "a Write Var answer without a return code".to_owned(),
            Error::Closed => "the CPU closed before answering".to_owned(),
            Error::OtherReference => "an answer to a different job".to_owned(),
            Error::JobForAnswer => "a job where an answer was due".to_owned(),
            Error::Cpu(error) => "the CPU answered error ".to_owned().concat(
                wide_hex(*error).as_str(),
            ),
            Error::AnswerForJob => "an answer where a job was due".to_owned(),
            Error::Function(None) => "function None is not one this session serves".to_owned(),
            Error::Function(Some(code)) => "function Some(".to_owned().concat(
                decimal(*code as u32).as_str(),
            ).concat(") is not one this session serves"),
            Error::NotOneItem => "this session serves one item per job".to_owned(),
        }
    }
}

} // verus!
