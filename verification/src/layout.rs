//! What stands where on the wire: every byte of a PDU, a parameter, a pointer
//! and a data item, by its place and its value, as it is written and as it is
//! read.

use vstd::prelude::*;

use crate::client::{read_job, setup_job, write_job, LOCAL_TSAP};
use crate::error::Error;
use crate::header::{
    Message, Pdu, Rosctr, Setup, DEFAULT_PDU_LENGTH, PROTOCOL_ID, READ, SETUP, WRITE,
};
use crate::item::{
    as_pointed, carried, countable, data_item, pointed, pointer, refused, Address, Area,
    OBJECT_DOES_NOT_EXIST, OUT_OF_RANGE, RETURN_OK,
};
use crate::wire::{be, capped, word};

verus! {

/// The numbers that the protocol fixes.
pub proof fn numbers_of_the_protocol()
    ensures
        PROTOCOL_ID == 0x32,
        SETUP == 0xF0,
        READ == 0x04,
        WRITE == 0x05,
        DEFAULT_PDU_LENGTH == 480,
        RETURN_OK == 0xFF,
        OBJECT_DOES_NOT_EXIST == 0x0A,
        OUT_OF_RANGE == 0x05,
        LOCAL_TSAP@ == seq![0x01u8, 0x00],
{
}

/// Sixteen bits are two bytes, the high one first, and a length that they
/// cannot say is the most they can.
pub proof fn words_on_the_wire(n: u16, high: u8, low: u8, length: nat)
    ensures
        be(n).len() == 2,
        be(n)[0] * 256 + be(n)[1] == n,
        word(high, low) == high * 256 + low,
        length <= 0xFFFF ==> capped(length) == length,
        length > 0xFFFF ==> capped(length) == 0xFFFF,
{
}

/// A message holds its fields, each part as its own.
pub proof fn message_holds_its_fields(message: Message)
    ensures
        message@.rosctr == message.rosctr,
        message@.reference == message.reference,
        message@.error == message.error,
        message@.parameter == message.parameter@,
        message@.data == message.data@,
{
}

/// A job and an ack-data carry what they are given, and no error.
pub proof fn jobs_and_answers_carry_their_parts(
    reference: u16,
    parameter: Seq<u8>,
    data: Seq<u8>,
)
    ensures
        ({
            let job = Pdu::job(reference, parameter, data);
            &&& job.rosctr == Rosctr::Job && job.reference == reference && job.error == 0
            &&& job.parameter == parameter && job.data == data
        }),
        ({
            let answer = Pdu::ack_data(reference, parameter, data);
            &&& answer.rosctr == Rosctr::AckData && answer.reference == reference && answer.error
                == 0
            &&& answer.parameter == parameter && answer.data == data
        }),
{
}

/// A header carries parts of up to 65535 bytes, and an error on an ack or
/// ack-data only.
pub proof fn what_a_header_carries(pdu: Pdu)
    ensures
        pdu.fits() <==> pdu.parameter.len() <= 0xFFFF && pdu.data.len() <= 0xFFFF && (pdu.error == 0
            || pdu.rosctr == Rosctr::Ack || pdu.rosctr == Rosctr::AckData),
{
}

/// The function of a PDU is the first byte of its parameter part.
pub proof fn function_opens_the_parameter(pdu: Pdu)
    ensures
        pdu.parameter.len() == 0 ==> pdu.function() == None::<u8>,
        pdu.parameter.len() > 0 ==> pdu.function() == Some(pdu.parameter[0]),
{
}

/// A job is 1, an ack 2, an ack-data 3, user data 7, and no other code is S7.
/// Acks and ack-data alone have an error field.
pub proof fn rosctr_codes(rosctr: Rosctr, code: u8)
    ensures
        rosctr == Rosctr::Job ==> rosctr.wire_code() == 1,
        rosctr == Rosctr::Ack ==> rosctr.wire_code() == 2,
        rosctr == Rosctr::AckData ==> rosctr.wire_code() == 3,
        rosctr == Rosctr::UserData ==> rosctr.wire_code() == 7,
        code == 1 ==> Rosctr::coded(code) == Ok::<Rosctr, Error>(Rosctr::Job),
        code == 2 ==> Rosctr::coded(code) == Ok::<Rosctr, Error>(Rosctr::Ack),
        code == 3 ==> Rosctr::coded(code) == Ok::<Rosctr, Error>(Rosctr::AckData),
        code == 7 ==> Rosctr::coded(code) == Ok::<Rosctr, Error>(Rosctr::UserData),
        code != 1 && code != 2 && code != 3 && code != 7 ==> Rosctr::coded(code) == Err::<
            Rosctr,
            Error,
        >(Error::Rosctr(code)),
        rosctr.has_error_field() <==> rosctr == Rosctr::Ack || rosctr == Rosctr::AckData,
{
}

/// How long the header of a PDU is: ten bytes, twelve on an ack or ack-data.
pub open spec fn header_length(rosctr_code: u8) -> int {
    if rosctr_code == 2 || rosctr_code == 3 {
        12
    } else {
        10
    }
}

/// A PDU as it is written: protocol id, ROSCTR, two bytes of nothing, the
/// reference, the length of the parameter part, that of the data part, on an
/// ack or ack-data the error; then the parameter part, and right after it the
/// data part.
pub proof fn pdu_as_written(pdu: Pdu)
    ensures
        ({
            let bytes = pdu.encoded();
            let p = pdu.parameter.len();
            let d = pdu.data.len();
            let start = header_length(bytes[1]);
            &&& bytes.len() == start + p + d
            &&& bytes[0] == 0x32
            &&& pdu.rosctr == Rosctr::Job ==> bytes[1] == 1
            &&& pdu.rosctr == Rosctr::Ack ==> bytes[1] == 2
            &&& pdu.rosctr == Rosctr::AckData ==> bytes[1] == 3
            &&& pdu.rosctr == Rosctr::UserData ==> bytes[1] == 7
            &&& bytes[2] == 0 && bytes[3] == 0
            &&& bytes[4] * 256 + bytes[5] == pdu.reference
            &&& bytes[6] * 256 + bytes[7] == if p <= 0xFFFF {
                p as int
            } else {
                0xFFFF
            }
            &&& bytes[8] * 256 + bytes[9] == if d <= 0xFFFF {
                d as int
            } else {
                0xFFFF
            }
            &&& start == 12 ==> bytes[10] * 256 + bytes[11] == pdu.error
            &&& forall|i: int| 0 <= i < p ==> #[trigger] pdu.parameter[i] == bytes[start + i]
            &&& forall|j: int| 0 <= j < d ==> #[trigger] pdu.data[j] == bytes[start + p + j]
        }),
{
    let bytes = pdu.encoded();
    let header = pdu.header();
    assert(forall|i: int| 0 <= i < header.len() ==> bytes[i] == header[i]);
}

/// What bytes are refused as no PDU, in this order: fewer than ten, another
/// protocol id, another ROSCTR, an ack that ends before its error, a parameter
/// part and a data part that end past them. Nothing else is refused.
pub proof fn bytes_refused_as_no_pdu(bytes: Seq<u8>)
    ensures
        ({
            let got = Pdu::decoded(bytes);
            let known = bytes[1] == 1 || bytes[1] == 2 || bytes[1] == 3 || bytes[1] == 7;
            let start = header_length(bytes[1]);
            let p = bytes[6] * 256 + bytes[7];
            let d = bytes[8] * 256 + bytes[9];
            if bytes.len() < 10 {
                got == Err::<Pdu, Error>(Error::ShortPdu)
            } else if bytes[0] != 0x32 {
                got == Err::<Pdu, Error>(Error::ProtocolId(bytes[0]))
            } else if !known {
                got == Err::<Pdu, Error>(Error::Rosctr(bytes[1]))
            } else if bytes.len() < start {
                got == Err::<Pdu, Error>(Error::NoErrorField)
            } else if bytes.len() < start + p {
                got == Err::<Pdu, Error>(Error::ParameterPastEnd)
            } else if bytes.len() < start + p + d {
                got == Err::<Pdu, Error>(Error::DataPastEnd)
            } else {
                got is Ok
            }
        }),
{
}

/// A PDU as it is read: ROSCTR, reference and error from their places, then
/// the parameter part, as long as bytes 6 and 7 say, right after the header,
/// and the data part, as long as bytes 8 and 9 say, right after that.
pub proof fn pdu_as_read(bytes: Seq<u8>)
    requires
        Pdu::decoded(bytes) is Ok,
    ensures
        ({
            let pdu = Pdu::decoded(bytes)->Ok_0;
            let start = header_length(bytes[1]);
            let p = bytes[6] * 256 + bytes[7];
            let d = bytes[8] * 256 + bytes[9];
            &&& bytes[1] == 1 ==> pdu.rosctr == Rosctr::Job
            &&& bytes[1] == 2 ==> pdu.rosctr == Rosctr::Ack
            &&& bytes[1] == 3 ==> pdu.rosctr == Rosctr::AckData
            &&& bytes[1] == 7 ==> pdu.rosctr == Rosctr::UserData
            &&& pdu.reference == bytes[4] * 256 + bytes[5]
            &&& start == 12 ==> pdu.error == bytes[10] * 256 + bytes[11]
            &&& start == 10 ==> pdu.error == 0
            &&& pdu.parameter.len() == p
            &&& pdu.data.len() == d
            &&& forall|i: int| 0 <= i < p ==> #[trigger] pdu.parameter[i] == bytes[start + i]
            &&& forall|j: int| 0 <= j < d ==> #[trigger] pdu.data[j] == bytes[start + p + j]
        }),
{
}

/// Setup Communication as it is written: eight bytes, function 0xF0, nothing,
/// and the three numbers; a proposal is one job at a time each way.
pub proof fn setup_as_written(setup: Setup, pdu_length: u16)
    ensures
        ({
            let bytes = setup.encoded();
            &&& bytes.len() == 8
            &&& bytes[0] == 0xF0 && bytes[1] == 0
            &&& bytes[2] * 256 + bytes[3] == setup.max_calling
            &&& bytes[4] * 256 + bytes[5] == setup.max_called
            &&& bytes[6] * 256 + bytes[7] == setup.pdu_length
        }),
        Setup::proposal(pdu_length).max_calling == 1,
        Setup::proposal(pdu_length).max_called == 1,
        Setup::proposal(pdu_length).pdu_length == pdu_length,
{
}

/// Setup Communication as it is read: any eight bytes or more that open with
/// 0xF0, the three numbers from their places.
pub proof fn setup_as_read(parameter: Seq<u8>)
    ensures
        parameter.len() < 8 || parameter[0] != 0xF0 ==> Setup::decoded(parameter) == Err::<
            Setup,
            Error,
        >(Error::NotSetup),
        parameter.len() >= 8 && parameter[0] == 0xF0 ==> {
            &&& Setup::decoded(parameter) matches Ok(setup)
            &&& setup.max_calling == parameter[2] * 256 + parameter[3]
            &&& setup.max_called == parameter[4] * 256 + parameter[5]
            &&& setup.pdu_length == parameter[6] * 256 + parameter[7]
        },
{
}

/// Inputs are 0x81, outputs 0x82, flags 0x83 and data blocks 0x84, and no
/// other code is an area.
pub proof fn area_codes(area: Area, code: u8)
    ensures
        area == Area::Input ==> area.wire_code() == 0x81,
        area == Area::Output ==> area.wire_code() == 0x82,
        area == Area::Flag ==> area.wire_code() == 0x83,
        area == Area::DataBlock ==> area.wire_code() == 0x84,
        code == 0x81 ==> Area::coded(code) == Ok::<Area, Error>(Area::Input),
        code == 0x82 ==> Area::coded(code) == Ok::<Area, Error>(Area::Output),
        code == 0x83 ==> Area::coded(code) == Ok::<Area, Error>(Area::Flag),
        code == 0x84 ==> Area::coded(code) == Ok::<Area, Error>(Area::DataBlock),
        code != 0x81 && code != 0x82 && code != 0x83 && code != 0x84 ==> Area::coded(code) == Err::<
            Area,
            Error,
        >(Error::Area(code)),
{
}

/// A part of an address is of the same area and data block, from where and for
/// as long as it is said to be.
pub proof fn a_part_is_of_the_same_area(address: Address, offset: u32, length: u16)
    ensures
        address.part(offset, length).area == address.area,
        address.part(offset, length).db == address.db,
        address.part(offset, length).offset == offset,
        address.part(offset, length).length == length,
{
}

/// A pointer as it is written: twelve bytes, 12 0A 10 02, the length, the data
/// block number, the area by its code, and the low 24 bits of where it starts
/// in bits.
pub proof fn pointer_as_written(address: Address)
    ensures
        ({
            let bytes = pointer(address);
            &&& bytes.len() == 12
            &&& bytes[0] == 0x12 && bytes[1] == 0x0A && bytes[2] == 0x10 && bytes[3] == 0x02
            &&& bytes[4] * 256 + bytes[5] == address.length
            &&& bytes[6] * 256 + bytes[7] == address.db
            &&& address.area == Area::Input ==> bytes[8] == 0x81
            &&& address.area == Area::Output ==> bytes[8] == 0x82
            &&& address.area == Area::Flag ==> bytes[8] == 0x83
            &&& address.area == Area::DataBlock ==> bytes[8] == 0x84
            &&& bytes[9] * 65536 + bytes[10] * 256 + bytes[11] == address.offset * 8 % 0x100_0000
        }),
{
    let bits = address.offset * 8;
    let bytes = pointer(address);
    assert(bytes[9] == bits / 65536 % 256 && bytes[10] == bits / 256 % 256 && bytes[11] == bits
        % 256);
    lemma_low_bits(bits);
}

proof fn lemma_low_bits(bits: int)
    requires
        0 <= bits,
    ensures
        bits / 65536 % 256 * 65536 + bits / 256 % 256 * 256 + bits % 256 == bits % 0x100_0000,
{
    let blocks = bits / 0x100_0000;
    let inner = bits % 0x100_0000;
    assert(bits == blocks * 0x100_0000 + inner);
    assert(bits / 65536 == blocks * 256 + inner / 65536);
    assert(bits / 65536 % 256 == inner / 65536);
    assert(bits / 256 == blocks * 65536 + inner / 256);
    assert(bits / 256 % 256 == inner / 256 % 256);
    assert(bits % 256 == inner % 256);
}

/// What bytes are refused as no pointer, in this order: fewer than twelve or
/// another opening, a pointer to bits, another transport size, another area.
/// Nothing else is refused.
pub proof fn bytes_refused_as_no_pointer(item: Seq<u8>)
    ensures
        ({
            let got = pointed(item);
            let size = item[3];
            let code = item[8];
            if item.len() < 12 || item[0] != 0x12 || item[1] != 0x0A || item[2] != 0x10 {
                got == Err::<Address, Error>(Error::NotAPointer)
            } else if size == 0x01 {
                got == Err::<Address, Error>(Error::BitAddress)
            } else if size != 0x02 && size != 0x03 && size != 0x04 && size != 0x06 && size
                != 0x09 {
                got == Err::<Address, Error>(Error::TransportSize(size))
            } else if code != 0x81 && code != 0x82 && code != 0x83 && code != 0x84 {
                got == Err::<Address, Error>(Error::Area(code))
            } else {
                got is Ok
            }
        }),
{
}

/// A pointer as it is read: the count times two for words and four for double
/// words, the data block number, the area by its code, and where it starts in
/// bytes. Only words over 32767 and double words over 16383 cannot be counted.
pub proof fn pointer_as_read(item: Seq<u8>)
    ensures
        pointed(item) is Ok && countable(item) ==> {
            let address = pointed(item)->Ok_0;
            let count = item[4] * 256 + item[5];
            &&& item[3] == 0x02 || item[3] == 0x03 || item[3] == 0x09 ==> address.length == count
            &&& item[3] == 0x04 ==> address.length == count * 2
            &&& item[3] == 0x06 ==> address.length == count * 4
            &&& address.db == item[6] * 256 + item[7]
            &&& item[8] == 0x81 ==> address.area == Area::Input
            &&& item[8] == 0x82 ==> address.area == Area::Output
            &&& item[8] == 0x83 ==> address.area == Area::Flag
            &&& item[8] == 0x84 ==> address.area == Area::DataBlock
            &&& address.offset == (item[9] * 65536 + item[10] * 256 + item[11]) / 8
        },
        countable(item) <==> !(item.len() >= 12 && item[0] == 0x12 && item[1] == 0x0A && item[2]
            == 0x10 && (item[3] == 0x04 && item[4] * 256 + item[5] > 32767 || item[3] == 0x06
            && item[4] * 256 + item[5] > 16383)),
{
    let count = word(item[4], item[5]) as nat;
    assert(count * 1 == count);
}

/// What a pointer leaves out of an address is all of where it starts but what
/// is left over of two megabytes.
pub proof fn what_a_pointer_keeps(address: Address)
    ensures
        as_pointed(address).area == address.area,
        as_pointed(address).db == address.db,
        as_pointed(address).length == address.length,
        as_pointed(address).offset == address.offset % 0x20_0000,
{
}

/// A data item as it is written: the return code; when that is 0xFF, transport
/// size 4, the length in bits, or 0xFFFF where that is more, the bytes, and a
/// zero where they are odd; when it is not, three zeros.
pub proof fn data_item_as_written(return_code: u8, bytes: Seq<u8>)
    ensures
        ({
            let item = data_item(return_code, bytes);
            let n = bytes.len();
            &&& item[0] == return_code
            &&& return_code != 0xFF ==> item.len() == 4 && item[1] == 0 && item[2] == 0 && item[3]
                == 0
            &&& return_code == 0xFF ==> {
                &&& item.len() == 4 + n + n % 2
                &&& item[1] == 4
                &&& item[2] * 256 + item[3] == if n * 8 <= 0xFFFF {
                    n * 8 as int
                } else {
                    0xFFFF
                }
                &&& forall|i: int| 0 <= i < n ==> #[trigger] bytes[i] == item[4 + i]
                &&& n % 2 == 1 ==> item[4 + n as int] == 0
            }
        }),
{
}

/// A data item as it is read: the return code, and where that is 0xFF the bytes
/// after the four of the header, an eighth of the length for transport sizes 4
/// and 5 and the length for others; what it took is even, unless the data ends
/// before the pad.
pub proof fn data_item_as_read(data: Seq<u8>)
    ensures
        ({
            let length = data[2] * 256 + data[3];
            let n = if data[1] == 4 || data[1] == 5 {
                length / 8
            } else {
                length
            };
            let got = carried(data);
            if data.len() < 4 {
                got == Err::<(u8, Seq<u8>, nat), Error>(Error::ShortDataHeader)
            } else if data[0] != 0xFF {
                got matches Ok((code, bytes, taken)) && code == data[0] && bytes.len() == 0 && taken
                    == 4
            } else if 4 + n > data.len() {
                got == Err::<(u8, Seq<u8>, nat), Error>(Error::ShortData)
            } else {
                &&& got matches Ok((code, bytes, taken))
                &&& code == 0xFF
                &&& bytes.len() == n
                &&& forall|i: int| 0 <= i < n ==> #[trigger] bytes[i] == data[4 + i]
                &&& taken == if n % 2 == 1 && 4 + n < data.len() {
                    4 + n + 1
                } else {
                    4 + n
                }
            }
        }),
{
}

/// 0xFF refuses nothing, 0x0A says the object does not exist, 0x05 that the
/// address is out of range, and any other return code is told as it is; each
/// refusal names the address.
pub proof fn return_codes(return_code: u8, address: Address)
    ensures
        return_code == 0xFF ==> refused(return_code, address) == None::<Error>,
        return_code == 0x0A ==> refused(return_code, address) == Some(
            Error::ObjectDoesNotExist(address),
        ),
        return_code == 0x05 ==> refused(return_code, address) == Some(Error::OutOfRange(address)),
        return_code != 0xFF && return_code != 0x0A && return_code != 0x05 ==> refused(
            return_code,
            address,
        ) == Some(Error::Refused(address, return_code)),
{
}

/// The job that sets up, byte for byte: one job at a time each way and 480
/// bytes of PDU.
pub proof fn setup_job_as_sent(reference: u16)
    ensures
        ({
            let bytes = setup_job(reference).encoded();
            &&& bytes.len() == 18
            &&& bytes.take(4) == seq![0x32u8, 1, 0, 0]
            &&& bytes[4] * 256 + bytes[5] == reference
            &&& bytes.skip(6) == seq![0u8, 8, 0, 0, 0xF0, 0, 0, 1, 0, 1, 0x01, 0xE0]
        }),
{
    let bytes = setup_job(reference).encoded();
    assert(bytes.take(4) =~= seq![0x32u8, 1, 0, 0]);
    assert(bytes.skip(6) =~= seq![0u8, 8, 0, 0, 0xF0, 0, 0, 1, 0, 1, 0x01, 0xE0]);
}

/// The job that reads a slice, byte for byte: function 4, one item, the
/// pointer to the slice, and no data.
pub proof fn read_job_as_sent(reference: u16, slice: Address)
    ensures
        ({
            let bytes = read_job(reference, slice).encoded();
            &&& bytes.len() == 24
            &&& bytes.take(4) == seq![0x32u8, 1, 0, 0]
            &&& bytes[4] * 256 + bytes[5] == reference
            &&& bytes.subrange(6, 12) == seq![0u8, 14, 0, 0, 0x04, 1]
            &&& bytes.skip(12) == pointer(slice)
        }),
{
    let bytes = read_job(reference, slice).encoded();
    assert(bytes.take(4) =~= seq![0x32u8, 1, 0, 0]);
    assert(bytes.subrange(6, 12) =~= seq![0u8, 14, 0, 0, 0x04, 1]);
    assert(bytes.skip(12) =~= pointer(slice));
}

/// The job that writes a slice, byte for byte: function 5, one item, the
/// pointer to the slice, and the bytes as a data item that is served.
pub proof fn write_job_as_sent(reference: u16, slice: Address, bytes: Seq<u8>)
    ensures
        ({
            let sent = write_job(reference, slice, bytes).encoded();
            let item = data_item(0xFF, bytes);
            &&& sent.len() == 24 + item.len()
            &&& sent.take(4) == seq![0x32u8, 1, 0, 0]
            &&& sent[4] * 256 + sent[5] == reference
            &&& sent[6] == 0 && sent[7] == 14
            &&& item.len() <= 0xFFFF ==> sent[8] * 256 + sent[9] == item.len()
            &&& sent[10] == 0x05 && sent[11] == 1
            &&& sent.subrange(12, 24) == pointer(slice)
            &&& sent.skip(24) == item
        }),
{
    let sent = write_job(reference, slice, bytes).encoded();
    assert(sent.take(4) =~= seq![0x32u8, 1, 0, 0]);
    assert(sent.subrange(12, 24) =~= pointer(slice));
    assert(sent.skip(24) =~= data_item(0xFF, bytes));
}

} // verus!
