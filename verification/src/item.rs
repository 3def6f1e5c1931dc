//! What a Read Var or Write Var names and carries: the address of an area in
//! the PLC, its any-pointer on the wire, and the data item that answers or
//! accompanies it with a return code.
//!
//! An address is written the way Siemens engineers write it: `DB12.DBB0.100`
//! is data block 12 from byte 0 for 100 bytes; `M0.10`, `I0.4` and `Q0.2` are
//! flags, inputs and outputs from byte 0 for 10, 4 and 2 bytes. The
//! any-pointer is twelve bytes: specification 0x12, length 10, syntax id 0x10
//! (S7ANY), transport size 0x02 (byte), the count, the DB number, the area,
//! and the start address in bits.

use vstd::prelude::*;
use vstd::slice::slice_subrange;
use vstd::string::*;

use crate::error::Error;
use crate::text::{decimal, parse_number};
use crate::wire::{cap, push_all, push_be, read_be};

verus! {

/// The return code that says the item was served.
pub const RETURN_OK: u8 = 0xFF;

/// The return code for a data block, or range, the PLC does not have.
pub const OBJECT_DOES_NOT_EXIST: u8 = 0x0A;

/// The return code for an address past the end of an area.
pub const OUT_OF_RANGE: u8 = 0x05;

/// A memory area of the PLC and its code in the any-pointer.
#[derive(Clone, Copy, Debug, PartialEq, Eq, Hash, Structural)]
pub enum Area {
    /// `DB`: a data block, 0x84.
    DataBlock,
    /// `I` or `E`: process inputs, 0x81.
    Input,
    /// `Q` or `A`: process outputs, 0x82.
    Output,
    /// `M`: flags, or merkers, 0x83.
    Flag,
}

impl Area {
    /// The code that stands for the area on the wire.
    pub open spec fn wire_code(self) -> u8 {
        match self {
            Area::DataBlock => 0x84,
            Area::Input => 0x81,
            Area::Output => 0x82,
            Area::Flag => 0x83,
        }
    }

    /// The area that a code stands for.
    pub open spec fn coded(code: u8) -> Result<Area, Error> {
        if code == 0x84 {
            Ok(Area::DataBlock)
        } else if code == 0x81 {
            Ok(Area::Input)
        } else if code == 0x82 {
            Ok(Area::Output)
        } else if code == 0x83 {
            Ok(Area::Flag)
        } else {
            Err(Error::Area(code))
        }
    }

    /// The area code on the wire.
    pub fn code(self) -> (r: u8)
        ensures
            r == self.wire_code(),
    {
        match self {
            Area::DataBlock => 0x84,
            Area::Input => 0x81,
            Area::Output => 0x82,
            Area::Flag => 0x83,
        }
    }

    /// From the code on the wire; an area this transport does not address is
    /// an error.
    pub fn from_code(code: u8) -> (r: Result<Area, Error>)
        ensures
            r == Area::coded(code),
    {
        match code {
            0x84 => Ok(Area::DataBlock),
            0x81 => Ok(Area::Input),
            0x82 => Ok(Area::Output),
            0x83 => Ok(Area::Flag),
            other => Err(Error::Area(other)),
        }
    }
}

/// The area that a letter stands for.
pub open spec fn lettered(letter: char) -> Option<Area> {
    if letter == 'M' {
        Some(Area::Flag)
    } else if letter == 'I' || letter == 'E' {
        Some(Area::Input)
    } else if letter == 'Q' || letter == 'A' {
        Some(Area::Output)
    } else {
        None
    }
}

/// How many bytes the parts of an address from index `at` on ask for: one
/// where nothing follows, what the one part there says, at least one.
pub open spec fn named_length(parts: Seq<Seq<char>>, at: int) -> Option<u16> {
    if parts.len() == at {
        Some(1)
    } else if parts.len() == at + 1 {
        match crate::text::number(parts[at], u16::MAX as nat) {
            Some(n) => if n > 0 {
                Some(n as u16)
            } else {
                None
            },
            None => None,
        }
    } else {
        None
    }
}

/// A byte range of one area: `DB12.DBB0.100`.
#[derive(Clone, Copy, Debug, PartialEq, Eq, Hash, Structural)]
pub struct Address {
    pub area: Area,
    /// The data block number; zero for the other areas.
    pub db: u16,
    /// The first byte.
    pub offset: u32,
    /// How many bytes.
    pub length: u16,
}

impl Address {
    /// The address as it is written.
    pub open spec fn text(self) -> Seq<char> {
        let range = crate::text::decimal_text(self.offset as nat) + "."@
            + crate::text::decimal_text(self.length as nat);
        match self.area {
            Area::DataBlock => "DB"@ + crate::text::decimal_text(self.db as nat) + ".DBB"@ + range,
            Area::Input => "I"@ + range,
            Area::Output => "Q"@ + range,
            Area::Flag => "M"@ + range,
        }
    }

    /// The address that a text names, if it names one: in either case, a data
    /// block and its first byte, or the letter of another area and the first
    /// byte there; then how many bytes, which is one where that part is left
    /// out and never none.
    pub open spec fn named(text: Seq<char>) -> Option<Address> {
        let parts = crate::text::parts(text);
        let head = crate::text::upper_text(parts[0]);
        if "DB"@.is_prefix_of(head) {
            let byte = crate::text::upper_text(parts[1]);
            if parts.len() >= 2 && "DBB"@.is_prefix_of(byte) {
                let db = crate::text::number(head.skip(2), u16::MAX as nat);
                let offset = crate::text::number(byte.skip(3), u32::MAX as nat);
                match (db, offset, named_length(parts, 2)) {
                    (Some(db), Some(offset), Some(length)) => Some(
                        Address {
                            area: Area::DataBlock,
                            db: db as u16,
                            offset: offset as u32,
                            length,
                        },
                    ),
                    _ => None,
                }
            } else {
                None
            }
        } else if head.len() > 0 {
            let offset = crate::text::number(head.skip(1), u32::MAX as nat);
            match (lettered(head[0]), offset, named_length(parts, 1)) {
                (Some(area), Some(offset), Some(length)) => Some(
                    Address { area, db: 0, offset: offset as u32, length },
                ),
                _ => None,
            }
        } else {
            None
        }
    }

    /// The same area from `offset` for `length` bytes.
    pub open spec fn part(self, offset: u32, length: u16) -> Address {
        Address { area: self.area, db: self.db, offset, length }
    }

    /// The same area from `offset` for `length` bytes: a chunk of this one.
    pub fn slice(self, offset: u32, length: u16) -> (r: Address)
        ensures
            r == self.part(offset, length),
    {
        Address { area: self.area, db: self.db, offset, length }
    }

    /// The address as it is written, its length always included.
    pub fn to_string(&self) -> (r: String)
        ensures
            r@ == self.text(),
    {
        let range = decimal(self.offset).concat(".").concat(
            decimal(self.length as u32).as_str(),
        );
        match self.area {
            Area::DataBlock => {
                let out = "DB".to_owned().concat(decimal(self.db as u32).as_str()).concat(
                    ".DBB",
                ).concat(range.as_str());
                out
            },
            Area::Input => "I".to_owned().concat(range.as_str()),
            Area::Output => "Q".to_owned().concat(range.as_str()),
            Area::Flag => "M".to_owned().concat(range.as_str()),
        }
    }
}

/// How many bytes the parts of an address from index `at` on ask for.
fn length_of(parts: &Vec<Vec<char>>, at: usize) -> (r: Option<u16>)
    requires
        at <= parts@.len(),
    ensures
        r == named_length(crate::text::views(parts@), at as int),
{
    if parts.len() == at {
        return Some(1);
    }
    if parts.len() - at > 1 {
        return None;
    }
    assert(parts@[at as int]@.skip(0) =~= parts@[at as int]@);
    match parse_number(&parts[at], 0, 0xFFFF) {
        Some(n) => if n > 0 {
            Some(n as u16)
        } else {
            None
        },
        None => None,
    }
}

/// Whether `chars` opens with `prefix`.
fn opens_with(chars: &Vec<char>, prefix: &str) -> (r: bool)
    ensures
        r == prefix@.is_prefix_of(chars@),
{
    let mut i: usize = 0;
    for c in it: prefix.chars()
        invariant
            it.seq() == prefix@,
            i == it.index(),
            i <= chars@.len(),
            forall|j: int| 0 <= j < i ==> prefix@[j] == chars@[j],
    {
        if i >= chars.len() || chars[i] != c {
            return false;
        }
        i += 1;
    }
    assert(prefix@ =~= chars@.take(prefix@.len() as int));
    true
}

/// The address that the parts of a text name.
fn read_parts(parts: &Vec<Vec<char>>, Ghost(text): Ghost<Seq<char>>) -> (r: Option<Address>)
    requires
        crate::text::views(parts@) == crate::text::parts(text),
        parts@.len() > 0,
    ensures
        r == Address::named(text),
{
    proof {
        reveal_strlit("DB");
        reveal_strlit("DBB");
    }
    let ghost all = crate::text::parts(text);
    assert(all[0] == parts@[0]@);
    let head = crate::text::to_upper(&parts[0]);
    if opens_with(&head, "DB") {
        if parts.len() < 2 {
            return None;
        }
        assert(all[1] == parts@[1]@);
        let byte = crate::text::to_upper(&parts[1]);
        if !opens_with(&byte, "DBB") {
            return None;
        }
        let db = parse_number(&head, 2, 0xFFFF);
        let offset = parse_number(&byte, 3, u32::MAX);
        match (db, offset, length_of(parts, 2)) {
            (Some(db), Some(offset), Some(length)) => Some(
                Address { area: Area::DataBlock, db: db as u16, offset, length },
            ),
            _ => None,
        }
    } else {
        if head.len() == 0 {
            return None;
        }
        let letter: char = head[0];
        let area = if letter == 'M' {
            Area::Flag
        } else if letter == 'I' || letter == 'E' {
            Area::Input
        } else if letter == 'Q' || letter == 'A' {
            Area::Output
        } else {
            return None;
        };
        match (parse_number(&head, 1, u32::MAX), length_of(parts, 1)) {
            (Some(offset), Some(length)) => Some(Address { area, db: 0, offset, length }),
            _ => None,
        }
    }
}

impl std::str::FromStr for Address {
    type Err = Error;

    fn from_str(text: &str) -> (r: Result<Address, Error>)
        ensures
            match Address::named(text@) {
                Some(address) => r == Ok::<Address, Error>(address),
                None => r matches Err(Error::NotAnAddress(refused)) && refused@ == text@,
            },
    {
        match read_parts(&crate::text::split(text), Ghost(text@)) {
            Some(address) => Ok(address),
            None => Err(Error::NotAnAddress(text.to_owned())),
        }
    }
}

/// An address as the twelve-byte any-pointer. The start address has 24 bits:
/// of one that takes more, the low ones.
pub open spec fn pointer(address: Address) -> Seq<u8> {
    let bits = address.offset * 8;
    seq![0x12u8, 0x0A, 0x10, 0x02] + crate::wire::be(address.length) + crate::wire::be(address.db)
        + seq![
        address.area.wire_code(),
        (bits / 65536 % 256) as u8,
        (bits / 256 % 256) as u8,
        (bits % 256) as u8,
    ]
}

/// The address that the pointer to `address` names: the same range, but where
/// it starts past what 24 bits of bit address say, only what the low ones say.
pub open spec fn as_pointed(address: Address) -> Address {
    address.part((address.offset % 0x20_0000) as u32, address.length)
}

/// Whether bytes open as an S7ANY pointer and are as long as one.
pub open spec fn is_pointer(item: Seq<u8>) -> bool {
    item.len() >= 12 && item[0] == 0x12 && item[1] == 0x0A && item[2] == 0x10
}

/// How many bytes one element of a transport size takes; zero for a size
/// that is not addressed.
pub open spec fn element_bytes(transport_size: u8) -> nat {
    if transport_size == 0x02 || transport_size == 0x03 || transport_size == 0x09 {
        1
    } else if transport_size == 0x04 {
        2
    } else if transport_size == 0x06 {
        4
    } else {
        0
    }
}

/// How many bytes a pointer spans.
pub open spec fn spanned(item: Seq<u8>) -> nat {
    crate::wire::word(item[4], item[5]) as nat * element_bytes(item[3])
}

/// Whether the bytes a pointer spans can be counted in an address; what is no
/// pointer spans nothing.
pub open spec fn countable(item: Seq<u8>) -> bool {
    is_pointer(item) ==> spanned(item) <= u16::MAX
}

/// The address a pointer names.
pub open spec fn pointed(item: Seq<u8>) -> Result<Address, Error> {
    if !is_pointer(item) {
        Err(Error::NotAPointer)
    } else if item[3] == 0x01 {
        Err(Error::BitAddress)
    } else if element_bytes(item[3]) == 0 {
        Err(Error::TransportSize(item[3]))
    } else {
        match Area::coded(item[8]) {
            Ok(area) => Ok(
                Address {
                    area,
                    db: crate::wire::word(item[6], item[7]),
                    offset: ((item[9] * 65536 + item[10] * 256 + item[11]) / 8) as u32,
                    length: spanned(item) as u16,
                },
            ),
            Err(e) => Err(e),
        }
    }
}

/// `address` as the twelve-byte any-pointer.
pub fn encode_item(address: &Address) -> (r: [u8; 12])
    requires
        address.offset * 8 <= u32::MAX,
    ensures
        r@ == pointer(*address),
{
    let bits: u32 = address.offset * 8;
    let r = [
        0x12,
        0x0A,
        0x10,
        0x02,
        (address.length / 256) as u8,
        (address.length % 256) as u8,
        (address.db / 256) as u8,
        (address.db % 256) as u8,
        address.area.code(),
        (bits / 65536 % 256) as u8,
        (bits / 256 % 256) as u8,
        (bits % 256) as u8,
    ];
    assert(r@ =~= pointer(*address));
    r
}

/// Whether the bytes that `item` spans can be counted in an address.
pub fn is_countable(item: &[u8]) -> (r: bool)
    ensures
        r == countable(item@),
{
    if item.len() < 12 || item[0] != 0x12 || item[1] != 0x0A || item[2] != 0x10 {
        return true;
    }
    let count: u16 = read_be(item[4], item[5]);
    match item[3] {
        0x04 => count <= 0x7FFF,
        0x06 => count <= 0x3FFF,
        _ => true,
    }
}

/// The address an any-pointer names; what is not an S7ANY pointer to bytes of
/// an area this transport addresses is an error.
pub fn decode_item(item: &[u8]) -> (r: Result<Address, Error>)
    requires
        countable(item@),
    ensures
        r == pointed(item@),
{
    if item.len() < 12 || item[0] != 0x12 || item[1] != 0x0A || item[2] != 0x10 {
        return Err(Error::NotAPointer);
    }
    let count: u16 = read_be(item[4], item[5]);
    let length: u16 = match item[3] {
        0x02 | 0x03 | 0x09 => count,
        0x04 => count * 2,
        0x06 => count * 4,
        0x01 => {
            return Err(Error::BitAddress);
        },
        other => {
            return Err(Error::TransportSize(other));
        },
    };
    let bits: u32 = item[9] as u32 * 65536 + item[10] as u32 * 256 + item[11] as u32;
    match Area::from_code(item[8]) {
        Ok(area) => Ok(Address { area, db: read_be(item[6], item[7]), offset: bits / 8, length }),
        Err(e) => Err(e),
    }
}

/// One data item: return code, transport size 0x04 (length in bits), length,
/// the bytes, and a pad byte where the next item would otherwise start on an
/// odd byte; or a return code that refuses, and nothing.
pub open spec fn data_item(return_code: u8, bytes: Seq<u8>) -> Seq<u8> {
    if return_code != RETURN_OK {
        seq![return_code, 0, 0, 0]
    } else {
        seq![return_code, 0x04] + crate::wire::be(crate::wire::capped(bytes.len() * 8)) + bytes
            + pad(bytes.len())
    }
}

/// The pad after `length` bytes.
pub open spec fn pad(length: nat) -> Seq<u8> {
    if length % 2 == 0 {
        Seq::empty()
    } else {
        seq![0u8]
    }
}

/// How many bytes the header of a data item says follow it: its length counts
/// bits under transport sizes 0x04 and 0x05, bytes under the others.
pub open spec fn announced(data: Seq<u8>) -> nat {
    let length = crate::wire::word(data[2], data[3]) as nat;
    if data[1] == 0x04 || data[1] == 0x05 {
        length / 8
    } else {
        length
    }
}

/// The return code and bytes of one data item, and how many bytes it took.
pub open spec fn carried(data: Seq<u8>) -> Result<(u8, Seq<u8>, nat), Error> {
    if data.len() < 4 {
        Err(Error::ShortDataHeader)
    } else if data[0] != RETURN_OK {
        Ok((data[0], Seq::empty(), 4))
    } else {
        let end = 4 + announced(data);
        if end > data.len() {
            Err(Error::ShortData)
        } else {
            let padded = end + announced(data) % 2;
            Ok(
                (
                    RETURN_OK,
                    data.subrange(4, end as int),
                    if padded <= data.len() {
                        padded
                    } else {
                        data.len()
                    },
                ),
            )
        }
    }
}

/// One data item as a Read Var answer or a Write Var request carries it.
pub fn encode_data(return_code: u8, bytes: &[u8]) -> (r: Vec<u8>)
    requires
        return_code == RETURN_OK ==> bytes@.len() * 8 <= usize::MAX,
    ensures
        r@ == data_item(return_code, bytes@),
{
    if return_code != RETURN_OK {
        return vec![return_code, 0, 0, 0];
    }
    let bits: u16 = cap(bytes.len() * 8);
    let mut out: Vec<u8> = Vec::with_capacity(4 + bytes.len() + 1);
    out.push(return_code);
    out.push(0x04);
    push_be(&mut out, bits);
    push_all(&mut out, bytes);
    if bytes.len() % 2 != 0 {
        out.push(0);
    }
    assert(out@ =~= data_item(return_code, bytes@));
    out
}

/// The return code and bytes of one data item, and how many bytes of `data`
/// it took, pad included; a data item shorter than its header or its length
/// is an error.
pub fn decode_data(data: &[u8]) -> (r: Result<(u8, &[u8], usize), Error>)
    ensures
        match (carried(data@), r) {
            (Ok((code, bytes, taken)), Ok(got)) => got.0 == code && got.1@ == bytes && got.2
                == taken,
            (Err(expected), Err(e)) => e == expected,
            _ => false,
        },
{
    if data.len() < 4 {
        return Err(Error::ShortDataHeader);
    }
    let return_code: u8 = data[0];
    if return_code != RETURN_OK {
        let none = slice_subrange(data, 0, 0);
        assert(none@ =~= Seq::empty());
        return Ok((return_code, none, 4));
    }
    let length: usize = read_be(data[2], data[3]) as usize;
    let bytes: usize = match data[1] {
        0x04 | 0x05 => length / 8,
        _ => length,
    };
    if 4 + bytes > data.len() {
        return Err(Error::ShortData);
    }
    let payload = slice_subrange(data, 4, 4 + bytes);
    let padded: usize = 4 + bytes + bytes % 2;
    let taken: usize = if padded <= data.len() {
        padded
    } else {
        data.len()
    };
    Ok((return_code, payload, taken))
}

/// The error a return code stands for, or none for success.
pub open spec fn refused(return_code: u8, address: Address) -> Option<Error> {
    if return_code == RETURN_OK {
        None
    } else if return_code == OBJECT_DOES_NOT_EXIST {
        Some(Error::ObjectDoesNotExist(address))
    } else if return_code == OUT_OF_RANGE {
        Some(Error::OutOfRange(address))
    } else {
        Some(Error::Refused(address, return_code))
    }
}

/// The error a return code stands for, or `None` for success.
pub fn refusal(return_code: u8, address: &Address) -> (r: Option<Error>)
    ensures
        r == refused(return_code, *address),
{
    match return_code {
        RETURN_OK => None,
        OBJECT_DOES_NOT_EXIST => Some(Error::ObjectDoesNotExist(*address)),
        OUT_OF_RANGE => Some(Error::OutOfRange(*address)),
        other => Some(Error::Refused(*address, other)),
    }
}

} // verus!
