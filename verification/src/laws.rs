//! What holds of the formats for every value: what is written is read back,
//! slices cover an address, and jobs and answers keep to the PDU length.

use vstd::prelude::*;

use crate::client::{
    bytes_per_read, bytes_per_write, lemma_slice_within, read_job, slices_of, write_job,
};
use crate::header::{Pdu, Rosctr, Setup, READ};
use crate::item::{
    announced, as_pointed, carried, countable, data_item, named_length, pointed, pointer, refused, spanned, Address,
    Area, RETURN_OK,
};
use crate::resolved;
use crate::text::{
    all_decimal, decimal_text, decimal_value, is_decimal, number, parts, unsigned, upper, upper_text,
};

verus! {

/// A PDU that its header can carry is read back from its bytes as it was,
/// whatever follows them.
pub proof fn message_round_trip(pdu: Pdu, rest: Seq<u8>)
    requires
        pdu.fits(),
    ensures
        Pdu::decoded(pdu.encoded() + rest) == Ok::<Pdu, crate::error::Error>(pdu),
{
    let bytes = pdu.encoded() + rest;
    let start = pdu.header().len() as int;
    let middle = start + pdu.parameter.len();
    assert(forall|i: int| 0 <= i < start ==> bytes[i] == pdu.header()[i]);
    assert(bytes.subrange(start, middle) =~= pdu.parameter);
    assert(bytes.subrange(middle, middle + pdu.data.len()) =~= pdu.data);
}

/// A PDU that was read is one a header can carry, and written again it is the
/// bytes it was read from, with nothing in the reserved bytes.
pub proof fn message_read_is_message_written(bytes: Seq<u8>)
    requires
        Pdu::decoded(bytes) is Ok,
    ensures
        ({
            let pdu = Pdu::decoded(bytes)->Ok_0;
            &&& pdu.fits()
            &&& pdu.encoded().is_prefix_of(bytes.update(2, 0).update(3, 0))
        }),
{
    let pdu = Pdu::decoded(bytes)->Ok_0;
    let cleared = bytes.update(2, 0).update(3, 0);
    assert(pdu.encoded() =~= cleared.take(pdu.encoded().len() as int));
}

/// Every ROSCTR has a code of its own.
pub proof fn rosctr_round_trip(rosctr: Rosctr, code: u8)
    ensures
        Rosctr::coded(rosctr.wire_code()) == Ok::<Rosctr, crate::error::Error>(rosctr),
        Rosctr::coded(code) matches Ok(meant) ==> meant.wire_code() == code,
{
}

/// The Setup Communication parameter is read back as it was.
pub proof fn setup_round_trip(setup: Setup)
    ensures
        Setup::decoded(setup.encoded()) == Ok::<Setup, crate::error::Error>(setup),
{
}

/// The Setup Communication parameter is read back as it was, whatever follows
/// it.
pub proof fn setup_round_trip_before_more(setup: Setup, rest: Seq<u8>)
    ensures
        Setup::decoded(setup.encoded() + rest) == Ok::<Setup, crate::error::Error>(setup),
{
}

/// Every area has a code of its own.
pub proof fn area_round_trip(area: Area, code: u8)
    ensures
        Area::coded(area.wire_code()) == Ok::<Area, crate::error::Error>(area),
        Area::coded(code) matches Ok(meant) ==> meant.wire_code() == code,
{
}

/// The three bytes of a start address, put together again.
proof fn lemma_start_address(offset: int)
    requires
        0 <= offset,
    ensures
        ({
            let bits = offset * 8;
            (bits / 65536 % 256 * 65536 + bits / 256 % 256 * 256 + bits % 256) / 8 == offset
                % 0x20_0000
        }),
{
    let bits = offset * 8;
    let blocks = offset / 0x20_0000;
    let inner = offset % 0x20_0000;
    assert(bits == blocks * 0x100_0000 + inner * 8);
    assert(bits / 65536 == blocks * 256 + inner * 8 / 65536);
    assert(bits / 65536 % 256 == inner * 8 / 65536);
    assert(bits / 256 == blocks * 65536 + inner * 8 / 256);
    assert(bits / 256 % 256 == inner * 8 / 256 % 256);
    assert(bits % 256 == inner * 8 % 256);
}

/// A pointer names the address it is to, but for the high bits of where that
/// starts, whatever follows it, and spans what can be counted.
pub proof fn pointer_keeps_the_low_bits(address: Address, rest: Seq<u8>)
    ensures
        countable(pointer(address) + rest),
        pointed(pointer(address) + rest) == Ok::<Address, crate::error::Error>(
            as_pointed(address),
        ),
{
    let item = pointer(address) + rest;
    let bits = address.offset * 8;
    assert(item[9] == bits / 65536 % 256 && item[10] == bits / 256 % 256 && item[11] == bits % 256);
    lemma_start_address(address.offset as int);
    assert(spanned(item) == address.length * 1);
}

/// An address that starts where 24 bits can say so is read back from its
/// pointer as it was, whatever follows that.
pub proof fn item_round_trip(address: Address, rest: Seq<u8>)
    requires
        address.offset * 8 < 0x100_0000,
    ensures
        countable(pointer(address) + rest),
        pointed(pointer(address) + rest) == Ok::<Address, crate::error::Error>(address),
{
    pointer_keeps_the_low_bits(address, rest);
}

/// Bytes that sixteen bits can count in bits are read back from their data
/// item as they were, whatever follows it, and its pad is taken with it.
pub proof fn data_round_trip(bytes: Seq<u8>, rest: Seq<u8>)
    requires
        bytes.len() * 8 <= u16::MAX,
    ensures
        carried(data_item(RETURN_OK, bytes) + rest) == Ok::<(u8, Seq<u8>, nat), crate::error::Error>(
            (RETURN_OK, bytes, data_item(RETURN_OK, bytes).len()),
        ),
{
    let data = data_item(RETURN_OK, bytes) + rest;
    assert(announced(data) == bytes.len());
    assert(data.subrange(4, 4 + bytes.len() as int) =~= bytes);
}

/// A return code that refuses is read back, and brings no bytes.
pub proof fn refusal_round_trip(return_code: u8, bytes: Seq<u8>, rest: Seq<u8>)
    requires
        return_code != RETURN_OK,
    ensures
        carried(data_item(return_code, bytes) + rest) == Ok::<
            (u8, Seq<u8>, nat),
            crate::error::Error,
        >((return_code, Seq::empty(), 4)),
{
}

/// A data item ends on an even byte.
pub proof fn data_item_is_even(return_code: u8, bytes: Seq<u8>)
    ensures
        data_item(return_code, bytes).len() % 2 == 0,
{
}

/// Every return code but the one for success is a refusal, and only it is not.
pub proof fn only_success_is_no_refusal(return_code: u8, address: Address)
    ensures
        refused(return_code, address) is None <==> return_code == RETURN_OK,
{
}

/// The slices of an address are of its area and data block, each as long as a
/// job takes but for the last, which may be shorter; none is empty. They
/// follow one another without a gap from where it starts to where it ends.
pub proof fn slices_cover_the_address(address: Address, per_job: u16)
    requires
        address.length == 0 || per_job > 0,
        address.offset + address.length <= u32::MAX,
    ensures
        ({
            let slices = slices_of(address, per_job);
            let n = slices.len() as int;
            &&& n == 0 <==> address.length == 0
            &&& forall|i: int|
                0 <= i < n ==> {
                    let slice = #[trigger] slices[i];
                    &&& slice.area == address.area && slice.db == address.db
                    &&& 0 < slice.length <= per_job
                    &&& i < n - 1 ==> slice.length == per_job
                }
            &&& n > 0 ==> slices[0].offset == address.offset
            &&& forall|i: int, j: int|
                0 <= i && j == i + 1 && j < n ==> #[trigger] slices[j].offset == #[trigger] slices[i].offset
                    + slices[i].length
            &&& n > 0 ==> slices[n - 1].offset + slices[n - 1].length == address.offset
                + address.length
        }),
{
    let slices = slices_of(address, per_job);
    let n = slices.len() as int;
    if address.length > 0 {
        let x = address.length + per_job - 1;
        assert(x / (per_job as int) >= 1) by {
            vstd::arithmetic::div_mod::lemma_div_is_ordered(per_job as int, x, per_job as int);
            vstd::arithmetic::div_mod::lemma_div_by_self(per_job as int);
        }
    }
    assert forall|i: int| 0 <= i < n implies ({
        let slice = #[trigger] slices[i];
        &&& slice.area == address.area && slice.db == address.db
        &&& 0 < slice.length <= per_job
        &&& i < n - 1 ==> slice.length == per_job
    }) by {
        lemma_slice_within(address, per_job, i);
    }
    assert forall|i: int, j: int|
        0 <= i && j == i + 1 && j < n implies #[trigger] slices[j].offset == #[trigger] slices[i].offset
        + slices[i].length by {
        lemma_slice_within(address, per_job, i);
        lemma_slice_within(address, per_job, j);
        assert((i + 1) * per_job == i * per_job + per_job) by (nonlinear_arith);
    }
    if n > 0 {
        lemma_slice_within(address, per_job, 0);
        assert(0 * per_job == 0);
        lemma_slice_within(address, per_job, n - 1);
    }
}

/// A job that reads fits in the PDU. So does the answer that serves it, but
/// for the pad byte after the most one job takes under an odd PDU length.
pub proof fn reads_fit_the_pdu(pdu_length: u16, reference: u16, slice: Address, bytes: Seq<u8>)
    requires
        32 <= pdu_length,
        slice.length <= bytes_per_read(pdu_length),
        bytes.len() == slice.length,
    ensures
        read_job(reference, slice).encoded().len() <= pdu_length,
        ({
            let answer = Pdu::ack_data(reference, seq![READ, 1], data_item(RETURN_OK, bytes));
            &&& answer.encoded().len() <= pdu_length + pdu_length % 2
            &&& slice.length < bytes_per_read(pdu_length) ==> answer.encoded().len() <= pdu_length
        }),
{
}

/// A job that writes fits in the PDU, but for the pad byte after the most one
/// job takes under an odd PDU length.
pub proof fn writes_fit_the_pdu(pdu_length: u16, reference: u16, slice: Address, bytes: Seq<u8>)
    requires
        32 <= pdu_length,
        slice.length <= bytes_per_write(pdu_length),
        bytes.len() == slice.length,
    ensures
        write_job(reference, slice, bytes).encoded().len() <= pdu_length + pdu_length % 2,
        slice.length < bytes_per_write(pdu_length) ==> write_job(
            reference,
            slice,
            bytes,
        ).encoded().len() <= pdu_length,
{
}

/// There is always a part.
pub(crate) proof fn lemma_parts_not_empty(s: Seq<char>)
    ensures
        parts(s).len() > 0,
    decreases s.len(),
{
    if s.len() > 0 {
        lemma_parts_not_empty(s.drop_last());
    }
}

/// A text without a full stop is one part.
pub(crate) proof fn lemma_one_part(s: Seq<char>)
    requires
        forall|i: int| 0 <= i < s.len() ==> s[i] != '.',
    ensures
        parts(s) == seq![s],
    decreases s.len(),
{
    if s.len() == 0 {
        assert(s =~= Seq::empty());
    } else {
        lemma_one_part(s.drop_last());
        assert(s.drop_last().push(s.last()) =~= s);
        assert(parts(s) =~= seq![s]);
    }
}

/// A full stop parts what is before it from what is after.
pub(crate) proof fn lemma_parts_split(s: Seq<char>, t: Seq<char>)
    ensures
        parts(s.push('.') + t) == parts(s) + parts(t),
    decreases t.len(),
{
    let whole = s.push('.') + t;
    if t.len() == 0 {
        assert(whole =~= s.push('.'));
        assert(whole.drop_last() =~= s);
        assert(parts(whole) =~= parts(s) + parts(t));
    } else {
        lemma_parts_split(s, t.drop_last());
        lemma_parts_not_empty(t.drop_last());
        assert(whole.drop_last() =~= s.push('.') + t.drop_last());
        assert(parts(whole) =~= parts(s) + parts(t));
    }
}

/// A number written in decimal is digits, and worth itself.
pub(crate) proof fn lemma_decimal(n: nat)
    ensures
        all_decimal(decimal_text(n)),
        decimal_value(decimal_text(n)) == n,
    decreases n,
{
    let s = decimal_text(n);
    if n < 10 {
        assert(s.drop_last() =~= Seq::empty());
        assert(decimal_value(s.drop_last()) == 0);
    } else {
        lemma_decimal(n / 10);
        assert(s.drop_last() =~= decimal_text(n / 10));
    }
}

/// A number written in decimal is read back, also after letters, and upper
/// case leaves it alone.
proof fn lemma_decimal_read(before: Seq<char>, n: nat, max: nat)
    requires
        n <= max,
    ensures
        number((before + decimal_text(n)).skip(before.len() as int), max) == Some(n),
        upper_text(decimal_text(n)) == decimal_text(n),
        forall|i: int| 0 <= i < decimal_text(n).len() ==> decimal_text(n)[i] != '.',
{
    let s = decimal_text(n);
    lemma_decimal(n);
    assert((before + s).skip(before.len() as int) =~= s);
    assert(is_decimal(s[0]));
    assert(unsigned(s) == s);
    assert forall|i: int| 0 <= i < s.len() implies upper(s[i]) == s[i] && s[i] != '.' by {
        assert(is_decimal(s[i]));
    }
    assert(upper_text(s) =~= s);
}

/// Letters in upper case before a number stay as they are, and so does it.
proof fn lemma_upper_head(letters: Seq<char>, n: nat)
    requires
        forall|i: int| 0 <= i < letters.len() ==> upper(letters[i]) == letters[i],
        forall|i: int| 0 <= i < letters.len() ==> letters[i] != '.',
    ensures
        upper_text(letters + decimal_text(n)) == letters + decimal_text(n),
        parts(letters + decimal_text(n)) == seq![letters + decimal_text(n)],
{
    let s = decimal_text(n);
    lemma_decimal_read(letters, n, n);
    assert forall|i: int| 0 <= i < s.len() implies upper(s[i]) == s[i] by {
        assert(upper_text(s)[i] == s[i]);
    }
    assert(upper_text(letters + s) =~= letters + s);
    lemma_one_part(letters + s);
}

/// The last part of a written address is its length.
proof fn lemma_last_part(length: u16)
    requires
        length > 0,
    ensures
        number(decimal_text(length as nat), u16::MAX as nat) == Some(length as nat),
        parts(decimal_text(length as nat)) == seq![decimal_text(length as nat)],
{
    let s = decimal_text(length as nat);
    lemma_decimal_read(Seq::empty(), length as nat, u16::MAX as nat);
    assert((Seq::<char>::empty() + s).skip(0) =~= s);
    lemma_one_part(s);
}

proof fn lemma_data_block_read(address: Address)
    requires
        address.length > 0,
        address.area is DataBlock,
    ensures
        Address::named(address.text()) == Some(address),
{
    reveal_strlit("DB");
    reveal_strlit("DBB");
    reveal_strlit(".DBB");
    reveal_strlit(".");
    let head = "DB"@ + decimal_text(address.db as nat);
    let byte = "DBB"@ + decimal_text(address.offset as nat);
    let length = decimal_text(address.length as nat);
    lemma_last_part(address.length);
    lemma_upper_head("DB"@, address.db as nat);
    lemma_upper_head("DBB"@, address.offset as nat);
    lemma_decimal_read("DB"@, address.db as nat, u16::MAX as nat);
    lemma_decimal_read("DBB"@, address.offset as nat, u32::MAX as nat);
    assert(address.text() =~= head.push('.') + (byte.push('.') + length));
    lemma_parts_split(byte, length);
    lemma_parts_split(head, byte.push('.') + length);
    let all = parts(address.text());
    assert(all =~= seq![head, byte, length]);
    assert("DB"@ =~= head.take(2));
    assert("DBB"@ =~= byte.take(3));
    assert(named_length(all, 2) == Some(address.length));
}

proof fn lemma_letter_read(letter: char, address: Address)
    requires
        address.length > 0,
        address.db == 0,
        letter == 'I' && address.area is Input || letter == 'Q' && address.area is Output || letter
            == 'M' && address.area is Flag,
    ensures
        Address::named(
            seq![letter] + decimal_text(address.offset as nat) + "."@ + decimal_text(
                address.length as nat,
            ),
        ) == Some(address),
{
    reveal_strlit("DB");
    reveal_strlit(".");
    let head = seq![letter] + decimal_text(address.offset as nat);
    let length = decimal_text(address.length as nat);
    let text = seq![letter] + decimal_text(address.offset as nat) + "."@ + length;
    lemma_last_part(address.length);
    lemma_upper_head(seq![letter], address.offset as nat);
    lemma_decimal_read(seq![letter], address.offset as nat, u32::MAX as nat);
    assert(text =~= head.push('.') + length);
    lemma_parts_split(head, length);
    let all = parts(text);
    assert(all =~= seq![head, length]);
    assert(head[0] == letter && "DB"@[0] == 'D');
    assert(!"DB"@.is_prefix_of(head)) by {
        if "DB"@.is_prefix_of(head) {
            assert(head.take(2)[0] == 'D');
        }
    }
    assert(named_length(all, 1) == Some(address.length));
}

/// An address that is written is read back as it was: what has a length, and
/// a data block number only where it is a data block's.
pub proof fn address_round_trip(address: Address)
    requires
        address.length > 0,
        address.area is DataBlock || address.db == 0,
    ensures
        Address::named(address.text()) == Some(address),
{
    reveal_strlit("I");
    reveal_strlit("Q");
    reveal_strlit("M");
    let offset = decimal_text(address.offset as nat);
    let length = decimal_text(address.length as nat);
    match address.area {
        Area::DataBlock => {
            lemma_data_block_read(address);
        },
        Area::Input => {
            lemma_letter_read('I', address);
            assert(address.text() =~= seq!['I'] + offset + "."@ + length);
        },
        Area::Output => {
            lemma_letter_read('Q', address);
            assert(address.text() =~= seq!['Q'] + offset + "."@ + length);
        },
        Area::Flag => {
            lemma_letter_read('M', address);
            assert(address.text() =~= seq!['M'] + offset + "."@ + length);
        },
    }
}

/// What a text names, it names again when it is written: no text names an
/// address without a length, nor one with a data block number elsewhere.
pub proof fn named_address_round_trip(text: Seq<char>)
    requires
        Address::named(text) is Some,
    ensures
        ({
            let address = Address::named(text)->Some_0;
            &&& address.length > 0
            &&& address.area is DataBlock || address.db == 0
            &&& Address::named(address.text()) == Some(address)
        }),
{
    address_round_trip(Address::named(text)->Some_0);
}

/// Upper case twice is upper case once, and cuts nowhere else.
proof fn lemma_upper_parts(s: Seq<char>)
    ensures
        parts(upper_text(s)) == parts(s).map_values(|p: Seq<char>| upper_text(p)),
        upper_text(upper_text(s)) == upper_text(s),
    decreases s.len(),
{
    let f = |p: Seq<char>| upper_text(p);
    let u = upper_text(s);
    assert(upper_text(u) =~= u);
    lemma_parts_not_empty(s);
    if s.len() == 0 {
        assert(u =~= Seq::empty());
        assert(upper_text(Seq::empty()) =~= Seq::empty());
        assert(parts(u) =~= parts(s).map_values(f));
    } else {
        lemma_upper_parts(s.drop_last());
        lemma_parts_not_empty(s.drop_last());
        assert(u.drop_last() =~= upper_text(s.drop_last()));
        assert(u.last() == upper(s.last()));
        let before = parts(s.drop_last());
        assert(upper_text(Seq::empty()) =~= Seq::empty());
        assert(upper_text(before.last().push(s.last())) =~= upper_text(before.last()).push(
            u.last(),
        ));
        assert(parts(u) =~= parts(s).map_values(f));
    }
}

/// Upper case makes no number and spoils none.
proof fn lemma_upper_number(s: Seq<char>, max: nat)
    ensures
        number(upper_text(s), max) == number(s, max),
{
    let u = upper_text(s);
    assert(unsigned(u) =~= upper_text(unsigned(s)));
    let digits = unsigned(s);
    assert(forall|i: int|
        0 <= i < digits.len() ==> is_decimal(#[trigger] upper_text(digits)[i]) == is_decimal(
            digits[i],
        ));
    if all_decimal(digits) {
        assert forall|i: int| 0 <= i < digits.len() implies upper_text(digits)[i] == digits[i] by {
            assert(is_decimal(digits[i]));
        }
        assert(upper_text(digits) =~= digits);
    } else {
        assert(!all_decimal(upper_text(digits))) by {
            if digits.len() > 0 {
                let i = choose|i: int| 0 <= i < digits.len() && !is_decimal(#[trigger] digits[i]);
                assert(!is_decimal(upper_text(digits)[i]));
            }
        }
    }
}

/// An address may be written in either case.
pub proof fn case_does_not_matter(text: Seq<char>)
    ensures
        Address::named(upper_text(text)) == Address::named(text),
{
    let plain = parts(text);
    let raised = parts(upper_text(text));
    lemma_upper_parts(text);
    lemma_parts_not_empty(text);
    assert(raised[0] == upper_text(plain[0]));
    lemma_upper_parts(plain[0]);
    if plain.len() >= 2 {
        assert(raised[1] == upper_text(plain[1]));
        lemma_upper_parts(plain[1]);
        lemma_upper_number(plain[1], u16::MAX as nat);
    }
    if plain.len() >= 3 {
        assert(raised[2] == upper_text(plain[2]));
        lemma_upper_number(plain[2], u16::MAX as nat);
    }
    assert(named_length(raised, 1) == named_length(plain, 1));
    assert(plain.len() >= 2 ==> named_length(raised, 2) == named_length(plain, 2));
}

/// The origin of what was polled, as a target, names the CPU and the address
/// it came from, whatever is configured, where it says as a URI the two parts
/// it was written from.
pub proof fn origin_names_where_it_came_from(
    host: Seq<char>,
    address: Address,
    origin: Seq<char>,
    plc: Seq<char>,
    configured: Seq<char>,
)
    requires
        address.length > 0,
        address.area is DataBlock || address.db == 0,
    ensures
        ({
            let (cpu, named) = resolved(Some((host, address.text())), origin, plc, configured);
            cpu == host && Address::named(named) == Some(address)
        }),
{
    address_round_trip(address);
    lemma_decimal(address.length as nat);
}

} // verus!
