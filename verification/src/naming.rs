//! What texts say: numbers in decimal and hexadecimal, the addresses that a
//! text names, the CPU and the address that a target names, and the words for
//! an error.

use vstd::prelude::*;

use crate::error::Error;
use crate::item::{named_length, Address, Area};
use crate::laws::{lemma_decimal, lemma_one_part, lemma_parts_not_empty, lemma_parts_split};
use crate::text::{
    decimal_text, decimal_value, digit, hex_text, is_decimal, number, parts,
    quoted_text, unsigned, upper, upper_text, views, wide_hex_text,
};
use crate::{resolved, uri_text};

verus! {

/// The hexadecimal digits, each at the place that it is worth.
pub open spec fn hex_digits() -> Seq<char> {
    seq!['0', '1', '2', '3', '4', '5', '6', '7', '8', '9', 'a', 'b', 'c', 'd', 'e', 'f']
}

/// A digit is the one that is worth as much; a byte is `0x` and two of them,
/// two bytes are `0x` and four, the one worth most first.
pub proof fn hexadecimal_is_written(d: nat, byte: u8, two: u16)
    ensures
        d < 16 ==> digit(d) == hex_digits()[d as int],
        hex_text(byte) == seq!['0', 'x', hex_digits()[byte as int / 16], hex_digits()[byte as int % 16]],
        wide_hex_text(two) == seq![
            '0',
            'x',
            hex_digits()[two as int / 4096],
            hex_digits()[two as int / 256 % 16],
            hex_digits()[two as int / 16 % 16],
            hex_digits()[two as int % 16],
        ],
{
    reveal_strlit("0x");
    assert(forall|d: nat| d < 16 ==> #[trigger] digit(d) == hex_digits()[d as int]);
    assert(hex_text(byte) =~= seq![
        '0',
        'x',
        hex_digits()[byte as int / 16],
        hex_digits()[byte as int % 16],
    ]);
    assert(wide_hex_text(two) =~= seq![
        '0',
        'x',
        hex_digits()[two as int / 4096],
        hex_digits()[two as int / 256 % 16],
        hex_digits()[two as int / 16 % 16],
        hex_digits()[two as int % 16],
    ]);
}

/// No digits are worth nothing, and one digit more is worth itself and makes
/// the others worth ten times as much.
pub proof fn decimal_digits_add_up(digits: Seq<char>, last: char)
    requires
        '0' <= last <= '9',
    ensures
        decimal_value(Seq::empty()) == 0,
        decimal_value(digits.push(last)) == decimal_value(digits) * 10 + (last as int - 48),
{
    assert(digits.push(last).drop_last() =~= digits);
}

/// A number in decimal is digits that are worth it, the first of them no zero
/// unless it is alone.
pub proof fn decimal_is_written(n: nat)
    ensures
        ({
            let s = decimal_text(n);
            &&& s.len() > 0
            &&& forall|i: int| 0 <= i < s.len() ==> '0' <= #[trigger] s[i] <= '9'
            &&& decimal_value(s) == n
            &&& s[0] == '0' ==> n == 0
            &&& n < 10 ==> s.len() == 1
        }),
    decreases n,
{
    lemma_decimal(n);
    assert forall|i: int| 0 <= i < decimal_text(n).len() implies '0' <= #[trigger] decimal_text(
        n,
    )[i] <= '9' by {
        assert(is_decimal(decimal_text(n)[i]));
    }
    if n >= 10 {
        decimal_is_written(n / 10);
    }
}

/// Decimal digits, with or without one plus sign before them, are the number
/// they are worth, if that is not too great.
pub proof fn digits_are_a_number(digits: Seq<char>, max: nat)
    requires
        digits.len() > 0,
        forall|i: int| 0 <= i < digits.len() ==> '0' <= #[trigger] digits[i] <= '9',
    ensures
        decimal_value(digits) <= max ==> number(digits, max) == Some(decimal_value(digits)),
        decimal_value(digits) <= max ==> number(seq!['+'] + digits, max) == Some(
            decimal_value(digits),
        ),
        decimal_value(digits) > max ==> number(digits, max) is None,
        decimal_value(digits) > max ==> number(seq!['+'] + digits, max) is None,
{
    assert('0' <= digits[0] <= '9');
    assert((seq!['+'] + digits).skip(1) =~= digits);
    assert(unsigned(digits) == digits && unsigned(seq!['+'] + digits) == digits);
}

/// Nothing else is a number.
pub proof fn only_digits_are_a_number(s: Seq<char>, max: nat)
    requires
        number(s, max) is Some,
    ensures
        s.len() > 0,
        forall|i: int| 0 < i < s.len() ==> '0' <= #[trigger] s[i] <= '9',
        '0' <= s[0] <= '9' || s[0] == '+' && s.len() > 1,
{
    let digits = unsigned(s);
    assert forall|i: int| 0 < i < s.len() implies '0' <= #[trigger] s[i] <= '9' by {
        assert(s[i] == digits[i - (s.len() - digits.len())]);
        assert(is_decimal(digits[i - (s.len() - digits.len())]));
    }
    assert(is_decimal(digits[0]));
}

/// Parts put together again, a full stop between every two of them.
pub open spec fn joined(parts: Seq<Seq<char>>) -> Seq<char>
    decreases parts.len(),
{
    if parts.len() == 0 {
        Seq::empty()
    } else if parts.len() == 1 {
        parts[0]
    } else {
        joined(parts.drop_last()).push('.') + parts.last()
    }
}

/// A text is cut at every full stop and nowhere else: no part holds one, and
/// with one between every two the parts are the text.
pub proof fn parts_are_cut_at_full_stops(s: Seq<char>)
    ensures
        parts(s).len() > 0,
        joined(parts(s)) == s,
        forall|i: int, j: int|
            0 <= i < parts(s).len() && 0 <= j < parts(s)[i].len() ==> #[trigger] parts(s)[i][j]
                != '.',
    decreases s.len(),
{
    lemma_parts_not_empty(s);
    let all = parts(s);
    if s.len() == 0 {
        assert(joined(all) =~= s);
    } else {
        parts_are_cut_at_full_stops(s.drop_last());
        let before = parts(s.drop_last());
        let c = s.last();
        assert(s =~= s.drop_last().push(c));
        if c == '.' {
            assert(all.drop_last() =~= before);
            assert(joined(all) =~= s);
        } else {
            let last = before.last().push(c);
            assert(all.drop_last() =~= before.drop_last());
            assert(all.last() == last);
            if before.len() == 1 {
                assert(joined(all) =~= s);
            } else {
                assert(joined(before) == joined(before.drop_last()).push('.') + before.last());
                assert(joined(all) =~= s);
            }
            assert forall|i: int, j: int|
                0 <= i < all.len() && 0 <= j < all[i].len() implies #[trigger] all[i][j]
                != '.' by {
                if i < all.len() - 1 {
                    assert(all[i] == before[i]);
                    assert(before[i][j] != '.');
                } else if j < before.last().len() {
                    assert(before[before.len() - 1][j] != '.');
                }
            }
        }
    }
}

/// The parts of a split text are what each of them holds, in their order.
pub proof fn parts_are_what_they_hold(split: Seq<Vec<char>>)
    ensures
        views(split).len() == split.len(),
        forall|i: int| 0 <= i < split.len() ==> #[trigger] views(split)[i] == split[i]@,
{
}

/// Upper case moves the letters `a` to `z` to `A` to `Z`, thirty-two places
/// down, and leaves every other character.
pub proof fn upper_case_moves_small_letters(s: Seq<char>)
    ensures
        upper_text(s).len() == s.len(),
        forall|i: int|
            0 <= i < s.len() ==> {
                let c = #[trigger] s[i];
                let u = upper_text(s)[i];
                &&& 'a' <= c <= 'z' ==> u as int + 32 == c as int
                &&& !('a' <= c <= 'z') ==> u == c
            },
{
}

/// An address is written as its area, a data block's with its number, then the
/// first byte, a full stop and the length, the numbers in decimal.
pub proof fn address_is_written(address: Address)
    ensures
        ({
            let offset = decimal_text(address.offset as nat);
            let length = decimal_text(address.length as nat);
            let db = decimal_text(address.db as nat);
            match address.area {
                Area::DataBlock => address.text() == seq!['D', 'B'] + db + seq!['.', 'D', 'B', 'B']
                    + offset + seq!['.'] + length,
                Area::Input => address.text() == seq!['I'] + offset + seq!['.'] + length,
                Area::Output => address.text() == seq!['Q'] + offset + seq!['.'] + length,
                Area::Flag => address.text() == seq!['M'] + offset + seq!['.'] + length,
            }
        }),
{
    reveal_strlit("DB");
    reveal_strlit(".DBB");
    reveal_strlit("I");
    reveal_strlit("Q");
    reveal_strlit("M");
    reveal_strlit(".");
    let offset = decimal_text(address.offset as nat);
    let length = decimal_text(address.length as nat);
    let db = decimal_text(address.db as nat);
    match address.area {
        Area::DataBlock => {
            assert(address.text() =~= seq!['D', 'B'] + db + seq!['.', 'D', 'B', 'B'] + offset
                + seq!['.'] + length);
        },
        Area::Input => {
            assert(address.text() =~= seq!['I'] + offset + seq!['.'] + length);
        },
        Area::Output => {
            assert(address.text() =~= seq!['Q'] + offset + seq!['.'] + length);
        },
        Area::Flag => {
            assert(address.text() =~= seq!['M'] + offset + seq!['.'] + length);
        },
    }
}

/// Whether a letter, small or capital, stands for an area: `M` for the flags,
/// `I` or `E` for the inputs, `Q` or `A` for the outputs.
pub open spec fn stands_for(letter: char, area: Area) -> bool {
    match area {
        Area::Flag => letter == 'M' || letter == 'm',
        Area::Input => letter == 'I' || letter == 'i' || letter == 'E' || letter == 'e',
        Area::Output => letter == 'Q' || letter == 'q' || letter == 'A' || letter == 'a',
        Area::DataBlock => false,
    }
}

/// Whether letters are `DB`, each small or capital.
pub open spec fn is_db(letters: Seq<char>) -> bool {
    &&& letters.len() == 2
    &&& letters[0] == 'D' || letters[0] == 'd'
    &&& letters[1] == 'B' || letters[1] == 'b'
}

/// Whether letters are `DBB`, each small or capital.
pub open spec fn is_dbb(letters: Seq<char>) -> bool {
    letters.len() == 3 && is_db(letters.take(2)) && (letters[2] == 'B' || letters[2] == 'b')
}

/// A number holds no full stop and has no case.
proof fn lemma_number(s: Seq<char>, max: nat)
    requires
        number(s, max) is Some,
    ensures
        upper_text(s) == s,
        forall|i: int| 0 <= i < s.len() ==> s[i] != '.',
{
    only_digits_are_a_number(s, max);
    assert(upper_text(s) =~= s);
}

/// Letters and a number are one part; in upper case they are the letters in
/// upper case and the number.
proof fn lemma_head(letters: Seq<char>, n: Seq<char>, max: nat)
    requires
        number(n, max) is Some,
        forall|i: int| 0 <= i < letters.len() ==> letters[i] != '.',
    ensures
        parts(letters + n) == seq![letters + n],
        upper_text(letters + n) == upper_text(letters) + n,
        upper_text(letters + n).skip(letters.len() as int) == n,
{
    lemma_number(n, max);
    lemma_one_part(letters + n);
    assert forall|i: int| 0 <= i < n.len() implies upper(n[i]) == n[i] by {
        assert(upper_text(n)[i] == n[i]);
    }
    assert(upper_text(letters + n) =~= upper_text(letters) + n);
    assert(upper_text(letters + n).skip(letters.len() as int) =~= n);
}

/// What the parts of a text name that opens with the letter of an area.
proof fn lemma_letter(text: Seq<char>, letter: char, area: Area, offset: Seq<char>)
    requires
        stands_for(letter, area),
        number(offset, u32::MAX as nat) is Some,
        parts(text).len() > 0,
        parts(text)[0] == seq![letter] + offset,
    ensures
        Address::named(text) == match named_length(parts(text), 1) {
            Some(length) => Some(
                Address {
                    area,
                    db: 0,
                    offset: number(offset, u32::MAX as nat)->Some_0 as u32,
                    length,
                },
            ),
            None => None,
        },
{
    reveal_strlit("DB");
    lemma_head(seq![letter], offset, u32::MAX as nat);
    let head = upper_text(parts(text)[0]);
    assert(head[0] == upper(letter));
    assert(!"DB"@.is_prefix_of(head)) by {
        if "DB"@.is_prefix_of(head) {
            assert(head.take(2)[0] == 'D');
        }
    }
}

/// The letter of an area and a number name the one byte there, and with a full
/// stop and another number as many bytes as that says, but never none.
pub proof fn a_letter_names_a_range(
    area: Area,
    letter: char,
    offset: Seq<char>,
    length: Seq<char>,
)
    requires
        stands_for(letter, area),
        number(offset, u32::MAX as nat) is Some,
        number(length, u16::MAX as nat) is Some,
    ensures
        ({
            let first = number(offset, u32::MAX as nat)->Some_0 as u32;
            let n = number(length, u16::MAX as nat)->Some_0 as u16;
            let ranged = Address::named(seq![letter] + offset + seq!['.'] + length);
            &&& Address::named(seq![letter] + offset) == Some(
                Address { area, db: 0, offset: first, length: 1 },
            )
            &&& n > 0 ==> ranged == Some(Address { area, db: 0, offset: first, length: n })
            &&& n == 0 ==> ranged is None
        }),
{
    let head = seq![letter] + offset;
    lemma_head(seq![letter], offset, u32::MAX as nat);
    lemma_letter(head, letter, area, offset);
    let text = head + seq!['.'] + length;
    assert(text =~= head.push('.') + length);
    lemma_number(length, u16::MAX as nat);
    lemma_one_part(length);
    lemma_parts_split(head, length);
    assert(parts(text) =~= seq![head, length]);
    lemma_letter(text, letter, area, offset);
}

/// What the parts of a text name that opens as a data block.
proof fn lemma_block(
    text: Seq<char>,
    block: Seq<char>,
    db: Seq<char>,
    byte: Seq<char>,
    offset: Seq<char>,
)
    requires
        is_db(block),
        number(db, u16::MAX as nat) is Some,
        is_dbb(byte),
        number(offset, u32::MAX as nat) is Some,
        parts(text).len() >= 2,
        parts(text)[0] == block + db,
        parts(text)[1] == byte + offset,
    ensures
        Address::named(text) == match named_length(parts(text), 2) {
            Some(length) => Some(
                Address {
                    area: Area::DataBlock,
                    db: number(db, u16::MAX as nat)->Some_0 as u16,
                    offset: number(offset, u32::MAX as nat)->Some_0 as u32,
                    length,
                },
            ),
            None => None,
        },
{
    reveal_strlit("DB");
    reveal_strlit("DBB");
    lemma_head(block, db, u16::MAX as nat);
    assert(byte[0] == byte.take(2)[0] && byte[1] == byte.take(2)[1]);
    lemma_head(byte, offset, u32::MAX as nat);
    let head = upper_text(parts(text)[0]);
    let tail = upper_text(parts(text)[1]);
    assert("DB"@ =~= head.take(2));
    assert("DBB"@ =~= tail.take(3));
}

/// `DB`, a number, `.DBB` and another name the one byte there, and with a full
/// stop and a third as many bytes as that says, but never none.
pub proof fn a_data_block_names_a_range(
    block: Seq<char>,
    db: Seq<char>,
    byte: Seq<char>,
    offset: Seq<char>,
    length: Seq<char>,
)
    requires
        is_db(block),
        number(db, u16::MAX as nat) is Some,
        is_dbb(byte),
        number(offset, u32::MAX as nat) is Some,
        number(length, u16::MAX as nat) is Some,
    ensures
        ({
            let area = Area::DataBlock;
            let which = number(db, u16::MAX as nat)->Some_0 as u16;
            let first = number(offset, u32::MAX as nat)->Some_0 as u32;
            let n = number(length, u16::MAX as nat)->Some_0 as u16;
            let start = block + db + seq!['.'] + byte + offset;
            let ranged = Address::named(start + seq!['.'] + length);
            &&& Address::named(start) == Some(Address { area, db: which, offset: first, length: 1 })
            &&& n > 0 ==> ranged == Some(Address { area, db: which, offset: first, length: n })
            &&& n == 0 ==> ranged is None
        }),
{
    let head = block + db;
    let tail = byte + offset;
    lemma_head(block, db, u16::MAX as nat);
    assert(byte[0] == byte.take(2)[0] && byte[1] == byte.take(2)[1]);
    lemma_head(byte, offset, u32::MAX as nat);
    let start = block + db + seq!['.'] + byte + offset;
    assert(start =~= head.push('.') + tail);
    lemma_parts_split(head, tail);
    assert(parts(start) =~= seq![head, tail]);
    lemma_block(start, block, db, byte, offset);
    let text = start + seq!['.'] + length;
    assert(text =~= start.push('.') + length);
    lemma_number(length, u16::MAX as nat);
    lemma_one_part(length);
    lemma_parts_split(start, length);
    assert(parts(text) =~= seq![head, tail, length]);
    lemma_block(text, block, db, byte, offset);
}

/// A number in decimal is that number.
proof fn lemma_decimal_number(n: nat, max: nat)
    requires
        n <= max,
    ensures
        number(decimal_text(n), max) == Some(n),
{
    decimal_is_written(n);
    digits_are_a_number(decimal_text(n), max);
}

/// An address without a length is of one byte, in every area and wherever it
/// starts: it names what the same text with `.1` after it names.
pub proof fn one_byte_where_no_length_is_said(area: Area, letter: char, db: u16, offset: u32)
    ensures
        stands_for(letter, area) ==> {
            let text = seq![letter] + decimal_text(offset as nat);
            let one = Some(Address { area, db: 0, offset, length: 1 });
            Address::named(text) == one && Address::named(text + seq!['.', '1']) == one
        },
        ({
            let text = seq!['D', 'B'] + decimal_text(db as nat) + seq!['.', 'D', 'B', 'B']
                + decimal_text(offset as nat);
            let one = Some(Address { area: Area::DataBlock, db, offset, length: 1 });
            Address::named(text) == one && Address::named(text + seq!['.', '1']) == one
        }),
{
    lemma_decimal_number(offset as nat, u32::MAX as nat);
    lemma_decimal_number(db as nat, u16::MAX as nat);
    lemma_decimal_number(1, u16::MAX as nat);
    assert(decimal_text(1) =~= seq!['1']);
    if stands_for(letter, area) {
        let text = seq![letter] + decimal_text(offset as nat);
        a_letter_names_a_range(area, letter, decimal_text(offset as nat), seq!['1']);
        assert(text + seq!['.', '1'] =~= text + seq!['.'] + seq!['1']);
    }
    let block = seq!['D', 'B'];
    let byte = seq!['D', 'B', 'B'];
    let which = decimal_text(db as nat);
    let first = decimal_text(offset as nat);
    assert(byte.take(2) =~= block);
    a_data_block_names_a_range(block, which, byte, first, seq!['1']);
    let text = block + which + seq!['.', 'D', 'B', 'B'] + first;
    assert(text =~= block + which + seq!['.'] + byte + first);
    assert(text + seq!['.', '1'] =~= text + seq!['.'] + seq!['1']);
}

/// What opens in upper case with `DB`, or `DBB`, opens with them in some case.
proof fn lemma_opens(s: Seq<char>)
    ensures
        "DB"@.is_prefix_of(upper_text(s)) <==> s.len() >= 2 && is_db(s.take(2)),
        "DBB"@.is_prefix_of(upper_text(s)) <==> s.len() >= 3 && is_dbb(s.take(3)),
{
    reveal_strlit("DB");
    reveal_strlit("DBB");
    let u = upper_text(s);
    if s.len() >= 2 {
        assert(u.take(2)[0] == upper(s[0]) && u.take(2)[1] == upper(s[1]));
        if is_db(s.take(2)) {
            assert(s.take(2)[0] == s[0] && s.take(2)[1] == s[1]);
            assert("DB"@ =~= u.take(2));
        }
    }
    if s.len() >= 3 {
        assert(s.take(3).take(2) =~= s.take(2));
        assert(u.take(3)[0] == upper(s[0]) && u.take(3)[1] == upper(s[1]) && u.take(3)[2] == upper(
            s[2],
        ));
        if is_dbb(s.take(3)) {
            assert(s.take(2)[0] == s[0] && s.take(2)[1] == s[1] && s.take(3)[2] == s[2]);
            assert("DBB"@ =~= u.take(3));
        }
    }
}

/// What is a number in upper case is one.
proof fn lemma_upper_is_number(s: Seq<char>, max: nat)
    requires
        number(upper_text(s), max) is Some,
    ensures
        upper_text(s) == s,
{
    let u = upper_text(s);
    only_digits_are_a_number(u, max);
    assert forall|i: int| 0 <= i < s.len() implies s[i] == u[i] by {
        assert(u[i] == upper(s[i]));
    }
    assert(u =~= s);
}

/// Nothing else names an address: a text that names one is cut into the letter
/// of its area and where it starts, or `DB` and its number, and `DBB` and where
/// it starts; then at most its length, one where that is left out, never none.
pub proof fn nothing_else_names_an_address(text: Seq<char>)
    requires
        Address::named(text) is Some,
    ensures
        ({
            let address = Address::named(text)->Some_0;
            let all = parts(text);
            let from = if address.area == Area::DataBlock {
                2int
            } else {
                1
            };
            &&& address.area == Area::DataBlock ==> {
                &&& all.len() >= 2
                &&& all[0].len() >= 2 && is_db(all[0].take(2))
                &&& number(all[0].skip(2), u16::MAX as nat) == Some(address.db as nat)
                &&& all[1].len() >= 3 && is_dbb(all[1].take(3))
                &&& number(all[1].skip(3), u32::MAX as nat) == Some(address.offset as nat)
            }
            &&& address.area != Area::DataBlock ==> {
                &&& address.db == 0
                &&& all[0].len() >= 1 && stands_for(all[0][0], address.area)
                &&& number(all[0].skip(1), u32::MAX as nat) == Some(address.offset as nat)
            }
            &&& address.length > 0
            &&& all.len() == from && address.length == 1 || all.len() == from + 1 && number(
                all[from],
                u16::MAX as nat,
            ) == Some(address.length as nat)
        }),
{
    let all = parts(text);
    lemma_parts_not_empty(text);
    lemma_opens(all[0]);
    let head = upper_text(all[0]);
    if "DB"@.is_prefix_of(head) {
        lemma_opens(all[1]);
        let byte = upper_text(all[1]);
        assert(head.skip(2) =~= upper_text(all[0].skip(2)));
        assert(byte.skip(3) =~= upper_text(all[1].skip(3)));
        lemma_upper_is_number(all[0].skip(2), u16::MAX as nat);
        lemma_upper_is_number(all[1].skip(3), u32::MAX as nat);
    } else {
        assert(head[0] == upper(all[0][0]));
        assert(head.skip(1) =~= upper_text(all[0].skip(1)));
        lemma_upper_is_number(all[0].skip(1), u32::MAX as nat);
    }
}

/// A target that is no URI and holds a colon, wherever it stands, names the
/// CPU, and the address is the configured one.
pub proof fn a_target_with_a_colon_names_the_cpu(
    target: Seq<char>,
    plc: Seq<char>,
    address: Seq<char>,
    at: int,
)
    requires
        0 <= at < target.len(),
        target[at] == ':',
    ensures
        resolved(None, target, plc, address).0 == target,
        resolved(None, target, plc, address).1 == address,
{
    assert(target.contains(':'));
}

/// A target that is no URI and holds no colon names the address, and the CPU
/// is the configured one.
pub proof fn a_target_without_a_colon_names_the_address(
    target: Seq<char>,
    plc: Seq<char>,
    address: Seq<char>,
)
    requires
        forall|i: int| 0 <= i < target.len() ==> target[i] != ':',
    ensures
        resolved(None, target, plc, address).0 == plc,
        resolved(None, target, plc, address).1 == target,
{
}

/// A target that is a URI names the CPU by its host and the address by its
/// path; where the path is empty the address is the configured one.
pub proof fn a_uri_names_the_cpu_and_the_address(
    host: &str,
    path: &str,
    target: Seq<char>,
    plc: Seq<char>,
    address: Seq<char>,
)
    ensures
        uri_text(None) == None::<(Seq<char>, Seq<char>)>,
        ({
            let named = resolved(uri_text(Some((host, path))), target, plc, address);
            &&& named.0 == host@
            &&& path@.len() > 0 ==> named.1 == path@
            &&& path@.len() == 0 ==> named.1 == address
        }),
{
}

/// A byte as `0x` and its two hexadecimal digits.
pub open spec fn in_hex(byte: u8) -> Seq<char> {
    seq!['0', 'x', hex_digits()[byte as int / 16], hex_digits()[byte as int % 16]]
}

/// The words for an error say what was wrong, and what it is about: a byte in
/// hexadecimal, an address as it is written, a text in quotes.
pub proof fn errors_say_what_was_wrong(error: Error)
    ensures
        match error {
            Error::ShortPdu => error.text() == "an S7 PDU shorter than its header"@,
            Error::ProtocolId(id) => error.text() == "protocol id "@ + in_hex(id)
                + " where S7 is 0x32"@,
            Error::Rosctr(code) => error.text() == "ROSCTR "@ + in_hex(code) + " is not S7"@,
            Error::NoErrorField => error.text() == "an ack without its error field"@,
            Error::ParameterPastEnd => error.text() == "a parameter length past the end"@,
            Error::DataPastEnd => error.text() == "a data length past the end"@,
            Error::NotSetup => error.text() == "a parameter that is not Setup Communication"@,
            Error::NotAnAddress(text) => error.text() == quoted_text(text@)
                + " is not an S7 address"@,
            Error::Area(code) => error.text() == "area "@ + in_hex(code) + " is not addressed"@,
            Error::NotAPointer => error.text() == "an item that is not an S7ANY pointer"@,
            Error::BitAddress => error.text() == "a bit address; this transport reads bytes"@,
            Error::TransportSize(size) => error.text() == "transport size "@ + in_hex(size)
                + " is not addressed"@,
            Error::ShortDataHeader => error.text() == "a data item shorter than its header"@,
            Error::ShortData => error.text() == "a data item shorter than its length"@,
            Error::ObjectDoesNotExist(address) => error.text() == address.text()
                + ": object does not exist"@,
            Error::OutOfRange(address) => error.text() == address.text() + ": out of range"@,
            Error::Refused(address, code) => error.text() == address.text()
                + ": the PLC answered "@ + in_hex(code),
            Error::SetupNotAnswered => error.text()
                == "the CPU did not answer Setup Communication"@,
            Error::ReadNotAnswered => error.text() == "the CPU did not answer Read Var"@,
            Error::WriteNotAnswered => error.text() == "the CPU did not answer Write Var"@,
            Error::WrongLength => error.text() == "the CPU answered fewer bytes than asked"@,
            Error::TooManyBytes => error.text() == "more bytes than one address spans"@,
            Error::NoReturnCode => error.text() == "a Write Var answer without a return code"@,
            Error::Closed => error.text() == "the CPU closed before answering"@,
            Error::OtherReference => error.text() == "an answer to a different job"@,
            Error::JobForAnswer => error.text() == "a job where an answer was due"@,
            Error::Cpu(code) => error.text() == "the CPU answered error "@ + in_hex(
                (code / 256) as u8,
            ) + in_hex((code % 256) as u8).skip(2),
            Error::AnswerForJob => error.text() == "an answer where a job was due"@,
            Error::Function(None) => error.text()
                == "function None is not one this session serves"@,
            Error::Function(Some(code)) => error.text() == "function Some("@ + decimal_text(
                code as nat,
            ) + ") is not one this session serves"@,
            Error::NotOneItem => error.text() == "this session serves one item per job"@,
        },
{
    match error {
        Error::Cpu(code) => {
            hexadecimal_is_written(0, 0, code);
            assert(code / 256 / 16 == code / 4096 && code % 256 / 16 == code / 16 % 16 && code % 256
                % 16 == code % 16);
            assert(error.text() =~= "the CPU answered error "@ + in_hex((code / 256) as u8)
                + in_hex((code % 256) as u8).skip(2));
        },
        Error::ProtocolId(code)
        | Error::Rosctr(code)
        | Error::Area(code)
        | Error::TransportSize(code)
        | Error::Refused(_, code) => {
            hexadecimal_is_written(0, code, 0);
        },
        _ => {},
    }
}

} // verus!
