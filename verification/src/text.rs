//! Numbers as text: how one is written in decimal and in hexadecimal, and
//! how one is read back.

use vstd::prelude::*;
use vstd::string::*;

verus! {

/// The character that stands for `d`: `0` to `9`, then `a` to `f`.
pub open spec fn digit(d: nat) -> char
    recommends
        d < 16,
{
    if d < 10 {
        ('0' as nat + d) as char
    } else {
        ('a' as nat + d - 10) as char
    }
}

/// `n` in decimal, without leading zeros.
pub open spec fn decimal_text(n: nat) -> Seq<char>
    decreases n,
{
    if n < 10 {
        seq![digit(n)]
    } else {
        decimal_text(n / 10).push(digit(n % 10))
    }
}

/// A byte as `0x` and two hexadecimal digits.
pub open spec fn hex_text(n: u8) -> Seq<char> {
    "0x"@ + seq![digit(n as nat / 16), digit(n as nat % 16)]
}

/// Two bytes as `0x` and four hexadecimal digits.
pub open spec fn wide_hex_text(n: u16) -> Seq<char> {
    "0x"@ + seq![
        digit(n as nat / 4096),
        digit(n as nat / 256 % 16),
        digit(n as nat / 16 % 16),
        digit(n as nat % 16),
    ]
}

pub open spec fn is_decimal(c: char) -> bool {
    '0' <= c <= '9'
}

/// One decimal digit or more, and nothing else.
pub open spec fn all_decimal(s: Seq<char>) -> bool {
    s.len() > 0 && forall|i: int| 0 <= i < s.len() ==> is_decimal(#[trigger] s[i])
}

/// What a run of decimal digits is worth.
pub open spec fn decimal_value(s: Seq<char>) -> nat
    decreases s.len(),
{
    if s.len() == 0 {
        0
    } else {
        decimal_value(s.drop_last()) * 10 + (s.last() as nat - '0' as nat) as nat
    }
}

/// `s` without the one plus sign that may open it.
pub open spec fn unsigned(s: Seq<char>) -> Seq<char> {
    if s.len() > 0 && s[0] == '+' {
        s.skip(1)
    } else {
        s
    }
}

/// The number that `s` writes, if `s` is a number no greater than `max`: an
/// optional plus sign and decimal digits.
pub open spec fn number(s: Seq<char>, max: nat) -> Option<nat> {
    if all_decimal(unsigned(s)) && decimal_value(unsigned(s)) <= max {
        Some(decimal_value(unsigned(s)))
    } else {
        None
    }
}

/// `s` cut at every full stop: one part more than there are full stops.
pub open spec fn parts(s: Seq<char>) -> Seq<Seq<char>>
    decreases s.len(),
{
    if s.len() == 0 {
        seq![Seq::empty()]
    } else {
        let before = parts(s.drop_last());
        if s.last() == '.' {
            before.push(Seq::empty())
        } else {
            before.drop_last().push(before.last().push(s.last()))
        }
    }
}

/// An ASCII letter in upper case; any other character as it is.
pub open spec fn upper(c: char) -> char {
    if 'a' <= c <= 'z' {
        (c as nat - 'a' as nat + 'A' as nat) as char
    } else {
        c
    }
}

/// `s` with its ASCII letters in upper case.
pub open spec fn upper_text(s: Seq<char>) -> Seq<char> {
    s.map_values(|c: char| upper(c))
}

/// The parts of a split text.
pub open spec fn views(v: Seq<Vec<char>>) -> Seq<Seq<char>> {
    v.map_values(|p: Vec<char>| p@)
}

/// `text` in double quotes, with what does not print escaped: what the `Debug`
/// format of a string slice writes.
pub uninterp spec fn quoted_text(text: Seq<char>) -> Seq<char>;

/// `text` as the `Debug` format of `str` writes it, through `format!`. Its
/// result is a function of the text alone; which characters are escaped, and
/// how, is left unsaid.
#[verifier::external_body]
pub(crate) fn quoted(text: &str) -> (r: String)
    ensures
        r@ == quoted_text(text@),
{
    format!("{:?}", text)
}

/// The digit for `d` as a string.
fn digit_str(d: u8) -> (r: &'static str)
    requires
        d < 16,
    ensures
        r@ == seq![digit(d as nat)],
{
    proof {
        reveal_strlit("0");
        reveal_strlit("1");
        reveal_strlit("2");
        reveal_strlit("3");
        reveal_strlit("4");
        reveal_strlit("5");
        reveal_strlit("6");
        reveal_strlit("7");
        reveal_strlit("8");
        reveal_strlit("9");
        reveal_strlit("a");
        reveal_strlit("b");
        reveal_strlit("c");
        reveal_strlit("d");
        reveal_strlit("e");
        reveal_strlit("f");
    }
    match d {
        0 => "0",
        1 => "1",
        2 => "2",
        3 => "3",
        4 => "4",
        5 => "5",
        6 => "6",
        7 => "7",
        8 => "8",
        9 => "9",
        10 => "a",
        11 => "b",
        12 => "c",
        13 => "d",
        14 => "e",
        _ => "f",
    }
}

/// `n` in decimal.
pub fn decimal(n: u32) -> (r: String)
    ensures
        r@ == decimal_text(n as nat),
    decreases n,
{
    if n < 10 {
        digit_str(n as u8).to_owned()
    } else {
        let mut out = decimal(n / 10);
        out.append(digit_str((n % 10) as u8));
        out
    }
}

/// `n` as `0x` and two hexadecimal digits.
pub fn hex(n: u8) -> (r: String)
    ensures
        r@ == hex_text(n),
{
    let mut out = "0x".to_owned();
    out.append(digit_str(n / 16));
    out.append(digit_str(n % 16));
    assert(out@ =~= hex_text(n));
    out
}

/// `n` as `0x` and four hexadecimal digits.
pub fn wide_hex(n: u16) -> (r: String)
    ensures
        r@ == wide_hex_text(n),
{
    let mut out = "0x".to_owned();
    out.append(digit_str((n / 4096) as u8));
    out.append(digit_str((n / 256 % 16) as u8));
    out.append(digit_str((n / 16 % 16) as u8));
    out.append(digit_str((n % 16) as u8));
    assert(out@ =~= wide_hex_text(n));
    out
}

/// `text` cut at every full stop.
pub fn split(text: &str) -> (r: Vec<Vec<char>>)
    ensures
        views(r@) == parts(text@),
        r@.len() > 0,
{
    let mut done: Vec<Vec<char>> = Vec::new();
    let mut current: Vec<char> = Vec::new();
    assert(views(done@).push(current@) =~= parts(text@.take(0)));
    for c in it: text.chars()
        invariant
            it.seq() == text@,
            views(done@).push(current@) == parts(text@.take(it.index() as int)),
    {
        let ghost k = it.index() as int;
        let ghost before = views(done@).push(current@);
        assert(text@.take(k + 1).drop_last() =~= text@.take(k));
        assert(before.drop_last() =~= views(done@));
        if c == '.' {
            done.push(current);
            current = Vec::new();
            assert(views(done@) =~= before);
        } else {
            current.push(c);
        }
    }
    assert(text@.take(text@.len() as int) =~= text@);
    let ghost before = views(done@).push(current@);
    done.push(current);
    assert(views(done@) =~= before);
    done
}

/// `chars` with its ASCII letters in upper case.
pub fn to_upper(chars: &Vec<char>) -> (r: Vec<char>)
    ensures
        r@ == upper_text(chars@),
{
    let mut out: Vec<char> = Vec::new();
    let mut i: usize = 0;
    while i < chars.len()
        invariant
            i <= chars.len(),
            out@ == upper_text(chars@.take(i as int)),
        decreases chars.len() - i,
    {
        let c: char = chars[i];
        assert(upper_text(chars@.take(i + 1)) =~= upper_text(chars@.take(i as int)).push(upper(c)));
        if 'a' <= c && c <= 'z' {
            out.push((c as u8 - 32) as char);
        } else {
            out.push(c);
        }
        i += 1;
    }
    assert(chars@.take(i as int) =~= chars@);
    out
}

/// What more digits make of a number is no less.
proof fn lemma_value_grows(s: Seq<char>, k: int)
    requires
        0 <= k <= s.len(),
        forall|i: int| 0 <= i < s.len() ==> is_decimal(#[trigger] s[i]),
    ensures
        decimal_value(s.take(k)) <= decimal_value(s),
    decreases s.len() - k,
{
    if k < s.len() {
        lemma_value_grows(s, k + 1);
        assert(s.take(k + 1).drop_last() =~= s.take(k));
        assert(is_decimal(s[k]));
    } else {
        assert(s.take(k) =~= s);
    }
}

/// The number that `chars` writes from index `from` on.
pub fn parse_number(chars: &Vec<char>, from: usize, max: u32) -> (r: Option<u32>)
    requires
        from <= chars@.len(),
    ensures
        r == match number(chars@.skip(from as int), max as nat) {
            Some(n) => Some(n as u32),
            None => None,
        },
{
    let ghost s = unsigned(chars@.skip(from as int));
    let start: usize = if from < chars.len() && chars[from] == '+' {
        from + 1
    } else {
        from
    };
    assert(s =~= chars@.skip(start as int));
    if start == chars.len() {
        return None;
    }
    let mut i: usize = start;
    let mut n: u32 = 0;
    while i < chars.len()
        invariant
            start <= i <= chars.len(),
            s == chars@.skip(start as int),
            s == unsigned(chars@.skip(from as int)),
            forall|j: int| 0 <= j < i - start ==> is_decimal(#[trigger] s[j]),
            n == decimal_value(s.take(i - start)),
            n <= max,
        decreases chars.len() - i,
    {
        let c: char = chars[i];
        assert(c == s[i - start]);
        if c < '0' || '9' < c {
            return None;
        }
        let next: u64 = n as u64 * 10 + (c as u32 - '0' as u32) as u64;
        assert(s.take(i + 1 - start).drop_last() =~= s.take(i - start));
        if next > max as u64 {
            proof {
                if all_decimal(s) {
                    lemma_value_grows(s, i + 1 - start);
                }
            }
            return None;
        }
        n = next as u32;
        i += 1;
    }
    assert(s.take(i - start) =~= s);
    Some(n)
}

} // verus!
