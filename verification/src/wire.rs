//! Sixteen bits as the two bytes that carry them, the high byte first.

use vstd::prelude::*;

verus! {

pub open spec fn high(n: u16) -> u8 {
    (n / 256) as u8
}

pub open spec fn low(n: u16) -> u8 {
    (n % 256) as u8
}

/// `n` as it stands on the wire.
pub open spec fn be(n: u16) -> Seq<u8> {
    seq![high(n), low(n)]
}

/// The number that two bytes on the wire carry.
pub open spec fn word(high: u8, low: u8) -> u16 {
    (high * 256 + low) as u16
}

/// `n`, or the most that two bytes carry where `n` is more.
pub open spec fn capped(n: nat) -> u16 {
    if n <= u16::MAX {
        n as u16
    } else {
        u16::MAX
    }
}

/// Append `n` to `out`.
pub fn push_be(out: &mut Vec<u8>, n: u16)
    ensures
        final(out)@ == old(out)@ + be(n),
{
    out.push((n / 256) as u8);
    out.push((n % 256) as u8);
    assert(out@ =~= old(out)@ + be(n));
}

/// The number that `high` and `low` carry.
pub fn read_be(high: u8, low: u8) -> (r: u16)
    ensures
        r == word(high, low),
{
    high as u16 * 256 + low as u16
}

/// Append `bytes` to `out`.
pub fn push_all(out: &mut Vec<u8>, bytes: &[u8])
    ensures
        final(out)@ == old(out)@ + bytes@,
{
    out.extend_from_slice(bytes);
    assert(out@ =~= old(out)@ + bytes@);
}

/// `n`, or the most that two bytes carry where `n` is more.
pub fn cap(n: usize) -> (r: u16)
    ensures
        r == capped(n as nat),
{
    if n <= 0xFFFF {
        n as u16
    } else {
        u16::MAX
    }
}

} // verus!
