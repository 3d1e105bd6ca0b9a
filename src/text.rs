use vstd::prelude::*;
use crate::decimal::{decimal_bytes, decimal_digits};

verus! {

/// Decimal rendering of `n` as characters.
pub open spec fn decimal_text(n: nat) -> Seq<char> {
    decimal_bytes(n).map_values(|b: u8| b as char)
}

/// Relies on String::push: appends one character.
#[verifier::external_body]
pub(crate) fn push_char(s: &mut String, c: char)
    ensures
        final(s)@ == old(s)@.push(c),
{
    s.push(c)
}

/// Relies on String::push_str: appends the characters of `t`.
#[verifier::external_body]
pub(crate) fn push_text(s: &mut String, t: &str)
    ensures
        final(s)@ == old(s)@ + t@,
{
    s.push_str(t)
}

pub(crate) fn push_decimal(s: &mut String, n: u32)
    ensures
        final(s)@ == old(s)@ + decimal_text(n as nat),
{
    let digits = decimal_digits(n as u64);
    let ghost start = s@;
    let mut i: usize = 0;
    while i < digits.len()
        invariant
            i <= digits.len(),
            digits@ == decimal_bytes(n as nat),
            s@ == start + digits@.subrange(0, i as int).map_values(|b: u8| b as char),
        decreases digits.len() - i,
    {
        let c = digits[i] as char;
        assert(digits@.subrange(0, i as int + 1).map_values(|b: u8| b as char) =~= digits@.subrange(
            0,
            i as int,
        ).map_values(|b: u8| b as char).push(c));
        push_char(s, c);
        i = i + 1;
    }
    assert(digits@.subrange(0, digits.len() as int) == digits@);
}

} // verus!
