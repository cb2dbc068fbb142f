//! Integers as decimal text, the form in which numbers are written into
//! attribute values.

use vstd::prelude::*;
use vstd::string::StringExecFns;

verus! {

/// The text of one decimal digit.
pub open spec fn digit_text(d: int) -> Seq<char> {
    if d == 0 {
        "0"@
    } else if d == 1 {
        "1"@
    } else if d == 2 {
        "2"@
    } else if d == 3 {
        "3"@
    } else if d == 4 {
        "4"@
    } else if d == 5 {
        "5"@
    } else if d == 6 {
        "6"@
    } else if d == 7 {
        "7"@
    } else if d == 8 {
        "8"@
    } else {
        "9"@
    }
}

/// The decimal text of a natural number, without leading zeros.
pub open spec fn decimal_nat(n: nat) -> Seq<char>
    decreases n,
{
    if n < 10 {
        digit_text(n as int)
    } else {
        decimal_nat(n / 10) + digit_text((n % 10) as int)
    }
}

/// The decimal text of an integer: a minus sign before the digits of a
/// negative number, the digits alone otherwise.
pub open spec fn decimal(n: int) -> Seq<char> {
    if n < 0 {
        "-"@ + decimal_nat((-n) as nat)
    } else {
        decimal_nat(n as nat)
    }
}

/// One decimal digit as text.
fn digit_str(d: u64) -> (text: &'static str)
    requires
        d < 10,
    ensures
        text@ == digit_text(d as int),
{
    if d == 0 {
        "0"
    } else if d == 1 {
        "1"
    } else if d == 2 {
        "2"
    } else if d == 3 {
        "3"
    } else if d == 4 {
        "4"
    } else if d == 5 {
        "5"
    } else if d == 6 {
        "6"
    } else if d == 7 {
        "7"
    } else if d == 8 {
        "8"
    } else {
        "9"
    }
}

/// The decimal text of `n`.
pub fn natural_string(n: u64) -> (text: String)
    ensures
        text@ == decimal_nat(n as nat),
    decreases n,
{
    if n < 10 {
        digit_str(n).to_owned()
    } else {
        let mut text = natural_string(n / 10);
        text.append(digit_str(n % 10));
        text
    }
}

/// The decimal text of `n`, with a minus sign where `n` is negative.
pub fn decimal_string(n: i64) -> (text: String)
    ensures
        text@ == decimal(n as int),
{
    if n < 0 {
        let magnitude: u64 = ((-(n + 1)) as u64) + 1;
        let digits = natural_string(magnitude);
        let mut text = "-".to_owned();
        text.append(digits.as_str());
        text
    } else {
        natural_string(n as u64)
    }
}

} // verus!
