//! Numbers as the interface writes them.

use vstd::prelude::*;

verus! {

/// The decimal digit of a number below ten.
pub open spec fn digit(d: nat) -> char {
    "0123456789"@[d as int]
}

/// The number in decimal digits, without a sign and without leading zeros.
pub open spec fn decimal_of(n: nat) -> Seq<char>
    decreases n,
{
    if n < 10 {
        seq![digit(n)]
    } else {
        decimal_of(n / 10).push(digit(n % 10))
    }
}

/// Formats the number with the standard library's `Display` for `u64`.
/// Taken on trust: the text is the number in decimal digits, without a sign
/// and without leading zeros.
#[verifier::external_body]
pub(crate) fn decimal(n: u64) -> (text: String)
    ensures
        text@ == decimal_of(n as nat),
{
    format!("{}", n)
}

} // verus!
