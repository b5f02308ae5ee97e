//! Human-readable byte counts.
use vstd::prelude::*;
use humansize::{format_size, BINARY};

verus! {

/// The text that the `humansize` crate writes for a byte count with its
/// binary (IEC: KiB, MiB, ...) options.
pub uninterp spec fn binary_size_text(bytes: u64) -> Seq<char>;

/// The character of a decimal digit.
pub open spec fn digit_char(d: nat) -> char {
    if d == 0 { '0' } else if d == 1 { '1' } else if d == 2 { '2' } else if d == 3 { '3' }
    else if d == 4 { '4' } else if d == 5 { '5' } else if d == 6 { '6' } else if d == 7 { '7' }
    else if d == 8 { '8' } else { '9' }
}

/// The decimal digits of `n`, without leading zeros.
pub open spec fn decimal_digits(n: nat) -> Seq<char>
    decreases n,
{
    if n < 10 {
        seq![digit_char(n)]
    } else {
        decimal_digits(n / 10).push(digit_char(n % 10))
    }
}

/// Calls `humansize::format_size(bytes, BINARY)`. The text is whatever that
/// function writes for `bytes`; the crate's source scales the value by 1024
/// until it falls below 1024 and writes it with up to two decimals, so a
/// count below 1024 comes out as its decimal digits, a space and `B`.
#[verifier::external_body]
fn format_binary(bytes: u64) -> (text: String)
    ensures
        text@ == binary_size_text(bytes),
        bytes < 1024 ==> text@ == decimal_digits(bytes as nat) + seq![' ', 'B'],
{
    format_size(bytes, BINARY)
}

/// Formats a byte count into a human-readable string.
pub fn fmt_size(bytes: u64) -> (text: String)
    ensures
        text@ == binary_size_text(bytes),
        bytes < 1024 ==> text@ == decimal_digits(bytes as nat) + seq![' ', 'B'],
{
    format_binary(bytes)
}

} // verus!
