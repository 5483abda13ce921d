//! Audit records. A successful distribution yields one human-readable line
//! per recipient, in recipient order; the hosting environment appends them to
//! its event log.

use vstd::prelude::*;

verus! {

/// The decimal digit character for `d`, which must lie in `0..10`.
pub open spec fn dec_digit(d: int) -> char {
    if d == 0 {
        '0'
    } else if d == 1 {
        '1'
    } else if d == 2 {
        '2'
    } else if d == 3 {
        '3'
    } else if d == 4 {
        '4'
    } else if d == 5 {
        '5'
    } else if d == 6 {
        '6'
    } else if d == 7 {
        '7'
    } else if d == 8 {
        '8'
    } else {
        '9'
    }
}

/// The decimal rendering of `n`, most significant digit first, with no
/// leading zero except for `n == 0` itself.
pub open spec fn dec_rep(n: nat) -> Seq<char>
    decreases n,
{
    if n < 10 {
        seq![dec_digit(n as int)]
    } else {
        dec_rep(n / 10).push(dec_digit((n % 10) as int))
    }
}

/// The audit line recorded for one credit of `amount` tokens to `name`.
pub open spec fn audit_line(amount: u64, name: Seq<char>) -> Seq<char> {
    "Sent "@ + dec_rep(amount as nat) + " tokens to "@ + name
}

/// Relies on `format!` with std's `Display` for `u64` and `str`: the number
/// is rendered as decimal digits with no leading zeros, and the pieces are
/// joined in order with nothing added.
#[verifier::external_body]
pub(crate) fn render_audit_line(amount: u64, recipient: &String) -> (r: String)
    ensures
        r@ == audit_line(amount, recipient@),
{
    format!("Sent {} tokens to {}", amount, recipient)
}

} // verus!
