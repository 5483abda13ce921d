//! Account-identifier validation.
//!
//! An account identifier is a short lowercase name made of parts separated by
//! `.`, `-` or `_`. The precise rule is stated by [`valid_account`]; the
//! runtime check is delegated to the hosting environment's validator.

use vstd::prelude::*;

verus! {

/// A separator character inside an account identifier.
pub open spec fn account_sep(c: char) -> bool {
    c == '-' || c == '_' || c == '.'
}

/// A character that may occur in an account identifier.
pub open spec fn account_char(c: char) -> bool {
    ('a' <= c && c <= 'z') || ('0' <= c && c <= '9') || account_sep(c)
}

/// A well-formed account identifier: between 2 and 64 characters, each a
/// lowercase letter, digit or separator, with no separator at either end and
/// no two separators in a row.
pub open spec fn valid_account(s: Seq<char>) -> bool {
    &&& 2 <= s.len() <= 64
    &&& forall|i: int| 0 <= i < s.len() ==> account_char(#[trigger] s[i])
    &&& !account_sep(s[0])
    &&& !account_sep(s[s.len() - 1])
    &&& forall|i: int| 0 <= i && i + 1 < s.len() ==> !(account_sep(#[trigger] s[i]) && account_sep(s[i + 1]))
}

/// Relies on `near_sdk::env::is_valid_account_id`: it accepts exactly the
/// byte strings of length 2 to 64 over `a-z`, `0-9`, `-`, `_` and `.` that
/// neither start nor end with a separator and hold no two separators in a
/// row. Any byte outside that alphabet (so any non-ASCII character) is
/// rejected, which makes the byte-level rule coincide with the
/// character-level rule stated by [`valid_account`].
#[verifier::external_body]
pub(crate) fn account_id_is_valid(s: &String) -> (r: bool)
    ensures
        r == valid_account(s@),
{
    near_sdk::env::is_valid_account_id(s.as_bytes())
}

} // verus!
