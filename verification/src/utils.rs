//! Identifier and clock utilities.
//!
//! Generated identifiers are canonical 128-bit identifiers in hyphenated
//! lower-case text form; timestamps are UTC milliseconds.

use vstd::prelude::*;

verus! {

/// A lower-case hexadecimal digit.
pub open spec fn is_hex_lower(c: char) -> bool {
    (48 <= c as u32 && c as u32 <= 57) || (97 <= c as u32 && c as u32 <= 102)
}

/// Canonical identifier text: 36 characters, hyphens at positions
/// 8, 13, 18 and 23, lower-case hexadecimal digits everywhere else.
pub open spec fn is_uuid_text(s: Seq<char>) -> bool {
    &&& s.len() == 36
    &&& forall|i: int|
        0 <= i < 36 ==> (if i == 8 || i == 13 || i == 18 || i == 23 {
            s[i] == '-'
        } else {
            is_hex_lower(#[trigger] s[i])
        })
}

/// Relies on `uuid::Uuid::new_v4` and its `Display` form: a fresh random
/// identifier rendered as 36 hyphenated lower-case hexadecimal characters.
/// The identifier is random, so nothing is promised beyond its shape.
#[verifier::external_body]
pub fn generate_id() -> (r: String)
    ensures
        is_uuid_text(r@),
{
    uuid::Uuid::new_v4().to_string()
}

/// Relies on `chrono::Utc::now`: the wall clock, as milliseconds since the
/// Unix epoch. The clock is outside the program, so nothing is promised
/// about the value.
#[verifier::external_body]
pub(crate) fn now_millis() -> (r: i64) {
    chrono::Utc::now().timestamp_millis()
}

/// Check a caller-supplied identifier at the edge: a malformed one is
/// rejected before it reaches a repository, with its own error kind.
pub fn parse_id(s: &str) -> (r: Result<String, crate::err::RepoError>)
    ensures
        match r {
            Result::Ok(t) => is_uuid_text(s@) && t@ == s@,
            Result::Err(e) => !is_uuid_text(s@) && e == crate::err::RepoError::InvalidIdentifier,
        },
{
    if validate_uuid_text(s) {
        Result::Ok(String::from_str(s))
    } else {
        Result::Err(crate::err::RepoError::InvalidIdentifier)
    }
}

/// Does a caller-supplied identifier have the canonical text form?
pub fn validate_uuid_text(s: &str) -> (r: bool)
    ensures
        r == is_uuid_text(s@),
{
    let n = s.unicode_len();
    if n != 36 {
        return false;
    }
    let mut i: usize = 0;
    while i < 36
        invariant
            i <= 36,
            n == s@.len(),
            n == 36,
            forall|k: int|
                0 <= k < i ==> (if k == 8 || k == 13 || k == 18 || k == 23 {
                    s@[k] == '-'
                } else {
                    is_hex_lower(#[trigger] s@[k])
                }),
        decreases 36 - i,
    {
        let c = s.get_char(i);
        if i == 8 || i == 13 || i == 18 || i == 23 {
            if c != '-' {
                return false;
            }
        } else {
            let x = c as u32;
            if !((48 <= x && x <= 57) || (97 <= x && x <= 102)) {
                return false;
            }
        }
        i = i + 1;
    }
    true
}

} // verus!
