//! Fresh room identifiers and generated room names.

use vstd::prelude::*;

verus! {

/// A lowercase hexadecimal digit.
pub open spec fn is_hex_digit(c: char) -> bool {
    ('0' <= c && c <= '9') || ('a' <= c && c <= 'f')
}

/// The canonical hyphenated form of a UUID: 36 characters, hyphens at
/// positions 8, 13, 18 and 23, lowercase hex digits everywhere else.
pub open spec fn is_uuid_like(s: Seq<char>) -> bool {
    &&& s.len() == 36
    &&& s[8] == '-'
    &&& s[13] == '-'
    &&& s[18] == '-'
    &&& s[23] == '-'
    &&& forall|i: int|
        0 <= i < 36 && i != 8 && i != 13 && i != 18 && i != 23 ==> is_hex_digit(s[i])
}

/// A generated room display name: the prefix "Room " followed by an
/// eight-character hexadecimal token.
pub open spec fn is_room_name(s: Seq<char>) -> bool {
    &&& s.len() == 13
    &&& s.subrange(0, 5) == "Room "@
    &&& forall|i: int| 5 <= i < 13 ==> is_hex_digit(s[i])
}

/// Relies on uuid::Uuid::new_v4 and its Display form: a fresh random
/// version-4 identifier, rendered as 36 lowercase hexadecimal characters
/// with hyphens at positions 8, 13, 18 and 23.  The value is random, so
/// nothing relates two calls; only the shape is promised.
#[verifier::external_body]
pub(crate) fn fresh_uuid() -> (r: String)
    ensures
        is_uuid_like(r@),
{
    uuid::Uuid::new_v4().to_string()
}

} // verus!
