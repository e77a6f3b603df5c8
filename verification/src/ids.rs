//! Fresh identifiers for records created in the editor.
use vstd::prelude::*;

verus! {

/// A lower-case hexadecimal digit.
pub open spec fn is_lower_hex(c: char) -> bool {
    ('0' <= c && c <= '9') || ('a' <= c && c <= 'f')
}

/// The hyphenated text form of a random (version 4, RFC 4122 variant) UUID:
/// 36 characters, hyphens at positions 8, 13, 18 and 23, lower-case hex digits
/// elsewhere, a `4` at position 14 and one of `8`, `9`, `a`, `b` at position 19.
pub open spec fn is_random_uuid_text(s: Seq<char>) -> bool {
    &&& s.len() == 36
    &&& forall|k: int|
        0 <= k < 36 ==> if k == 8 || k == 13 || k == 18 || k == 23 {
            #[trigger] s[k] == '-'
        } else {
            is_lower_hex(s[k])
        }
    &&& s[14] == '4'
    &&& (s[19] == '8' || s[19] == '9' || s[19] == 'a' || s[19] == 'b')
}

/// Calls `uuid::Uuid::new_v4` and formats the result with its `Display` impl.
/// Claimed: the text has the hyphenated form of a version 4 UUID (`new_v4` masks
/// the version and variant bits; `Display` writes the 36-character hyphenated
/// lower-case form). Which UUID comes back is random and not stated. `new_v4`
/// panics when the operating system's random source fails; no argument can rule
/// that out, so nothing here excludes it.
#[verifier::external_body]
pub(crate) fn new_uuid_text() -> (s: String)
    ensures
        is_random_uuid_text(s@),
{
    uuid::Uuid::new_v4().to_string()
}

} // verus!
