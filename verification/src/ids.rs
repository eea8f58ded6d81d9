//! Fresh random identifiers, made by the `uuid` crate.
use vstd::prelude::*;

verus! {

pub open spec fn is_lower_hex(c: char) -> bool {
    ('0' <= c <= '9') || ('a' <= c <= 'f')
}

/// The shape of `Uuid::to_string`: 36 characters, lower-case hex digits in groups of
/// 8-4-4-4-12 separated by hyphens.
pub open spec fn is_hyphenated_uuid(s: Seq<char>) -> bool {
    &&& s.len() == 36
    &&& forall|i: int|
        0 <= i < 36 ==> if i == 8 || i == 13 || i == 18 || i == 23 {
            #[trigger] s[i] == '-'
        } else {
            is_lower_hex(s[i])
        }
}

/// A random (version 4) UUID, hyphenated: `uuid::Uuid::new_v4().to_string()`. The contract
/// states the text format that `uuid` documents and writes; the digits are random.
#[verifier::external_body]
pub(crate) fn new_uuid() -> (res: String)
    ensures
        is_hyphenated_uuid(res@),
{
    uuid::Uuid::new_v4().to_string()
}

/// A random (version 4) UUID without hyphens: `uuid::Uuid::new_v4().simple().to_string()`,
/// 32 lower-case hex digits. The contract states that format only; the digits are random.
#[verifier::external_body]
pub(crate) fn new_simple_uuid() -> (res: String)
    ensures
        res@.len() == 32,
        forall|i: int| 0 <= i < 32 ==> is_lower_hex(#[trigger] res@[i]),
{
    uuid::Uuid::new_v4().simple().to_string()
}

} // verus!
