//! Generation of fresh job identifiers.

use vstd::prelude::*;

use crate::text::is_space_char;

verus! {

/// Relies on `uuid::Uuid::new_v4` and the `Display` impl of `Uuid`: a fresh
/// random version-4 UUID rendered in its hyphenated form, 36 characters,
/// each a hexadecimal digit or a hyphen — so none of them is whitespace.
/// Nothing more is promised of the value: it is random, and the store
/// checks for collisions itself.
#[verifier::external_body]
pub(crate) fn fresh_id() -> (r: String)
    ensures
        r@.len() == 36,
        forall|i: int| 0 <= i < r@.len() ==> !is_space_char(#[trigger] r@[i]),
{
    uuid::Uuid::new_v4().to_string()
}

} // verus!
