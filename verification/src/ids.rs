//! The one place the library draws fresh identifiers.
//!
//! Version records and share links carry random identifiers in the canonical
//! hyphenated text form; nothing is promised of which identifier comes out,
//! only its length, so every caller is verified for every possible draw.

use vstd::prelude::*;

verus! {

/// Relies on uuid's `Uuid::new_v4` and its `Display` form: a random
/// identifier rendered as the 36-character hyphenated lowercase text.
/// The draw is random, so nothing is promised beyond the length.
#[verifier::external_body]
pub fn new_id() -> (r: String)
    ensures
        r@.len() == 36,
{
    uuid::Uuid::new_v4().to_string()
}

} // verus!
