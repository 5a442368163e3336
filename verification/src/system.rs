//! What the library takes from outside itself: random identifiers and the
//! time of day. Nothing here is proved; each contract claims of the outside
//! function only what holds whatever it returns.

use vstd::prelude::*;

verus! {

/// `uuid::Uuid::new_v4` draws a random identifier, and its `to_string` writes
/// it as 32 hexadecimal digits in five groups with hyphens between them, 36
/// characters in all. Which identifier comes out is not known, nor that it
/// differs from one drawn before. The call fails only where the system
/// gives no random bytes.
#[verifier::external_body]
pub(crate) fn fresh_id() -> (id: String)
    ensures
        id@.len() == 36,
{
    uuid::Uuid::new_v4().to_string()
}

/// `chrono::Utc::now` reads the clock and `to_rfc3339` writes the instant as
/// text; nothing is claimed of the text. The call fails only where the clock
/// stands before the year 1970.
#[verifier::external_body]
pub(crate) fn timestamp_now() -> (now: String) {
    chrono::Utc::now().to_rfc3339()
}

} // verus!
