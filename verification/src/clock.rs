//! The one place the library reads the wall clock.
//!
//! Every service that needs the current time calls through here once and then
//! hands the value to functions whose contracts are exact in it, so the
//! time-dependent behaviour is verified for every possible reading.

use vstd::prelude::*;

verus! {

/// Relies on chrono's `Utc::now` and `DateTime::timestamp`: the current wall
/// clock as whole seconds since the Unix epoch. Nothing is promised of the
/// value; the clock may move backwards between two calls. `Utc::now` itself
/// requires a host clock no earlier than the epoch — an environmental
/// precondition of the process, like a working random source.
#[verifier::external_body]
pub fn now_seconds() -> i64 {
    chrono::Utc::now().timestamp()
}

} // verus!
