//! The one place where the ledger reads a clock. Everything that depends
//! on the current time takes it as an argument, so that only this
//! function is unverified.

use vstd::prelude::*;

verus! {

/// Relies on chrono's `Utc::now`: seconds since the Unix epoch. Nothing
/// is promised of the value; callers state what holds for every reading.
#[verifier::external_body]
pub fn now_seconds() -> i64 {
    chrono::Utc::now().timestamp()
}

} // verus!
