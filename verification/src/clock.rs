//! Timestamps for records and file names.
//!
//! What the clock returns depends on the moment of the call, so nothing can
//! be promised of these results.

use vstd::prelude::*;

verus! {

/// Relies on chrono's `Utc::now` and `to_rfc3339`: the current time as an
/// ISO-8601 timestamp. The result depends on the clock, so nothing is
/// promised of it.
#[verifier::external_body]
pub fn now_rfc3339() -> String {
    chrono::Utc::now().to_rfc3339()
}

/// Relies on chrono's `Utc::now` and `format`: the current time compacted
/// for use in a file name. The result depends on the clock, so nothing is
/// promised of it.
#[verifier::external_body]
pub fn now_compact() -> String {
    chrono::Utc::now().format("%Y%m%d_%H%M%S").to_string()
}

} // verus!
