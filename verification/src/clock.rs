//! The time of day, as the text that rows are stamped with.

use vstd::prelude::*;

verus! {

/// Reads the clock with `chrono::Utc::now` and writes the instant with
/// `to_rfc3339`. Trusted, and nothing is claimed of the text: it depends on
/// when the call is made.
#[verifier::external_body]
pub(crate) fn utc_now_text() -> (r: String) {
    chrono::Utc::now().to_rfc3339()
}

} // verus!
