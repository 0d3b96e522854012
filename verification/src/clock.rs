//! Wall-clock access for header and metadata timestamps.

use vstd::prelude::*;

verus! {

/// Relies on chrono's `Utc::now`: the current Unix timestamp in seconds.
/// Nothing can be promised of the clock's value.
#[verifier::external_body]
pub(crate) fn current_unix_timestamp() -> i64 {
    chrono::Utc::now().timestamp()
}

} // verus!
