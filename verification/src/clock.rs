use vstd::prelude::*;

verus! {

/// Relies on `chrono::Utc::now` and `DateTime::timestamp`: the present
/// moment as whole seconds since the Unix epoch.  Nothing is promised of a
/// clock reading; every caller must state what holds of its result
/// whatever value came back.
#[verifier::external_body]
pub(crate) fn unix_now() -> i64 {
    chrono::Utc::now().timestamp()
}

} // verus!
