use vstd::prelude::*;

verus! {

/// Relies on `chrono::Utc::now` and `chrono::DateTime::timestamp`: the current
/// wall-clock time as whole seconds since the Unix epoch. Nothing can be
/// promised of a clock reading, so nothing is.
#[verifier::external_body]
pub fn now_unix_seconds() -> i64 {
    chrono::Utc::now().timestamp()
}

} // verus!
