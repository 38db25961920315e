use vstd::prelude::*;

verus! {

/// Relies on time::OffsetDateTime::now_utc and unix_timestamp: the current
/// moment read from the system clock, as seconds of the Unix epoch. Nothing
/// can be promised of the value; callers state what holds whatever moment
/// comes back.
#[verifier::external_body]
pub(crate) fn now_unix_time() -> i64 {
    time::OffsetDateTime::now_utc().unix_timestamp()
}

} // verus!
