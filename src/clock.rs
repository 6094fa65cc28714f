//! Fresh ids and the current time, from the outside crates that provide them.
use vstd::prelude::*;

verus! {

/// Relies on `uuid::Uuid::now_v7`: a new time-ordered UUID, handed on as its
/// 128-bit value. Nothing is promised about the value.
#[verifier::external_body]
pub(crate) fn fresh_id() -> (r: u128) {
    uuid::Uuid::now_v7().as_u128()
}

/// Relies on `chrono::Utc::now` and `DateTime::timestamp_millis`: the current
/// time in milliseconds since the Unix epoch. Nothing is promised about the value.
#[verifier::external_body]
pub(crate) fn now_millis() -> (r: i64) {
    chrono::Utc::now().timestamp_millis()
}

} // verus!
