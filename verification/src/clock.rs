//! The wall clock, read through chrono.

use vstd::prelude::*;

verus! {

/// Seconds since the Unix epoch by the local clock: chrono's `Local::now()`
/// followed by `DateTime::timestamp`.
///
/// The result depends on when the call is made, so nothing is claimed of it.
#[verifier::external_body]
pub(crate) fn local_timestamp() -> (seconds: i64) {
    chrono::Local::now().timestamp()
}

/// Seconds since the Unix epoch by the universal clock: chrono's `Utc::now()`
/// followed by `DateTime::timestamp`.
///
/// The result depends on when the call is made, so nothing is claimed of it.
#[verifier::external_body]
pub(crate) fn utc_timestamp() -> (seconds: i64) {
    chrono::Utc::now().timestamp()
}

/// Whether `tag` is a time tag: twelve digits.
pub open spec fn is_time_tag(tag: Seq<char>) -> bool {
    &&& tag.len() == 12
    &&& forall|i: int| 0 <= i < tag.len() ==> '0' <= #[trigger] tag[i] <= '9'
}

/// The local date and time as year, month, day, hour, minute and second:
/// chrono's `Local::now()` followed by `DateTime::format` with
/// `%y%m%d%H%M%S`.
///
/// Which digits come out depends on when and where the call is made. Each
/// of the six fields is written as two digits, padded with a zero, so the
/// tag is twelve digits at any time.
#[verifier::external_body]
pub(crate) fn local_time_tag() -> (tag: String)
    ensures
        is_time_tag(tag@),
{
    chrono::Local::now().format("%y%m%d%H%M%S").to_string()
}

} // verus!
