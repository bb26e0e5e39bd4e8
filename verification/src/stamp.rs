//! Reading the signed time stamp of a message, through `chrono`.
use vstd::prelude::*;
use chrono::DateTime;

verus! {

/// The format in which messages write their signed time stamp.
pub const DATE_FMT: &'static str = "%Y %b %d %H:%M:%S%.3f %z";

/// The instant that `DateTime::parse_from_str` reads from `text` in the
/// format `fmt`, as `timestamp()` (whole seconds since the Unix epoch, UTC)
/// and `timestamp_subsec_nanos()`; `None` where it reports an error.
pub uninterp spec fn parsed_instant(text: Seq<char>, fmt: Seq<char>) -> Option<(i64, u32)>;

/// `DateTime::parse_from_str`, its result read as an instant. Two stamps
/// with the same instant compare equal as `DateTime<FixedOffset>`, and
/// instants order as the pairs do.
#[verifier::external_body]
pub(crate) fn parse_instant(text: &str, fmt: &str) -> (r: Option<(i64, u32)>)
    ensures
        r == parsed_instant(text@, fmt@),
{
    match DateTime::parse_from_str(text, fmt) {
        Ok(t) => Some((t.timestamp(), t.timestamp_subsec_nanos())),
        Err(_) => None,
    }
}

} // verus!
