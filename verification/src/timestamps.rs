//! Modification times as the providers report them, turned into the RFC 3339
//! text that remote metadata carries.
use vstd::prelude::*;
use chrono::TimeZone;
use crate::urls::opt_view;

verus! {

/// The RFC 3339 text of the UTC time `secs` seconds and `nanos`
/// nanoseconds after the Unix epoch, when chrono can hold that time.
pub uninterp spec fn utc_timestamp_text(secs: i64, nanos: u32) -> Option<Seq<char>>;

/// The first second of year 1 and the last of year 9999, counted from the
/// Unix epoch.
pub open spec fn in_calendar_range(secs: i64) -> bool {
    -62135596800 <= secs <= 253402300799
}

/// `chrono::Utc.timestamp_opt(secs, nanos).single()` and `to_rfc3339` of
/// the result. chrono holds every time from year 1 to year 9999 with fewer
/// than 10^9 nanoseconds; the text's layout is not stated here.
#[verifier::external_body]
fn utc_timestamp(secs: i64, nanos: u32) -> (r: Option<String>)
    ensures
        opt_view(r) == utc_timestamp_text(secs, nanos),
        in_calendar_range(secs) && nanos < 1_000_000_000 ==> r is Some,
{
    chrono::Utc.timestamp_opt(secs, nanos).single().map(|time| time.to_rfc3339())
}

/// The modification time of an SFTP entry, from its time since the Unix
/// epoch (whole seconds, read as a signed count, and nanoseconds); none
/// where the server gave none or chrono cannot hold it.
pub fn sftp_modified_time(since_epoch: Option<(u64, u32)>) -> (r: Option<String>)
    ensures
        match since_epoch {
            None => r is None,
            Some((secs, nanos)) => opt_view(r) == utc_timestamp_text(secs as i64, nanos),
        },
{
    match since_epoch {
        None => None,
        Some((secs, nanos)) => utc_timestamp(secs as i64, nanos),
    }
}

/// The modification time of an S3 object, from its seconds and nanoseconds
/// since the Unix epoch; none where the listing gave none or chrono cannot
/// hold it.
pub fn s3_modified_time(last_modified: Option<(i64, u32)>) -> (r: Option<String>)
    ensures
        match last_modified {
            None => r is None,
            Some((secs, nanos)) => opt_view(r) == utc_timestamp_text(secs, nanos),
        },
        (last_modified matches Some(t) && in_calendar_range(t.0) && t.1 < 1_000_000_000) ==> r is Some,
{
    match last_modified {
        None => None,
        Some((secs, nanos)) => utc_timestamp(secs, nanos),
    }
}

/// The RFC 3339 text, in UTC, of a time written as RFC 2822 text, when
/// chrono reads it as one.
pub uninterp spec fn rfc2822_utc_text(text: Seq<char>) -> Option<Seq<char>>;

/// `chrono::DateTime::parse_from_rfc2822`, then `with_timezone(&Utc)` and
/// `to_rfc3339`: `None` where the text is not an RFC 2822 time. Which texts
/// are read is not stated here.
#[verifier::external_body]
pub(crate) fn rfc2822_as_utc(text: &str) -> (r: Option<String>)
    ensures
        opt_view(r) == rfc2822_utc_text(text@),
{
    chrono::DateTime::parse_from_rfc2822(text).ok().map(|time| time.with_timezone(&chrono::Utc).to_rfc3339())
}

} // verus!
