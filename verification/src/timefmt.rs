//! Calendar parsing and rendering, delegated to `chrono` behind trusted
//! wrappers.
//!
//! Each wrapper converts between plain values (UTC seconds, days since the
//! Unix epoch, text) and chrono's calendar types; what the text of a calendar
//! rendering or the result of a parse is, is named by an uninterpreted
//! function of the wrapper's arguments, since it depends on them alone.

use vstd::prelude::*;

verus! {

/// The timestamp, in whole UTC seconds, that the relaxed-RFC3339 parser
/// accepts `s` as, if any.
pub uninterp spec fn rfc3339_parse(s: Seq<char>) -> Option<int>;

/// Relies on `str::parse::<chrono::DateTime<chrono::Utc>>` (a relaxed RFC3339
/// form with an offset) and `DateTime::timestamp`: the result is a function
/// of the text alone; sub-second digits, when present, are truncated away by
/// `timestamp`. chrono's calendar spans the years -262143 to 262142, so the
/// timestamp stays within 8.4e12 seconds of the epoch.
#[verifier::external_body]
pub fn parse_rfc3339_utc(s: &str) -> (r: Option<i64>)
    ensures
        match r {
            Some(t) => rfc3339_parse(s@) == Some(t as int) && -8_400_000_000_000 <= t
                <= 8_400_000_000_000,
            None => rfc3339_parse(s@) is None,
        },
{
    match s.parse::<chrono::DateTime<chrono::Utc>>() {
        Ok(dt) => Some(dt.timestamp()),
        Err(_) => None,
    }
}

/// The day number (days since the Unix epoch) that `%Y-%m-%d` parsing
/// accepts `s` as, if any.
pub uninterp spec fn ymd_parse(s: Seq<char>) -> Option<int>;

/// Relies on `chrono::NaiveDate::parse_from_str` with the `%Y-%m-%d` format
/// and `NaiveDate::signed_duration_since` from the epoch date: the result is
/// a function of the text alone. chrono's calendar spans the years -262143
/// to 262142, so the day number stays within 100 million days of the epoch.
#[verifier::external_body]
pub fn parse_ymd_date(s: &str) -> (r: Option<i64>)
    ensures
        match r {
            Some(d) => ymd_parse(s@) == Some(d as int) && -100_000_000 <= d <= 100_000_000,
            None => ymd_parse(s@) is None,
        },
{
    let epoch = chrono::NaiveDate::from_ymd_opt(1970, 1, 1)?;
    match chrono::NaiveDate::parse_from_str(s, "%Y-%m-%d") {
        Ok(d) => Some(d.signed_duration_since(epoch).num_days()),
        Err(_) => None,
    }
}

/// The RFC3339 text of the instant `secs` whole UTC seconds from the epoch,
/// when chrono's calendar can hold it.
pub uninterp spec fn rfc3339_render(secs: int) -> Option<Seq<char>>;

/// Relies on `chrono::DateTime::from_timestamp` and `DateTime::to_rfc3339`:
/// the text is a function of the timestamp alone, and `from_timestamp` is
/// `Some` for every timestamp within 8e12 seconds of the epoch (chrono's
/// calendar spans the years -262143 to 262142).
#[verifier::external_body]
pub fn rfc3339_utc_string(secs: i64) -> (r: Option<String>)
    ensures
        match r {
            Some(t) => rfc3339_render(secs as int) == Some(t@),
            None => rfc3339_render(secs as int) is None,
        },
        -8_000_000_000_000 <= secs <= 8_000_000_000_000 ==> r is Some,
{
    match chrono::DateTime::from_timestamp(secs, 0) {
        Some(dt) => Some(dt.to_rfc3339()),
        None => None,
    }
}

/// The `YYYY-MM-DD` text of the calendar date holding the instant `secs`
/// whole UTC seconds from the epoch, when chrono's calendar can hold it.
pub uninterp spec fn date_render(secs: int) -> Option<Seq<char>>;

/// Relies on `chrono::DateTime::from_timestamp`, `DateTime::date_naive` and
/// `NaiveDate`'s `Display` (ISO 8601 `YYYY-MM-DD`): the text is a function of
/// the timestamp alone, and `from_timestamp` is `Some` for every timestamp
/// within 8e12 seconds of the epoch (chrono's calendar spans the years
/// -262143 to 262142).
#[verifier::external_body]
pub fn date_ymd_string(secs: i64) -> (r: Option<String>)
    ensures
        match r {
            Some(t) => date_render(secs as int) == Some(t@),
            None => date_render(secs as int) is None,
        },
        -8_000_000_000_000 <= secs <= 8_000_000_000_000 ==> r is Some,
{
    match chrono::DateTime::from_timestamp(secs, 0) {
        Some(dt) => Some(dt.date_naive().to_string()),
        None => None,
    }
}

} // verus!
