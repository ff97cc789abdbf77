//! Instants in UTC, and the calendar arithmetic the library takes from chrono.

use vstd::prelude::*;

verus! {

/// An instant in UTC: whole seconds since the Unix epoch and the nanoseconds
/// past them (a leap second carries its extra second in `nanos`).
///
/// Date arithmetic relative to an instant (`parse_relative_date` and the date
/// filters) takes only instants outside a leap second, `nanos` below one
/// second: how chrono moves a leap-second instant by whole seconds is not
/// stated here. The clock (`now`) never reads a leap second.
#[derive(Clone, Copy, Debug, PartialEq, Eq, Structural, Hash, PartialOrd, Ord)]
pub struct Timestamp {
    pub secs: i64,
    pub nanos: u32,
}

/// Whether `a` is no later than `b`: the order of instants.
pub open spec fn ts_le(a: Timestamp, b: Timestamp) -> bool {
    a.secs < b.secs || (a.secs == b.secs && a.nanos <= b.nanos)
}

/// Whether `a` is strictly earlier than `b`.
pub open spec fn ts_lt(a: Timestamp, b: Timestamp) -> bool {
    a.secs < b.secs || (a.secs == b.secs && a.nanos < b.nanos)
}

/// `a <= b` on instants.
pub fn ts_le_exec(a: Timestamp, b: Timestamp) -> (r: bool)
    ensures
        r == ts_le(a, b),
{
    a.secs < b.secs || (a.secs == b.secs && a.nanos <= b.nanos)
}

/// `a < b` on instants.
pub fn ts_lt_exec(a: Timestamp, b: Timestamp) -> (r: bool)
    ensures
        r == ts_lt(a, b),
{
    a.secs < b.secs || (a.secs == b.secs && a.nanos < b.nanos)
}

/// The later of two optional instants, an absent one counting as earliest:
/// `Option::max` on `Option<DateTime<Utc>>`.
pub open spec fn later(a: Option<Timestamp>, b: Option<Timestamp>) -> Option<Timestamp> {
    match (a, b) {
        (None, _) => b,
        (Some(_), None) => a,
        (Some(x), Some(y)) => if ts_le(x, y) {
            b
        } else {
            a
        },
    }
}

/// The later of two optional instants.
pub fn later_exec(a: Option<Timestamp>, b: Option<Timestamp>) -> (r: Option<Timestamp>)
    ensures
        r == later(a, b),
{
    match (a, b) {
        (None, _) => b,
        (Some(_), None) => a,
        (Some(x), Some(y)) => if ts_le_exec(x, y) {
            b
        } else {
            a
        },
    }
}

/// 2025-05-01T00:00:00Z, the creation time given to insights written before
/// insights recorded one.
pub open spec fn default_created_at_spec() -> Timestamp {
    Timestamp { secs: 1746057600, nanos: 0 }
}

/// 2025-05-01T00:00:00Z.
pub fn default_created_at() -> (r: Timestamp)
    ensures
        r == default_created_at_spec(),
{
    Timestamp { secs: 1746057600, nanos: 0 }
}

/// The first second of chrono's range of instants, 1 January of year
/// -262143 at 00:00:00 UTC, in seconds since the epoch.
pub open spec fn chrono_min_secs() -> int {
    -8334601315200
}

/// The last second of chrono's range of instants, 31 December of year
/// 262142 at 23:59:59 UTC (any nanoseconds past it included).
pub open spec fn chrono_max_secs() -> int {
    8210266876799
}

/// Whether an instant lies within chrono's range (`NaiveDateTime::MIN` to
/// `NaiveDateTime::MAX`, in UTC).
pub open spec fn in_chrono_range(t: Timestamp) -> bool {
    chrono_min_secs() <= t.secs <= chrono_max_secs()
}

/// The instant `secs` seconds before `t`.
pub open spec fn seconds_before(t: Timestamp, secs: int) -> Timestamp {
    Timestamp { secs: (t.secs - secs) as i64, nanos: t.nanos }
}

/// What chrono's `checked_sub_months` makes of an instant: the same wall
/// time `months` calendar months earlier, clamped to the end of a shorter
/// month, or nothing outside chrono's range.
pub uninterp spec fn months_before(t: Timestamp, months: u32) -> Option<Timestamp>;

/// What `DateTime::parse_from_rfc3339` reads from text, as an instant in UTC.
pub uninterp spec fn rfc3339_instant(s: Seq<char>) -> Option<Timestamp>;

/// The start, at 00:00:00 UTC, of the calendar day `NaiveDate::parse_from_str`
/// reads from text in the format `%Y-%m-%d`.
pub uninterp spec fn ymd_day_start(s: Seq<char>) -> Option<Timestamp>;

/// The current time: `Utc::now()`.
///
/// Stated: the instant lies in chrono's range (every `DateTime` does) and
/// its nanoseconds are below a second (it is read from `SystemTime`, which
/// has no leap seconds). Not stated: which instant, which the clock decides.
#[verifier::external_body]
pub(crate) fn now() -> (r: Timestamp)
    ensures
        in_chrono_range(r),
        r.nanos < 1_000_000_000,
{
    let t = chrono::Utc::now();
    Timestamp { secs: t.timestamp(), nanos: t.timestamp_subsec_nanos() }
}

/// `DateTime::checked_sub_signed` by a whole number of seconds.
///
/// Stated: a result is `secs` seconds before `t`, and there is one exactly
/// when `t` and that instant both lie in chrono's range (`from_timestamp` and
/// `checked_sub_signed` fail only outside it).
#[verifier::external_body]
pub(crate) fn checked_seconds_before(t: Timestamp, secs: i64) -> (r: Option<Timestamp>)
    requires
        t.nanos < 1_000_000_000,
        -9_000_000_000_000_000 <= secs <= 9_000_000_000_000_000,
    ensures
        r matches Some(x) ==> x == seconds_before(t, secs as int),
        r is Some <==> (in_chrono_range(t) && chrono_min_secs() <= t.secs - secs <= chrono_max_secs()),
{
    let dt = chrono::DateTime::<chrono::Utc>::from_timestamp(t.secs, t.nanos)?;
    let moved = dt.checked_sub_signed(chrono::TimeDelta::seconds(secs))?;
    Some(Timestamp { secs: moved.timestamp(), nanos: moved.timestamp_subsec_nanos() })
}

/// `DateTime::checked_sub_months`.
#[verifier::external_body]
pub(crate) fn checked_months_before(t: Timestamp, months: u32) -> (r: Option<Timestamp>)
    ensures
        r == months_before(t, months),
{
    let dt = chrono::DateTime::<chrono::Utc>::from_timestamp(t.secs, t.nanos)?;
    let moved = dt.checked_sub_months(chrono::Months::new(months))?;
    Some(Timestamp { secs: moved.timestamp(), nanos: moved.timestamp_subsec_nanos() })
}

/// `DateTime::parse_from_rfc3339`, converted to UTC.
#[verifier::external_body]
pub(crate) fn parse_rfc3339(s: &str) -> (r: Option<Timestamp>)
    ensures
        r == rfc3339_instant(s@),
{
    let dt = chrono::DateTime::parse_from_rfc3339(s).ok()?;
    Some(Timestamp { secs: dt.timestamp(), nanos: dt.timestamp_subsec_nanos() })
}

/// `NaiveDate::parse_from_str(s, "%Y-%m-%d")`, as the instant its day starts
/// in UTC.
///
/// Stated besides: the day lies within chrono's range of dates, years
/// -262143 to 262142, whose starts are well within ten trillion seconds of
/// the epoch.
#[verifier::external_body]
pub(crate) fn parse_ymd_day_start(s: &str) -> (r: Option<Timestamp>)
    ensures
        r == ymd_day_start(s@),
        r is Some ==> -10_000_000_000_000 <= r->0.secs <= 10_000_000_000_000 && r->0.nanos == 0,
{
    let date = chrono::NaiveDate::parse_from_str(s, "%Y-%m-%d").ok()?;
    let start = date.and_hms_opt(0, 0, 0)?.and_utc();
    Some(Timestamp { secs: start.timestamp(), nanos: start.timestamp_subsec_nanos() })
}

} // verus!
