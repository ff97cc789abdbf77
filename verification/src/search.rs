//! Term search over insights: the options a search takes, its date filters,
//! exact term matching, and how results are ranked.

use vstd::prelude::*;
use crate::insight::Insight;
use crate::text::{
    chars_eq, chars_of, extend, find, find_from, lemma_find_from, lowercase, occurs_at,
    occurs_at_exec, string_of, to_lowercase, utf8_len, utf8_len_exec,
};
use crate::timestamp::{
    Timestamp, checked_months_before, checked_seconds_before, chrono_max_secs, chrono_min_secs, in_chrono_range,
    months_before, now,
    parse_rfc3339, parse_ymd_day_start, rfc3339_instant, seconds_before, ts_le, ts_le_exec,
    ymd_day_start,
};

verus! {

broadcast use vstd::string::group_string_axioms;

/// The order results are returned in.
#[derive(Debug, Clone, Copy, PartialEq, Eq, Structural)]
pub enum SearchSort {
    /// Pinned insights first, then the highest score first.
    Relevance,
    /// Most recently updated first.
    Updated,
    /// Most recently created first.
    Created,
    /// Least retrieved and surfaced first.
    LeastAccessed,
}

/// How many results a search returns when not told.
pub const DEFAULT_MAX_RESULTS: usize = 10;

/// A search as a client asks for it.
pub struct SearchRequest {
    pub terms: Vec<String>,
    pub topic: Option<String>,
    pub case_sensitive: bool,
    pub overview_only: bool,
    pub exact: bool,
    pub semantic: bool,
    pub sort: SearchSort,
    pub since: Option<String>,
    pub until: Option<String>,
    pub max_results: Option<i32>,
    /// Terms whose presence rules an insight out.
    pub exclude: Vec<String>,
}

/// A search as the command line asks for it.
pub struct SearchCommandOptions {
    pub topic: Option<String>,
    pub case_sensitive: bool,
    pub overview_only: bool,
    pub exact: bool,
    pub semantic: bool,
    pub sort: SearchSort,
    pub since: Option<String>,
    pub until: Option<String>,
    pub max_results: i32,
    /// Terms whose presence rules an insight out.
    pub exclude: Vec<String>,
}

/// A search, ready to run.
pub struct SearchOptions {
    pub topic: Option<String>,
    pub case_sensitive: bool,
    pub overview_only: bool,
    pub exact: bool,
    pub semantic: bool,
    pub sort: SearchSort,
    pub since: Option<Timestamp>,
    pub until: Option<Timestamp>,
    /// `None` for no limit.
    pub max_results: Option<usize>,
    /// Terms whose presence rules an insight out.
    pub exclude: Vec<String>,
}

impl SearchOptions {
    /// Every insight, case-insensitively, over overview and details, by exact
    /// and lexical matching, by relevance, dated any time, ten results at most,
    /// none excluded.
    pub fn default_options() -> (r: SearchOptions)
        ensures
            r.topic is None,
            !r.case_sensitive,
            !r.overview_only,
            !r.exact,
            !r.semantic,
            r.sort == SearchSort::Relevance,
            r.since is None,
            r.until is None,
            r.max_results == Some(DEFAULT_MAX_RESULTS),
            r.exclude@.len() == 0,
    {
        SearchOptions {
            topic: None,
            case_sensitive: false,
            overview_only: false,
            exact: false,
            semantic: false,
            sort: SearchSort::Relevance,
            since: None,
            until: None,
            max_results: Some(DEFAULT_MAX_RESULTS),
            exclude: Vec::new(),
        }
    }
}

impl Default for SearchOptions {
    /// The options of [`SearchOptions::default_options`].
    fn default() -> (r: SearchOptions)
        ensures
            r.topic is None,
            !r.case_sensitive,
            !r.overview_only,
            !r.exact,
            !r.semantic,
            r.sort == SearchSort::Relevance,
            r.since is None,
            r.until is None,
            r.max_results == Some(DEFAULT_MAX_RESULTS),
            r.exclude@.len() == 0,
    {
        SearchOptions::default_options()
    }
}

/// The result limit a request's maximum asks for: a negative one for none,
/// none given for the default.
pub open spec fn max_results_spec(value: Option<i32>) -> Option<usize> {
    match value {
        Some(n) => if n < 0 {
            None
        } else {
            Some(n as usize)
        },
        None => Some(DEFAULT_MAX_RESULTS),
    }
}

/// The result limit a request's maximum asks for.
pub fn parse_max_results(value: Option<i32>) -> (r: Option<usize>)
    ensures
        r == max_results_spec(value),
{
    match value {
        Some(n) => if n < 0 {
            None
        } else {
            Some(n as usize)
        },
        None => Some(DEFAULT_MAX_RESULTS),
    }
}

/// Why a date filter could not be read.
#[derive(Debug, PartialEq, Eq)]
pub enum DateFilterError {
    /// The number in a relative date does not fit in 32 bits.
    AmountTooLarge,
    /// A relative date in years is more months than fit in 32 bits.
    YearTooLarge(String),
    /// A relative date lands outside the range of dates.
    OutOfRange(String),
    /// The text is no date the filter understands.
    Invalid(String),
}

impl DateFilterError {
    /// The message the error is reported with.
    pub fn message(&self) -> (r: String)
        ensures
            *self == DateFilterError::AmountTooLarge ==> r@
                == "number too large to fit in target type"@,
            self matches DateFilterError::YearTooLarge(i) ==> r@
                == "Relative year value is too large: "@ + i@,
            self matches DateFilterError::OutOfRange(i) ==> r@ == "Relative date is out of range: "@
                + i@,
            self matches DateFilterError::Invalid(i) ==> r@ == "Invalid date '"@ + i@
                + "'. Use YYYY-MM-DD, RFC3339, or relative values like 7d, 16h, 20m, 1M, or 1Y"@,
    {
        match self {
            DateFilterError::AmountTooLarge => "number too large to fit in target type".to_string(),
            DateFilterError::YearTooLarge(i) => {
                let mut out = chars_of("Relative year value is too large: ");
                extend(&mut out, chars_of(i.as_str()).as_slice());
                string_of(out.as_slice())
            },
            DateFilterError::OutOfRange(i) => {
                let mut out = chars_of("Relative date is out of range: ");
                extend(&mut out, chars_of(i.as_str()).as_slice());
                string_of(out.as_slice())
            },
            DateFilterError::Invalid(i) => {
                let mut out = chars_of("Invalid date '");
                extend(&mut out, chars_of(i.as_str()).as_slice());
                extend(
                    &mut out,
                    chars_of(
                        "'. Use YYYY-MM-DD, RFC3339, or relative values like 7d, 16h, 20m, 1M, or 1Y",
                    ).as_slice(),
                );
                string_of(out.as_slice())
            },
        }
    }
}

/// Whether a character is an ASCII digit.
pub open spec fn is_digit(c: char) -> bool {
    '0' <= c && c <= '9'
}

/// The number a string of ASCII digits spells in decimal.
pub open spec fn decimal_value(ds: Seq<char>) -> nat
    decreases ds.len(),
{
    if ds.len() == 0 {
        0
    } else {
        decimal_value(ds.drop_last()) * 10 + (ds.last() as nat - '0' as nat) as nat
    }
}

/// Whether text is at least two bytes long in UTF-8.
pub open spec fn at_least_two_bytes(s: Seq<char>) -> bool {
    utf8_len(s) >= 2
}

/// Where `str::split_at(len - 1)` does not panic: the last character is one
/// byte long.
pub open spec fn splits_before_last_byte(s: Seq<char>) -> bool {
    !at_least_two_bytes(s) || (s.len() > 0 && (s.last() as u32) < 0x80)
}

/// How many seconds a relative date's unit is, for the units that are a fixed
/// length of time.
pub open spec fn unit_seconds(unit: char) -> int {
    if unit == 'm' {
        60
    } else if unit == 'h' {
        3600
    } else if unit == 'd' {
        86400
    } else if unit == 'w' {
        604800
    } else {
        0
    }
}

/// What a relative date (`20m`, `16h`, `7d`, `2w`, `1M`, `1Y`) comes to,
/// given `now` and what chrono makes of the calendar and of its range.
///
/// Text of fewer than two bytes, or not digits followed by one character, is
/// no relative date (`Ok(None)`). A number too large for 32 bits is an error,
/// as is a year count whose months do not fit in 32 bits, and a date outside
/// chrono's range of instants. A unit other than those is no relative date.
pub open spec fn relative_date_ok(input: Seq<char>, now: Timestamp, r: Result<Option<Timestamp>, DateFilterError>) -> bool {
    if !at_least_two_bytes(input) {
        r == Ok::<Option<Timestamp>, DateFilterError>(None)
    } else {
        let amount = input.drop_last();
        let unit = input.last();
        if !(forall|i: int| 0 <= i < amount.len() ==> is_digit(#[trigger] amount[i])) {
            r == Ok::<Option<Timestamp>, DateFilterError>(None)
        } else if decimal_value(amount) > u32::MAX {
            r == Err::<Option<Timestamp>, DateFilterError>(DateFilterError::AmountTooLarge)
        } else if unit_seconds(unit) > 0 {
            let secs = decimal_value(amount) * unit_seconds(unit);
            if in_chrono_range(now) && chrono_min_secs() <= now.secs - secs <= chrono_max_secs() {
                r == Ok::<Option<Timestamp>, DateFilterError>(Some(seconds_before(now, secs)))
            } else {
                r matches Err(DateFilterError::OutOfRange(i)) && i@ == input
            }
        } else if unit == 'M' {
            match months_before(now, decimal_value(amount) as u32) {
                Some(t) => r == Ok::<Option<Timestamp>, DateFilterError>(Some(t)),
                None => r matches Err(DateFilterError::OutOfRange(i)) && i@ == input,
            }
        } else if unit == 'Y' {
            if decimal_value(amount) * 12 > u32::MAX {
                r matches Err(DateFilterError::YearTooLarge(i)) && i@ == input
            } else {
                match months_before(now, (decimal_value(amount) * 12) as u32) {
                    Some(t) => r == Ok::<Option<Timestamp>, DateFilterError>(Some(t)),
                    None => r matches Err(DateFilterError::OutOfRange(i)) && i@ == input,
                }
            }
        } else {
            r == Ok::<Option<Timestamp>, DateFilterError>(None)
        }
    }
}

/// Reads digits as a decimal number, when it fits in 32 bits.
fn parse_decimal_u32(ds: &[char]) -> (r: Option<u32>)
    requires
        forall|i: int| 0 <= i < ds@.len() ==> is_digit(#[trigger] ds@[i]),
    ensures
        match r {
            Some(v) => v as nat == decimal_value(ds@),
            None => decimal_value(ds@) > u32::MAX,
        },
{
    let mut value: u64 = 0;
    let mut i: usize = 0;
    while i < ds.len()
        invariant
            i <= ds@.len(),
            forall|j: int| 0 <= j < ds@.len() ==> is_digit(#[trigger] ds@[j]),
            value as nat == decimal_value(ds@.take(i as int)),
            value <= u32::MAX,
        decreases ds@.len() - i,
    {
        let d = (ds[i] as u32 - '0' as u32) as u64;
        proof {
            assert(ds@.take(i + 1).drop_last() =~= ds@.take(i as int));
            assert(ds@.take(i + 1).last() == ds@[i as int]);
        }
        let next = value * 10 + d;
        if next > u32::MAX as u64 {
            proof {
                lemma_decimal_prefix_grows(ds@, i + 1);
            }
            return None;
        }
        value = next;
        i = i + 1;
    }
    proof {
        assert(ds@.take(ds@.len() as int) =~= ds@);
    }
    Some(value as u32)
}

proof fn lemma_decimal_prefix_grows(ds: Seq<char>, k: int)
    requires
        0 <= k <= ds.len(),
        forall|j: int| 0 <= j < ds.len() ==> is_digit(#[trigger] ds[j]),
    ensures
        decimal_value(ds) >= decimal_value(ds.take(k)),
    decreases ds.len() - k,
{
    if k < ds.len() {
        lemma_decimal_prefix_grows(ds, k + 1);
        assert(ds.take(k + 1).drop_last() =~= ds.take(k));
    } else {
        assert(ds.take(k) =~= ds);
    }
}

/// Reads a relative date: a number of minutes (`m`), hours (`h`), days
/// (`d`), weeks (`w`), months (`M`) or years (`Y`) before `now`, which lies
/// outside a leap second (see `Timestamp`).
pub fn parse_relative_date(input: &str, now: Timestamp) -> (r: Result<Option<Timestamp>, DateFilterError>)
    requires
        splits_before_last_byte(input@),
        now.nanos < 1_000_000_000,
    ensures
        relative_date_ok(input@, now, r),
{
    let cs = chars_of(input);
    if utf8_len_exec(cs.as_slice()) < 2 {
        return Ok(None);
    }
    let n = cs.len();
    assert(n > 0);
    let amount = crate::text::slice_vec(cs.as_slice(), 0, n - 1);
    let unit = cs[n - 1];
    assert(amount@ =~= input@.drop_last());
    let mut i: usize = 0;
    while i < amount.len()
        invariant
            i <= amount@.len(),
            amount@ == input@.drop_last(),
            utf8_len(input@) >= 2,
            forall|j: int| 0 <= j < i ==> is_digit(#[trigger] amount@[j]),
        decreases amount@.len() - i,
    {
        if !('0' <= amount[i] && amount[i] <= '9') {
            assert(!is_digit(amount@[i as int]));
            return Ok(None);
        }
        i = i + 1;
    }
    let value = match parse_decimal_u32(amount.as_slice()) {
        Some(v) => v,
        None => return Err(DateFilterError::AmountTooLarge),
    };
    let moved = if unit == 'm' {
        checked_seconds_before(now, value as i64 * 60)
    } else if unit == 'h' {
        checked_seconds_before(now, value as i64 * 3600)
    } else if unit == 'd' {
        checked_seconds_before(now, value as i64 * 86400)
    } else if unit == 'w' {
        checked_seconds_before(now, value as i64 * 604800)
    } else if unit == 'M' {
        checked_months_before(now, value)
    } else if unit == 'Y' {
        match value.checked_mul(12) {
            Some(months) => checked_months_before(now, months),
            None => return Err(DateFilterError::YearTooLarge(string_of(cs.as_slice()))),
        }
    } else {
        return Ok(None);
    };
    match moved {
        Some(t) => Ok(Some(t)),
        None => Err(DateFilterError::OutOfRange(string_of(cs.as_slice()))),
    }
}

/// Where in its day a calendar date filter lands.
#[derive(Debug, Clone, Copy, PartialEq, Eq, Structural)]
pub enum DateBoundary {
    /// 00:00:00.000000000, for a lower bound.
    StartOfDay,
    /// 23:59:59.999999999, for an upper bound.
    EndOfDay,
}

/// The instant a day's boundary falls at, from the instant it starts.
pub open spec fn day_boundary(start: Timestamp, boundary: DateBoundary) -> Timestamp {
    match boundary {
        DateBoundary::StartOfDay => start,
        DateBoundary::EndOfDay => Timestamp { secs: (start.secs + 86399) as i64, nanos: 999_999_999 },
    }
}

/// What a date filter reads as: a relative date; else an RFC 3339 instant;
/// else a `YYYY-MM-DD` day, at its start or its end; else an error.
pub open spec fn date_filter_ok(
    input: Seq<char>,
    now: Timestamp,
    boundary: DateBoundary,
    r: Result<Timestamp, DateFilterError>,
) -> bool {
    exists|rel: Result<Option<Timestamp>, DateFilterError>|
        #![trigger relative_date_ok(input, now, rel)]
        relative_date_ok(input, now, rel) && match rel {
            Err(e) => r == Err::<Timestamp, DateFilterError>(e),
            Ok(Some(t)) => r == Ok::<Timestamp, DateFilterError>(t),
            Ok(None) => match rfc3339_instant(input) {
                Some(t) => r == Ok::<Timestamp, DateFilterError>(t),
                None => match ymd_day_start(input) {
                    Some(start) => r == Ok::<Timestamp, DateFilterError>(day_boundary(start, boundary)),
                    None => r matches Err(DateFilterError::Invalid(i)) && i@ == input,
                },
            },
        }
}

/// Reads a date filter: a relative date, an RFC 3339 instant, or a
/// `YYYY-MM-DD` day taken at the given boundary.
pub fn parse_date_filter(input: &str, now: Timestamp, boundary: DateBoundary) -> (r: Result<Timestamp, DateFilterError>)
    requires
        splits_before_last_byte(input@),
        now.nanos < 1_000_000_000,
    ensures
        date_filter_ok(input@, now, boundary, r),
{
    let rel = parse_relative_date(input, now);
    match rel {
        Err(e) => return Err(e),
        Ok(Some(t)) => return Ok(t),
        Ok(None) => {},
    }
    if let Some(t) = parse_rfc3339(input) {
        return Ok(t);
    }
    match parse_ymd_day_start(input) {
        Some(start) => {
            match boundary {
                DateBoundary::StartOfDay => Ok(start),
                DateBoundary::EndOfDay => Ok(Timestamp { secs: start.secs + 86399, nanos: 999_999_999 }),
            }
        },
        None => Err(DateFilterError::Invalid(string_of(chars_of(input).as_slice()))),
    }
}

/// Whether `str::split_at(len - 1)` can be taken of the text: the check a
/// caller makes before handing text to a date filter.
pub fn splits_before_last_byte_exec(input: &str) -> (r: bool)
    ensures
        r == splits_before_last_byte(input@),
{
    let cs = chars_of(input);
    if utf8_len_exec(cs.as_slice()) < 2 {
        return true;
    }
    cs.len() > 0 && (cs[cs.len() - 1] as u32) < 0x80
}

/// Reads a lower date bound: a `YYYY-MM-DD` day counts from its start.
pub fn parse_since_date_filter(input: &str, now: Timestamp) -> (r: Result<Timestamp, DateFilterError>)
    requires
        splits_before_last_byte(input@),
        now.nanos < 1_000_000_000,
    ensures
        date_filter_ok(input@, now, DateBoundary::StartOfDay, r),
{
    parse_date_filter(input, now, DateBoundary::StartOfDay)
}

/// Reads an upper date bound: a `YYYY-MM-DD` day counts to its end.
pub fn parse_until_date_filter(input: &str, now: Timestamp) -> (r: Result<Timestamp, DateFilterError>)
    requires
        splits_before_last_byte(input@),
        now.nanos < 1_000_000_000,
    ensures
        date_filter_ok(input@, now, DateBoundary::EndOfDay, r),
{
    parse_date_filter(input, now, DateBoundary::EndOfDay)
}

/// Whether an optional filter text can be handed to a date filter.
pub open spec fn filter_text_ok(t: Option<String>) -> bool {
    match t {
        Some(s) => splits_before_last_byte(s@),
        None => true,
    }
}

/// A copy of an optional string.
fn copy_opt(o: &Option<String>) -> (r: Option<String>)
    ensures
        match (r, *o) {
            (Some(a), Some(b)) => a@ == b@,
            (None, None) => true,
            _ => false,
        },
{
    match o {
        Some(s) => Some(string_of(chars_of(s.as_str()).as_slice())),
        None => None,
    }
}

/// Whether two lists of strings hold the same texts, in the same order.
pub open spec fn same_texts(a: Seq<String>, b: Seq<String>) -> bool {
    a.map_values(|s: String| s@) == b.map_values(|s: String| s@)
}

/// A copy of a list of strings.
fn copy_texts(v: &Vec<String>) -> (r: Vec<String>)
    ensures
        same_texts(r@, v@),
{
    let mut out: Vec<String> = Vec::new();
    let mut i: usize = 0;
    while i < v.len()
        invariant
            i <= v@.len(),
            out@.len() == i,
            forall|k: int| 0 <= k < i ==> #[trigger] out@[k]@ == v@[k]@,
        decreases v@.len() - i,
    {
        out.push(string_of(chars_of(v[i].as_str()).as_slice()));
        i = i + 1;
    }
    proof {
        assert(out@.map_values(|s: String| s@) =~= v@.map_values(|s: String| s@));
    }
    out
}

/// Whether two optional strings hold the same text.
pub open spec fn same_opt(a: Option<String>, b: Option<String>) -> bool {
    match (a, b) {
        (Some(x), Some(y)) => x@ == y@,
        (None, None) => true,
        _ => false,
    }
}

/// The options a request's fields come to, with its date filters read as
/// `since` and `until`.
pub open spec fn options_built(
    request: &SearchRequest,
    since: Option<Timestamp>,
    until: Option<Timestamp>,
    r: Result<SearchOptions, DateFilterError>,
) -> bool {
    r matches Ok(o) && {
        &&& same_opt(o.topic, request.topic)
        &&& o.case_sensitive == request.case_sensitive
        &&& o.overview_only == request.overview_only
        &&& o.exact == request.exact
        &&& o.semantic == request.semantic
        &&& o.sort == request.sort
        &&& o.since == since
        &&& o.until == until
        &&& o.max_results == max_results_spec(request.max_results)
        &&& same_texts(o.exclude@, request.exclude@)
    }
}

/// What a request comes to once its lower date bound reads as `since`: its
/// upper bound read in turn, an error there being the result.
pub open spec fn options_after_since(
    request: &SearchRequest,
    now: Timestamp,
    since: Option<Timestamp>,
    r: Result<SearchOptions, DateFilterError>,
) -> bool {
    match request.until {
        Some(u) => exists|ur: Result<Timestamp, DateFilterError>|
            #![trigger date_filter_ok(u@, now, DateBoundary::EndOfDay, ur)]
            date_filter_ok(u@, now, DateBoundary::EndOfDay, ur) && match ur {
                Err(e) => r == Err::<SearchOptions, DateFilterError>(e),
                Ok(t) => options_built(request, since, Some(t), r),
            },
        None => options_built(request, since, None, r),
    }
}

/// What options a request comes to relative to `now`: its lower date bound
/// read first, an error there being the result, then its upper bound.
pub open spec fn options_from(request: &SearchRequest, now: Timestamp, r: Result<SearchOptions, DateFilterError>) -> bool {
    match request.since {
        Some(sv) => exists|sr: Result<Timestamp, DateFilterError>|
            #![trigger date_filter_ok(sv@, now, DateBoundary::StartOfDay, sr)]
            date_filter_ok(sv@, now, DateBoundary::StartOfDay, sr) && match sr {
                Err(e) => r == Err::<SearchOptions, DateFilterError>(e),
                Ok(t) => options_after_since(request, now, Some(t), r),
            },
        None => options_after_since(request, now, None, r),
    }
}

impl SearchOptions {
    /// The options a request asks for, its date filters read relative to
    /// `now`.
    pub fn from_request_at(request: &SearchRequest, now: Timestamp) -> (r: Result<SearchOptions, DateFilterError>)
        requires
            filter_text_ok(request.since),
            filter_text_ok(request.until),
            now.nanos < 1_000_000_000,
        ensures
            options_from(request, now, r),
    {
        let since_t = match &request.since {
            Some(v) => match parse_since_date_filter(v.as_str(), now) {
                Err(e) => return Err(e),
                Ok(t) => Some(t),
            },
            None => None,
        };
        let until_t = match &request.until {
            Some(v) => match parse_until_date_filter(v.as_str(), now) {
                Err(e) => {
                    return Err(e);
                },
                Ok(t) => Some(t),
            },
            None => None,
        };
        Ok(
            SearchOptions {
                topic: copy_opt(&request.topic),
                case_sensitive: request.case_sensitive,
                overview_only: request.overview_only,
                exact: request.exact,
                semantic: request.semantic,
                sort: request.sort,
                since: since_t,
                until: until_t,
                max_results: parse_max_results(request.max_results),
                exclude: copy_texts(&request.exclude),
            },
        )
    }

    /// The options a request asks for, its date filters read relative to the
    /// current time.
    pub fn from_request(request: &SearchRequest) -> (r: Result<SearchOptions, DateFilterError>)
        requires
            filter_text_ok(request.since),
            filter_text_ok(request.until),
        ensures
            exists|now: Timestamp| options_from(request, now, r),
    {
        let t = now();
        Self::from_request_at(request, t)
    }

    /// The options a command line asks for: a request with no terms and its
    /// maximum always given.
    pub fn from_command_options(options: &SearchCommandOptions) -> (r: Result<SearchOptions, DateFilterError>)
        requires
            filter_text_ok(options.since),
            filter_text_ok(options.until),
        ensures
            exists|now: Timestamp, request: SearchRequest|
                {
                    &&& request.terms@.len() == 0
                    &&& same_opt(request.topic, options.topic)
                    &&& request.case_sensitive == options.case_sensitive
                    &&& request.overview_only == options.overview_only
                    &&& request.exact == options.exact
                    &&& request.semantic == options.semantic
                    &&& request.sort == options.sort
                    &&& same_opt(request.since, options.since)
                    &&& same_opt(request.until, options.until)
                    &&& request.max_results == Some(options.max_results)
                    &&& same_texts(request.exclude@, options.exclude@)
                    &&& #[trigger] options_from(&request, now, r)
                },
    {
        let request = SearchRequest {
            terms: Vec::new(),
            topic: copy_opt(&options.topic),
            case_sensitive: options.case_sensitive,
            overview_only: options.overview_only,
            exact: options.exact,
            semantic: options.semantic,
            sort: options.sort,
            since: copy_opt(&options.since),
            until: copy_opt(&options.until),
            max_results: Some(options.max_results),
            exclude: copy_texts(&options.exclude),
        };
        Self::from_request(&request)
    }
}

} // verus!
