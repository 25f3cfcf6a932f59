//! Relative time ranges such as `3d`, `24h` or `90m`.
use vstd::prelude::*;
use vstd::string::*;
use crate::text::{parse_i64, parsed_i64};

verus! {

broadcast use vstd::string::group_string_axioms;

/// The two capture groups of the first match of `(\d+)([dhm])` in `text`, as the `regex`
/// crate finds it.
pub uninterp spec fn time_range_match(text: Seq<char>) -> Option<(Seq<char>, Seq<char>)>;

/// Finds the first match of `(\d+)([dhm])` in `text` with the `regex` crate and returns its two
/// groups. Claims that the result depends on `text` alone and, as the pattern says, that the
/// first group is not empty and the second is one of `d`, `h` and `m`.
#[verifier::external_body]
fn time_range_captures(text: &str) -> (r: Option<(String, String)>)
    ensures
        match r {
            Some((amount, unit)) => {
                &&& time_range_match(text@) == Some((amount@, unit@))
                &&& amount@.len() > 0
                &&& (unit@ == "d"@ || unit@ == "h"@ || unit@ == "m"@)
            },
            None => time_range_match(text@) is None,
        },
{
    let re = regex::Regex::new(r"(\d+)([dhm])").expect("the time range pattern is valid");
    let caps = re.captures(text)?;
    Some((caps.get(1)?.as_str().to_string(), caps.get(2)?.as_str().to_string()))
}

/// The earliest Unix timestamp `chrono` represents (`DateTime::<Utc>::MIN_UTC`,
/// -262143-01-01T00:00:00Z).
pub const MIN_TIMESTAMP: i64 = -8334601228800;

/// The latest Unix timestamp `chrono` represents (`DateTime::<Utc>::MAX_UTC`, to the second,
/// +262142-12-31T23:59:59Z).
pub const MAX_TIMESTAMP: i64 = 8210266876799;

/// The longest duration `chrono`'s `TimeDelta` holds, in whole seconds (`i64::MAX / 1000`).
pub const MAX_DELTA_SECONDS: i64 = 9223372036854775;

/// A timestamp that `chrono` represents.
pub open spec fn representable(ts: int) -> bool {
    MIN_TIMESTAMP <= ts <= MAX_TIMESTAMP
}

/// The current time as a Unix timestamp in seconds (`chrono::Local::now().timestamp()`).
/// Claims only what holds of every reading: `Utc::now` panics on a clock before 1970, and a
/// `DateTime` lies within `chrono`'s range. Which time it is, is the clock's.
#[verifier::external_body]
fn now_timestamp() -> (t: i64)
    ensures
        0 <= t <= MAX_TIMESTAMP,
{
    chrono::Local::now().timestamp()
}

/// Moves the timestamp `ts` back by `secs` seconds with `chrono` (`DateTime::from_timestamp`,
/// `TimeDelta::try_seconds`, `DateTime::checked_sub_signed`). Claims, as `chrono` documents,
/// that it succeeds exactly when `ts`, the duration and the result are within `chrono`'s
/// ranges, and then gives the timestamp `secs` seconds earlier.
#[verifier::external_body]
fn seconds_before(ts: i64, secs: i64) -> (r: Option<i64>)
    ensures
        r == (if representable(ts as int) && -MAX_DELTA_SECONDS <= secs <= MAX_DELTA_SECONDS
            && representable(ts - secs) {
            Some((ts - secs) as i64)
        } else {
            None
        }),
{
    let start = chrono::DateTime::from_timestamp(ts, 0)?;
    let delta = chrono::TimeDelta::try_seconds(secs)?;
    match start.checked_sub_signed(delta) {
        Some(t) => Some(t.timestamp()),
        None => None,
    }
}

/// The length of one `unit` in seconds: a day, an hour or a minute.
pub open spec fn unit_seconds(unit: Seq<char>) -> int {
    if unit == "d"@ {
        86400
    } else if unit == "h"@ {
        3600
    } else {
        60
    }
}

/// The amount of a time range: the digits' value when they parse as `i64`, else 3.
pub open spec fn range_amount(amount: Seq<char>) -> i64 {
    match parsed_i64(amount) {
        Some(v) => v,
        None => 3,
    }
}

/// The error for a range that `chrono` cannot represent.
pub open spec fn out_of_range_text() -> Seq<char> {
    "time range out of range"@
}

/// The start of the time range `amount` `unit`s back from `now`.
pub open spec fn since_outcome(r: Result<i64, String>, now: i64, amount: Seq<char>, unit: Seq<char>) -> bool {
    if !(unit == "d"@ || unit == "h"@ || unit == "m"@) {
        r matches Err(e) && e@ == "invalid time unit: "@ + unit
    } else {
        let secs = range_amount(amount) * unit_seconds(unit);
        if -MAX_DELTA_SECONDS <= secs <= MAX_DELTA_SECONDS && representable(now as int)
            && representable(now - secs) {
            r == Ok::<i64, String>((now - secs) as i64)
        } else {
            r matches Err(e) && e@ == out_of_range_text()
        }
    }
}

/// The timestamp `amount` `unit`s before `now` (`unit` is `d`, `h` or `m`; `amount` is the
/// digits of the range, read as 3 when they are not an `i64`).
pub fn time_range_since(now: i64, amount: &str, unit: &str) -> (r: Result<i64, String>)
    ensures
        since_outcome(r, now, amount@, unit@),
{
    proof {
        reveal_strlit("d");
        reveal_strlit("h");
        reveal_strlit("m");
    }
    let u = unit.to_string();
    let per: i64 = if u == "d".to_string() {
        86400
    } else if u == "h".to_string() {
        3600
    } else if u == "m".to_string() {
        60
    } else {
        let mut e = "invalid time unit: ".to_string();
        e.append(unit);
        return Err(e);
    };
    let value = match parse_i64(amount) {
        Some(v) => v,
        None => 3,
    };
    match value.checked_mul(per) {
        None => Err("time range out of range".to_string()),
        Some(secs) => match seconds_before(now, secs) {
            Some(t) => Ok(t),
            None => Err("time range out of range".to_string()),
        },
    }
}

/// The outcome of reading the time range `time_range` at the time `now`.
pub open spec fn time_range_outcome(r: Result<i64, String>, time_range: Seq<char>, now: i64) -> bool {
    if time_range.len() == 0 {
        r matches Err(e) && e@ == "empty time range"@
    } else {
        match time_range_match(time_range) {
            None => r matches Err(e) && e@ == "invalid time range format: "@ + time_range,
            Some((amount, unit)) => since_outcome(r, now, amount, unit),
        }
    }
}

/// The Unix timestamp at the start of a relative time range such as `3d`, `24h` or `90m`: the
/// first number followed by `d`, `h` or `m` in the text counts back from now.
pub fn parse_time_range(time_range: &str) -> (r: Result<i64, String>)
    ensures
        exists|now: i64| 0 <= now <= MAX_TIMESTAMP && time_range_outcome(r, time_range@, now),
{
    if time_range.is_empty() {
        let r = Err("empty time range".to_string());
        assert(time_range_outcome(r, time_range@, 0));
        return r;
    }
    match time_range_captures(time_range) {
        None => {
            let mut e = "invalid time range format: ".to_string();
            e.append(time_range);
            let r = Err(e);
            assert(time_range_outcome(r, time_range@, 0));
            r
        },
        Some((amount, unit)) => {
            let now = now_timestamp();
            let r = time_range_since(now, amount.as_str(), unit.as_str());
            assert(time_range_outcome(r, time_range@, now));
            r
        },
    }
}

} // verus!
