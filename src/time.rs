//! Normalisation of epoch timestamps to calendar form.
//!
//! An instant is held as a count of milliseconds since the Unix epoch; chrono
//! renders it as RFC 3339 text and reads the clock.

use vstd::prelude::*;
use chrono::{SecondsFormat, TimeZone, Utc};

verus! {

/// Earliest instant chrono can represent: January 1 of year -262143, 00:00:00.000 UTC.
pub const MIN_UTC_MILLIS: i64 = -8334601228800000;

/// Latest instant chrono can represent: December 31 of year 262142, 23:59:59.999 UTC.
pub const MAX_UTC_MILLIS: i64 = 8210266876799999;

/// Bound on the magnitude of an `i64`: 2^63.
const I64_MAGNITUDE: u128 = 9223372036854775808;

pub open spec fn utc_millis_in_range(ms: int) -> bool {
    MIN_UTC_MILLIS <= ms <= MAX_UTC_MILLIS
}

/// The RFC 3339 text, with milliseconds and a `Z` suffix, of the instant `ms`
/// milliseconds after the Unix epoch.
pub uninterp spec fn rfc3339_millis_text(ms: int) -> Seq<char>;

/// Relies on chrono's `Utc.timestamp_millis_opt` (a single instant exactly when the
/// milliseconds lie between `DateTime::MIN_UTC` and `DateTime::MAX_UTC`) and on
/// `DateTime::to_rfc3339_opts` with `SecondsFormat::Millis` and `use_z`.
#[verifier::external_body]
fn format_utc_millis(ms: i64) -> (r: Option<String>)
    ensures
        r is Some <==> utc_millis_in_range(ms as int),
        r matches Some(s) ==> s@ == rfc3339_millis_text(ms as int),
{
    Utc.timestamp_millis_opt(ms).single().map(|dt| dt.to_rfc3339_opts(SecondsFormat::Millis, true))
}

/// Relies on chrono's `Utc::now`, read as milliseconds since the epoch.
#[verifier::external_body]
pub(crate) fn utc_now_millis() -> (r: i64) {
    Utc::now().timestamp_millis()
}

pub open spec fn is_digit(c: char) -> bool {
    '0' <= c <= '9'
}

pub open spec fn digit_value(c: char) -> nat {
    (c as int - '0' as int) as nat
}

/// The number written in decimal by the digits `s`.
pub open spec fn digits_value(s: Seq<char>) -> nat
    decreases s.len(),
{
    if s.len() == 0 {
        0
    } else {
        digits_value(s.drop_last()) * 10 + digit_value(s.last())
    }
}

pub open spec fn all_digits(s: Seq<char>) -> bool {
    forall|i: int| 0 <= i < s.len() ==> is_digit(#[trigger] s[i])
}

/// The value of `s` read as an `i64` in decimal, as `str::parse::<i64>` reads it: an
/// optional `+` or `-`, then at least one digit, and nothing else; `None` when the
/// text has another shape or the value does not fit.
pub open spec fn parse_i64_spec(s: Seq<char>) -> Option<int> {
    let negative = s.len() > 0 && s[0] == '-';
    let signed = s.len() > 0 && (s[0] == '-' || s[0] == '+');
    let body = if signed { s.drop_first() } else { s };
    let v = if negative { -digits_value(body) } else { digits_value(body) as int };
    if body.len() > 0 && all_digits(body) && i64::MIN <= v <= i64::MAX {
        Some(v)
    } else {
        None
    }
}

/// Reads `s` as a decimal `i64`.
#[verifier::loop_isolation(false)]
pub fn parse_i64(s: &str) -> (r: Option<i64>)
    ensures
        r matches Some(v) ==> parse_i64_spec(s@) == Some(v as int),
        r is None ==> parse_i64_spec(s@) is None,
{
    let cs = crate::text::chars_of(s);
    let n = cs.len();
    let negative = n > 0 && cs[0] == '-';
    let signed = n > 0 && (cs[0] == '-' || cs[0] == '+');
    let start: usize = if signed { 1 } else { 0 };
    let ghost body = if signed { s@.drop_first() } else { s@ };
    assert(body =~= cs@.skip(start as int));
    if start == n {
        return None;
    }
    let mut acc: u128 = 0;
    let mut over = false;
    let mut i: usize = start;
    while i < n
        invariant
            start <= i <= n,
            n == cs@.len(),
            body == cs@.skip(start as int),
            all_digits(cs@.subrange(start as int, i as int)),
            over ==> digits_value(cs@.subrange(start as int, i as int)) > I64_MAGNITUDE,
            !over ==> acc == digits_value(cs@.subrange(start as int, i as int)),
            !over ==> acc <= I64_MAGNITUDE,
        decreases n - i,
    {
        let c = cs[i];
        let ghost prev = cs@.subrange(start as int, i as int);
        let ghost next = cs@.subrange(start as int, i + 1);
        assert(next.drop_last() =~= prev);
        assert(next.last() == c);
        if !('0' <= c && c <= '9') {
            assert(!all_digits(body)) by {
                assert(body[i - start] == c);
                assert(!is_digit(body[i - start]));
            }
            return None;
        }
        assert(all_digits(next)) by {
            assert forall|j: int| 0 <= j < next.len() implies is_digit(#[trigger] next[j]) by {
                if j < prev.len() {
                    assert(next[j] == prev[j]);
                }
            }
        }
        if !over {
            acc = acc * 10 + (c as u32 - '0' as u32) as u128;
            if acc > I64_MAGNITUDE {
                over = true;
            }
        }
        i = i + 1;
    }
    assert(cs@.subrange(start as int, n as int) =~= body);
    if over {
        return None;
    }
    if negative {
        let m = acc;
        if m == I64_MAGNITUDE {
            Some(i64::MIN)
        } else {
            Some(-(m as i64))
        }
    } else if acc <= i64::MAX as u128 {
        Some(acc as i64)
    } else {
        None
    }
}

pub open spec fn abs_diff(a: int, b: int) -> int {
    if a >= b { a - b } else { b - a }
}

/// Which reading of the epoch value `ts` is taken, given the clock `now` (both in
/// milliseconds): as seconds or as milliseconds, whichever lands closer to `now`
/// (seconds on a tie), among those that chrono can represent.
pub open spec fn epoch_interpretation(ts: int, now: int) -> Option<int> {
    let as_secs = ts * 1000;
    let secs_ok = utc_millis_in_range(as_secs);
    let millis_ok = utc_millis_in_range(ts);
    if secs_ok && millis_ok {
        if abs_diff(now, as_secs) <= abs_diff(now, ts) {
            Some(as_secs)
        } else {
            Some(ts)
        }
    } else if secs_ok {
        Some(as_secs)
    } else if millis_ok {
        Some(ts)
    } else {
        None
    }
}

fn in_utc_range(ms: i128) -> (r: bool)
    ensures
        r == utc_millis_in_range(ms as int),
{
    MIN_UTC_MILLIS as i128 <= ms && ms <= MAX_UTC_MILLIS as i128
}

fn distance(a: i128, b: i128) -> (r: i128)
    requires
        -0x1_0000_0000_0000_0000_0000 < a < 0x1_0000_0000_0000_0000_0000,
        -0x1_0000_0000_0000_0000_0000 < b < 0x1_0000_0000_0000_0000_0000,
    ensures
        r == abs_diff(a as int, b as int),
{
    if a >= b { a - b } else { b - a }
}

/// Renders the epoch value `timestamp` as RFC 3339 text, reading it as seconds or as
/// milliseconds, whichever lands closer to `now_ms`.
pub fn timestamp_to_iso8601(timestamp: i64, now_ms: i64) -> (r: Option<String>)
    ensures
        r is Some <==> epoch_interpretation(timestamp as int, now_ms as int) is Some,
        r matches Some(s) ==> s@ == rfc3339_millis_text(
            epoch_interpretation(timestamp as int, now_ms as int)->0,
        ),
{
    let as_secs: i128 = timestamp as i128 * 1000;
    let millis: i128 = timestamp as i128;
    let secs_ok = in_utc_range(as_secs);
    let millis_ok = in_utc_range(millis);
    let chosen: i128 = if secs_ok && millis_ok {
        if distance(now_ms as i128, as_secs) <= distance(now_ms as i128, millis) {
            as_secs
        } else {
            millis
        }
    } else if secs_ok {
        as_secs
    } else if millis_ok {
        millis
    } else {
        return None;
    };
    format_utc_millis(chosen as i64)
}

/// What a time field reads as: an epoch value in seconds or milliseconds becomes RFC
/// 3339 text (see `epoch_interpretation`); any other text is kept as it is.
pub open spec fn readable_timestamp(input: Seq<char>, now: int) -> Seq<char> {
    match parse_i64_spec(input) {
        Some(ts) => match epoch_interpretation(ts, now) {
            Some(ms) => rfc3339_millis_text(ms),
            None => input,
        },
        None => input,
    }
}

/// Converts `input` to readable form, taking `now_ms` as the current time.
pub fn convert_timestamp_at(input: String, now_ms: i64) -> (r: String)
    ensures
        r@ == readable_timestamp(input@, now_ms as int),
{
    if input.as_str().is_empty() {
        return input;
    }
    match parse_i64(input.as_str()) {
        Some(ts) => match timestamp_to_iso8601(ts, now_ms) {
            Some(s) => s,
            None => input,
        },
        None => input,
    }
}

/// Converts `input` to readable form against the current time.
pub fn try_convert_timestamp_to_readable(input: String) -> (r: String)
    ensures
        exists|now: i64| r@ == readable_timestamp(input@, now as int),
        parse_i64_spec(input@) is None ==> r@ == input@,
{
    let now = utc_now_millis();
    convert_timestamp_at(input, now)
}

} // verus!
