//! Expiry expressions: an RFC 3339 timestamp, a relative duration such as
//! `30d`, `12h`, `6mo` or `1y`, or `never`; and the human description of
//! the time left before an expiry.
use vstd::prelude::*;

use crate::env_dsl::{trim, trim_chars};
use crate::error::HimitsuError;
use crate::secret::Timestamp;
use crate::text::{
    chars_of, contains_char, decimal, decimal_u128, digits_value, has_char, is_ascii_digit,
    lower_chars, lower_seq, push_str, slice_of, slice_eq, string_of,
};

verus! {

// ── Calendar arithmetic from chrono ──────────────────────────────────────

/// What `DateTime::parse_from_rfc3339` makes of `s`: the instant in UTC as
/// Unix seconds and nanoseconds, or the text of its error.
pub uninterp spec fn rfc3339_parsed(s: Seq<char>) -> Result<(int, int), Seq<char>>;

/// Parses an RFC 3339 timestamp with chrono (`DateTime::parse_from_rfc3339`,
/// then converted to UTC); an error comes back as chrono's message.
#[verifier::external_body]
pub(crate) fn parse_rfc3339(s: &str) -> (r: Result<Timestamp, String>)
    ensures
        match r {
            Ok(t) => rfc3339_parsed(s@) == Ok::<(int, int), Seq<char>>((t.seconds as int, t.nanos as int)),
            Err(m) => rfc3339_parsed(s@) == Err::<(int, int), Seq<char>>(m@),
        },
{
    match chrono::DateTime::parse_from_rfc3339(s) {
        Ok(dt) => {
            let utc = dt.with_timezone(&chrono::Utc);
            Ok(Timestamp { seconds: utc.timestamp(), nanos: utc.timestamp_subsec_nanos() as i32 })
        },
        Err(e) => Err(format!("{e}")),
    }
}

/// What chrono's `checked_add_months` gives for the instant `(secs, nanos)`
/// and `months` months, as Unix seconds and nanoseconds; `None` when the
/// result is out of chrono's range.
pub uninterp spec fn months_later(secs: int, nanos: int, months: int) -> Option<(int, int)>;

/// Adds calendar months to an instant with chrono
/// (`DateTime::checked_add_months`, clamping the day to the month's end).
#[verifier::external_body]
fn add_months(now: Timestamp, months: u32) -> (r: Option<Timestamp>)
    ensures
        match r {
            Some(t) => months_later(now.seconds as int, now.nanos as int, months as int) == Some(
                (t.seconds as int, t.nanos as int),
            ),
            None => months_later(now.seconds as int, now.nanos as int, months as int) is None,
        },
{
    match chrono::DateTime::from_timestamp(now.seconds, now.nanos as u32) {
        Some(dt) => match dt.checked_add_months(chrono::Months::new(months)) {
            Some(t) => Some(Timestamp { seconds: t.timestamp(), nanos: t.timestamp_subsec_nanos() as i32 }),
            None => None,
        },
        None => None,
    }
}

/// What chrono's `checked_add_signed` gives for the instant `(secs, nanos)`
/// and a delta of `delta` seconds, as Unix seconds and nanoseconds; `None`
/// when the result is out of chrono's range.
pub uninterp spec fn seconds_later(secs: int, nanos: int, delta: int) -> Option<(int, int)>;

/// Adds seconds to an instant with chrono (`DateTime::checked_add_signed`
/// with `TimeDelta::try_seconds(delta)`). When it succeeds on an instant
/// that is not a leap second, the seconds add up and the nanoseconds stay.
#[verifier::external_body]
fn add_seconds(now: Timestamp, delta: i64) -> (r: Option<Timestamp>)
    ensures
        match r {
            Some(t) => seconds_later(now.seconds as int, now.nanos as int, delta as int) == Some(
                (t.seconds as int, t.nanos as int),
            ),
            None => seconds_later(now.seconds as int, now.nanos as int, delta as int) is None,
        },
        0 <= now.nanos < 1_000_000_000 ==> (r matches Some(t) ==> t.seconds == now.seconds + delta
            && t.nanos == now.nanos),
{
    match chrono::DateTime::from_timestamp(now.seconds, now.nanos as u32) {
        Some(dt) => match chrono::TimeDelta::try_seconds(delta) {
            Some(d) => match dt.checked_add_signed(d) {
                Some(t) => Some(Timestamp { seconds: t.timestamp(), nanos: t.timestamp_subsec_nanos() as i32 }),
                None => None,
            },
            None => None,
        },
        None => None,
    }
}

// ── Relative durations ───────────────────────────────────────────────────

/// A parsed relative duration.
pub enum Span {
    /// A fixed number of seconds.
    Secs(int),
    /// Calendar months.
    Months(int),
    /// Calendar years.
    Years(int),
}

/// The largest number of seconds a chrono `TimeDelta` holds
/// (`i64::MAX / 1000`); building a larger one panics.
pub open spec fn max_delta_secs() -> int {
    9223372036854775
}

/// The length of the run of ASCII digits that `s` starts with.
pub open spec fn digit_run(s: Seq<char>) -> int
    decreases s.len(),
{
    if s.len() > 0 && is_ascii_digit(s[0]) {
        1 + digit_run(s.drop_first())
    } else {
        0
    }
}

/// The seconds of one fixed unit.
pub open spec fn unit_seconds(unit: Seq<char>) -> Option<int> {
    if unit == "s"@ {
        Some(1)
    } else if unit == "m"@ {
        Some(60)
    } else if unit == "h"@ {
        Some(3600)
    } else if unit == "d"@ {
        Some(86400)
    } else if unit == "w"@ {
        Some(604800)
    } else {
        None
    }
}

/// A relative duration: a non-empty decimal count that fits in an `i64`,
/// then a unit: `s`, `m`, `h`, `d`, `w` (fixed), `mo` or `y` (calendar,
/// count at most `u32::MAX`).
pub open spec fn span_spec(s: Seq<char>) -> Result<Span, Seq<char>> {
    let i = digit_run(s);
    if i == s.len() {
        Err("missing unit in '"@ + s + "'"@)
    } else if i == 0 {
        Err("expected leading integer in duration '"@ + s + "'"@)
    } else {
        let n = digits_value(s.take(i)) as int;
        let unit = s.skip(i);
        if n > i64::MAX {
            Err("invalid integer in duration '"@ + s + "'"@)
        } else {
            match unit_seconds(unit) {
                Some(k) => Ok(Span::Secs(n * k)),
                None => if unit == "mo"@ {
                    if n > u32::MAX {
                        Err("month count too large: '"@ + s + "'"@)
                    } else {
                        Ok(Span::Months(n))
                    }
                } else if unit == "y"@ {
                    if n > u32::MAX {
                        Err("year count too large: '"@ + s + "'"@)
                    } else {
                        Ok(Span::Years(n))
                    }
                } else {
                    Err(
                        "unknown duration unit '"@ + unit + "' in '"@ + s
                            + "' (expected s/m/h/d/w/mo/y)"@,
                    )
                },
            }
        }
    }
}

/// A parsed relative duration.
#[derive(Debug, Clone, Copy, PartialEq, Eq)]
pub enum RelativeDuration {
    Fixed(i64),
    Months(u32),
    Years(u32),
}

/// The span a parsed duration stands for.
pub open spec fn relative_view(d: RelativeDuration) -> Span {
    match d {
        RelativeDuration::Fixed(k) => Span::Secs(k as int),
        RelativeDuration::Months(m) => Span::Months(m as int),
        RelativeDuration::Years(y) => Span::Years(y as int),
    }
}

/// The fixed durations too long for chrono, which panics on them.
pub open spec fn span_too_long(s: Seq<char>) -> bool {
    span_spec(s) matches Ok(Span::Secs(k)) && k > max_delta_secs()
}

/// The number of leading ASCII digits.
fn count_digits(s: &[char]) -> (r: usize)
    ensures
        r == digit_run(s@),
        r <= s@.len(),
{
    let mut i: usize = 0;
    assert(s@.skip(0) == s@);
    while i < s.len() && '0' <= s[i] && s[i] <= '9'
        invariant
            i <= s.len(),
            digit_run(s@) == i + digit_run(s@.skip(i as int)),
        decreases s.len() - i,
    {
        assert(s@.skip(i as int)[0] == s@[i as int]);
        assert(s@.skip(i as int).drop_first() == s@.skip(i + 1));
        i += 1;
    }
    if i < s.len() {
        assert(s@.skip(i as int)[0] == s@[i as int]);
    }
    i
}

/// The value of a run of ASCII digits, when it fits in an `i64`.
fn digits_i64(s: &[char]) -> (r: Option<i64>)
    requires
        forall|j: int| 0 <= j < s.len() ==> is_ascii_digit(#[trigger] s@[j]),
    ensures
        match r {
            Some(v) => v as int == digits_value(s@),
            None => digits_value(s@) > i64::MAX,
        },
{
    let mut v: i64 = 0;
    let mut i: usize = 0;
    while i < s.len()
        invariant
            i <= s.len(),
            forall|j: int| 0 <= j < s.len() ==> is_ascii_digit(#[trigger] s@[j]),
            v as int == digits_value(s@.take(i as int)),
            v >= 0,
        decreases s.len() - i,
    {
        let d = (s[i] as u32 - 48) as i64;
        assert(s@.take(i + 1).drop_last() == s@.take(i as int));
        assert(s@.take(i + 1).last() == s@[i as int]);
        assert(0 <= d <= 9);
        if v > (i64::MAX - d) / 10 {
            proof {
                lemma_digits_grow(s@, i as int);
                assert(v * 10 + d > i64::MAX) by (nonlinear_arith)
                    requires
                        v > (i64::MAX - d) / 10,
                        0 <= d <= 9,
                ;
            }
            return None;
        }
        assert(v * 10 + d <= i64::MAX) by (nonlinear_arith)
            requires
                v <= (i64::MAX - d) / 10,
                0 <= d <= 9,
                v >= 0,
        ;
        v = v * 10 + d;
        i += 1;
    }
    assert(s@.take(s.len() as int) == s@);
    Some(v)
}

/// Appending digits never makes a digit string's value smaller.
proof fn lemma_digits_grow(s: Seq<char>, i: int)
    requires
        0 <= i < s.len(),
    ensures
        digits_value(s) >= digits_value(s.take(i + 1)),
    decreases s.len() - i,
{
    if i + 1 < s.len() {
        lemma_digits_grow(s, i + 1);
        assert(s.take(i + 2).drop_last() == s.take(i + 1));
        assert(digits_value(s.take(i + 2)) >= digits_value(s.take(i + 1)) * 10) by {
            assert(digits_value(s.take(i + 2)) == digits_value(s.take(i + 1)) * 10 + ((s.take(i + 2).last() as u32) - 48) as nat);
        }
        assert(digits_value(s.take(i + 1)) * 10 >= digits_value(s.take(i + 1))) by (nonlinear_arith);
    } else {
        assert(s.take(i + 1) == s);
    }
}

/// Builds an invalid-reference error from a message.
fn invalid(m: String) -> (r: HimitsuError)
    ensures
        r is InvalidReference && r.detail() == m@,
{
    HimitsuError::InvalidReference(m)
}

/// `pre` + `s` + `post`.
fn framed(pre: &str, s: &str, post: &str) -> (r: String)
    ensures
        r@ == pre@ + s@ + post@,
{
    let mut m = String::from_str(pre);
    push_str(&mut m, s);
    push_str(&mut m, post);
    m
}

/// Parses a relative duration such as `30d`.
pub fn parse_relative(s: &str) -> (r: Result<RelativeDuration, HimitsuError>)
    requires
        !span_too_long(s@),
    ensures
        match span_spec(s@) {
            Ok(sp) => r matches Ok(d) && relative_view(d) == sp,
            Err(m) => r matches Err(e) && e is InvalidReference && e.detail() == m,
        },
{
    let cs = chars_of(s);
    let i = count_digits(&cs);
    if i == cs.len() {
        return Err(invalid(framed("missing unit in '", s, "'")));
    }
    if i == 0 {
        return Err(invalid(framed("expected leading integer in duration '", s, "'")));
    }
    let num = slice_of(&cs, 0, i);
    assert(num@ == cs@.take(i as int));
    assert forall|j: int| 0 <= j < num.len() implies is_ascii_digit(#[trigger] num@[j]) by {
        lemma_digit_run_digits(cs@, j);
    }
    let n = match digits_i64(&num) {
        Some(v) => v,
        None => {
            return Err(invalid(framed("invalid integer in duration '", s, "'")));
        },
    };
    let unit = slice_of(&cs, i, cs.len());
    assert(unit@ == cs@.skip(i as int));
    let u = string_of(&unit);
    proof {
        reveal_strlit("s");
        reveal_strlit("m");
        reveal_strlit("h");
        reveal_strlit("d");
        reveal_strlit("w");
        reveal_strlit("mo");
        reveal_strlit("y");
    }
    let k: i64 = if slice_eq(&unit, &chars_of("s")) {
        1
    } else if slice_eq(&unit, &chars_of("m")) {
        60
    } else if slice_eq(&unit, &chars_of("h")) {
        3600
    } else if slice_eq(&unit, &chars_of("d")) {
        86400
    } else if slice_eq(&unit, &chars_of("w")) {
        604800
    } else {
        0
    };
    if k > 0 {
        assert(n * k <= max_delta_secs());
        return Ok(RelativeDuration::Fixed(n * k));
    }
    if slice_eq(&unit, &chars_of("mo")) {
        if n > u32::MAX as i64 {
            return Err(invalid(framed("month count too large: '", s, "'")));
        }
        return Ok(RelativeDuration::Months(n as u32));
    }
    if slice_eq(&unit, &chars_of("y")) {
        if n > u32::MAX as i64 {
            return Err(invalid(framed("year count too large: '", s, "'")));
        }
        return Ok(RelativeDuration::Years(n as u32));
    }
    let mut m = framed("unknown duration unit '", u.as_str(), "' in '");
    push_str(&mut m, s);
    push_str(&mut m, "' (expected s/m/h/d/w/mo/y)");
    Err(invalid(m))
}

/// The digit run lies within the string.
proof fn lemma_digit_run_bound(s: Seq<char>)
    ensures
        0 <= digit_run(s) <= s.len(),
    decreases s.len(),
{
    if s.len() > 0 && is_ascii_digit(s[0]) {
        lemma_digit_run_bound(s.drop_first());
    }
}

/// The characters before `digit_run` are digits.
proof fn lemma_digit_run_digits(s: Seq<char>, j: int)
    requires
        0 <= j < digit_run(s),
    ensures
        is_ascii_digit(s[j]),
    decreases s.len(),
{
    lemma_digit_run_bound(s);
    if j > 0 {
        lemma_digit_run_bound(s.drop_first());
        lemma_digit_run_digits(s.drop_first(), j - 1);
        assert(s.drop_first()[j - 1] == s[j]);
    }
}


// ── Expiry expressions ───────────────────────────────────────────────────

/// The outcome of parsing an `--expires-at` argument.
#[derive(Debug, Clone, Copy, PartialEq, Eq)]
pub enum ExpiresAt {
    /// Clear any existing expiry.
    Never,
    /// The resolved instant.
    At(Timestamp),
}

/// The instant of a pair of seconds and nanoseconds.
pub open spec fn instant(p: (int, int)) -> Timestamp {
    Timestamp { seconds: p.0 as i64, nanos: p.1 as i32 }
}

/// A cheap test for a timestamp: a `-`, and a `T` or a space.
pub open spec fn looks_like_timestamp(s: Seq<char>) -> bool {
    has_char(s, '-') && (has_char(s, 'T') || has_char(s, ' '))
}

/// The message when a duration leaves chrono's calendar.
pub open spec fn overflow_msg(s: Seq<char>) -> Seq<char> {
    "duration '"@ + s + "' overflows"@
}

/// An expiry expression, relative to `now`: after trimming, empty is an
/// error; `never` in any ASCII case clears the expiry; anything with the
/// look of a timestamp is parsed as RFC 3339; anything else is a relative
/// duration added to `now`.
pub open spec fn expiry_spec(input: Seq<char>, now: Timestamp) -> Result<ExpiresAt, Seq<char>> {
    let s = trim(input);
    if s.len() == 0 {
        Err("expires-at value is empty"@)
    } else if lower_seq(s) == "never"@ {
        Ok(ExpiresAt::Never)
    } else if looks_like_timestamp(s) {
        match rfc3339_parsed(s) {
            Ok(p) => Ok(ExpiresAt::At(instant(p))),
            Err(e) => Err("invalid RFC 3339 timestamp '"@ + s + "': "@ + e),
        }
    } else {
        match span_spec(s) {
            Err(m) => Err(m),
            Ok(Span::Secs(k)) => match seconds_later(now.seconds as int, now.nanos as int, k) {
                Some(p) => Ok(ExpiresAt::At(instant(p))),
                None => Err(overflow_msg(s)),
            },
            Ok(Span::Months(m)) => match months_later(now.seconds as int, now.nanos as int, m) {
                Some(p) => Ok(ExpiresAt::At(instant(p))),
                None => Err(overflow_msg(s)),
            },
            Ok(Span::Years(y)) => if y * 12 > u32::MAX {
                Err(overflow_msg(s))
            } else {
                match months_later(now.seconds as int, now.nanos as int, y * 12) {
                    Some(p) => Ok(ExpiresAt::At(instant(p))),
                    None => Err(overflow_msg(s)),
                }
            },
        }
    }
}

/// The inputs on which chrono panics: a fixed duration too long for a
/// `TimeDelta`, or one that takes `now` out of chrono's range.
pub open spec fn expiry_panics(input: Seq<char>, now: Timestamp) -> bool {
    let s = trim(input);
    &&& s.len() > 0
    &&& lower_seq(s) != "never"@
    &&& !looks_like_timestamp(s)
    &&& span_spec(s) matches Ok(Span::Secs(k))
    &&& (k > max_delta_secs() || seconds_later(now.seconds as int, now.nanos as int, k) is None)
}

/// The result of `expiry_spec` as a library result.
pub open spec fn expiry_holds(r: Result<ExpiresAt, HimitsuError>, s: Result<ExpiresAt, Seq<char>>) -> bool {
    match s {
        Ok(x) => r == Ok::<ExpiresAt, HimitsuError>(x),
        Err(m) => r matches Err(e) && e is InvalidReference && e.detail() == m,
    }
}

/// Parses an expires-at expression relative to `now`.
pub fn parse_with_now(input: &str, now: Timestamp) -> (r: Result<ExpiresAt, HimitsuError>)
    requires
        !expiry_panics(input@, now),
    ensures
        expiry_holds(r, expiry_spec(input@, now)),
{
    let cs = trim_chars(&chars_of(input));
    let s = string_of(&cs);
    if cs.len() == 0 {
        return Err(invalid(String::from_str("expires-at value is empty")));
    }
    let lowered = lower_chars(&cs);
    proof {
        reveal_strlit("never");
    }
    if slice_eq(&lowered, &chars_of("never")) {
        return Ok(ExpiresAt::Never);
    }
    if contains_char(&cs, '-') && (contains_char(&cs, 'T') || contains_char(&cs, ' ')) {
        return match parse_rfc3339(s.as_str()) {
            Ok(t) => Ok(ExpiresAt::At(t)),
            Err(e) => {
                let mut m = framed("invalid RFC 3339 timestamp '", s.as_str(), "': ");
                push_str(&mut m, e.as_str());
                Err(invalid(m))
            },
        };
    }
    let dur = parse_relative(s.as_str())?;
    match dur {
        RelativeDuration::Fixed(k) => match add_seconds(now, k) {
            Some(t) => Ok(ExpiresAt::At(t)),
            None => Err(invalid(framed("duration '", s.as_str(), "' overflows"))),
        },
        RelativeDuration::Months(m) => match add_months(now, m) {
            Some(t) => Ok(ExpiresAt::At(t)),
            None => Err(invalid(framed("duration '", s.as_str(), "' overflows"))),
        },
        RelativeDuration::Years(y) => {
            let months = match y.checked_mul(12) {
                Some(v) => v,
                None => {
                    return Err(invalid(framed("duration '", s.as_str(), "' overflows")));
                },
            };
            match add_months(now, months) {
                Some(t) => Ok(ExpiresAt::At(t)),
                None => Err(invalid(framed("duration '", s.as_str(), "' overflows"))),
            }
        },
    }
}

/// Parses an expires-at expression relative to `now`, or `None` on the
/// inputs where chrono panics (a fixed duration too long for it).
pub fn parse_expiry(input: &str, now: Timestamp) -> (r: Option<Result<ExpiresAt, HimitsuError>>)
    ensures
        expiry_panics(input@, now) <==> r is None,
        r matches Some(x) ==> expiry_holds(x, expiry_spec(input@, now)),
{
    let cs = trim_chars(&chars_of(input));
    let s = string_of(&cs);
    let lowered = lower_chars(&cs);
    proof {
        reveal_strlit("never");
    }
    let relative = cs.len() > 0 && !slice_eq(&lowered, &chars_of("never")) && !(contains_char(
        &cs,
        '-',
    ) && (contains_char(&cs, 'T') || contains_char(&cs, ' ')));
    if relative {
        match fixed_seconds(s.as_str()) {
            Some(k) => {
                if k > 9223372036854775 {
                    return None;
                }
                assert(k <= i64::MAX);
                if add_seconds(now, k as i64).is_none() {
                    return None;
                }
            },
            None => {},
        }
    }
    Some(parse_with_now(input, now))
}

/// The seconds of a fixed relative duration, when `s` is one.
fn fixed_seconds(s: &str) -> (r: Option<u128>)
    ensures
        match span_spec(s@) {
            Ok(Span::Secs(k)) => r == Some(k as u128) && k >= 0,
            _ => r is None,
        },
{
    let cs = chars_of(s);
    let i = count_digits(&cs);
    if i == cs.len() || i == 0 {
        return None;
    }
    let num = slice_of(&cs, 0, i);
    assert(num@ == cs@.take(i as int));
    assert forall|j: int| 0 <= j < num.len() implies is_ascii_digit(#[trigger] num@[j]) by {
        lemma_digit_run_digits(cs@, j);
    }
    let n = match digits_i64(&num) {
        Some(v) => v,
        None => {
            return None;
        },
    };
    let unit = slice_of(&cs, i, cs.len());
    assert(unit@ == cs@.skip(i as int));
    proof {
        reveal_strlit("s");
        reveal_strlit("m");
        reveal_strlit("h");
        reveal_strlit("d");
        reveal_strlit("w");
    }
    let k: u128 = if slice_eq(&unit, &chars_of("s")) {
        1
    } else if slice_eq(&unit, &chars_of("m")) {
        60
    } else if slice_eq(&unit, &chars_of("h")) {
        3600
    } else if slice_eq(&unit, &chars_of("d")) {
        86400
    } else if slice_eq(&unit, &chars_of("w")) {
        604800
    } else {
        return None;
    };
    assert(n as u128 * k <= 604800 * 9223372036854775807) by (nonlinear_arith)
        requires
            0 <= n,
            k <= 604800,
    ;
    Some(n as u128 * k)
}

// ── Time left ────────────────────────────────────────────────────────────

/// How close an expiry is.
#[derive(Debug, Clone, Copy, PartialEq, Eq, Structural)]
pub enum ExpirySeverity {
    Distant,
    Soon,
    Expired,
}

/// The nanoseconds from `from` to `to`.
pub open spec fn nanos_between(from: Timestamp, to: Timestamp) -> int {
    (to.seconds - from.seconds) * 1_000_000_000 + (to.nanos - from.nanos)
}

/// Whole seconds of a nanosecond count, truncated toward zero (as
/// `TimeDelta::num_seconds`).
pub open spec fn whole_seconds(n: int) -> int {
    if n >= 0 {
        n / 1_000_000_000
    } else {
        -((-n) / 1_000_000_000)
    }
}

/// `""` for one, `"s"` otherwise.
pub open spec fn plural_spec(n: int) -> Seq<char> {
    if n == 1 {
        ""@
    } else {
        "s"@
    }
}

/// What is said of an expiry `delta` nanoseconds away: past ones as
/// "EXPIRED n days ago" (or hours, at least one), future ones as
/// "expires in n days" (or hours, at least one); within 30 days is soon.
pub open spec fn remaining_spec(delta: int) -> (Seq<char>, ExpirySeverity) {
    if delta < 0 {
        let secs = whole_seconds(-delta);
        let days = secs / 86400;
        let hours = if secs / 3600 > 1 {
            secs / 3600
        } else {
            1
        };
        (
            if days >= 1 {
                "EXPIRED "@ + decimal(days as nat) + " day"@ + plural_spec(days) + " ago"@
            } else {
                "EXPIRED "@ + decimal(hours as nat) + " hour"@ + plural_spec(hours) + " ago"@
            },
            ExpirySeverity::Expired,
        )
    } else {
        let secs = whole_seconds(delta);
        let days = secs / 86400;
        let hours = if secs / 3600 > 1 {
            secs / 3600
        } else {
            1
        };
        (
            if days >= 1 {
                "expires in "@ + decimal(days as nat) + " day"@ + plural_spec(days)
            } else {
                "expires in "@ + decimal(hours as nat) + " hour"@ + plural_spec(hours)
            },
            if days <= 30 {
                ExpirySeverity::Soon
            } else {
                ExpirySeverity::Distant
            },
        )
    }
}

/// `""` for one, `"s"` otherwise.
pub(crate) fn plural(n: u128) -> (r: &'static str)
    ensures
        r@ == plural_spec(n as int),
{
    if n == 1 {
        ""
    } else {
        "s"
    }
}

/// The count and unit text of a non-negative span of whole seconds.
fn amount(secs: u128, prefix: &str, suffix: &str) -> (r: String)
    ensures
        r@ == (if secs / 86400 >= 1 {
            prefix@ + decimal((secs / 86400) as nat) + " day"@ + plural_spec((secs / 86400) as int)
                + suffix@
        } else {
            prefix@ + decimal((if secs / 3600 > 1 { secs / 3600 } else { 1 }) as nat) + " hour"@
                + plural_spec((if secs / 3600 > 1 { secs / 3600 } else { 1 }) as int) + suffix@
        }),
{
    let days = secs / 86400;
    let mut m = String::from_str(prefix);
    if days >= 1 {
        push_str(&mut m, string_of(&decimal_u128(days)).as_str());
        push_str(&mut m, " day");
        push_str(&mut m, plural(days));
    } else {
        let h = secs / 3600;
        let hours = if h > 1 {
            h
        } else {
            1
        };
        push_str(&mut m, string_of(&decimal_u128(hours)).as_str());
        push_str(&mut m, " hour");
        push_str(&mut m, plural(hours));
    }
    push_str(&mut m, suffix);
    m
}

/// Describes the time left before `expires_at`, with its severity.
pub fn describe_remaining(expires_at: Timestamp, now: Timestamp) -> (r: (String, ExpirySeverity))
    ensures
        (r.0@, r.1) == remaining_spec(nanos_between(now, expires_at)),
{
    let delta: i128 = (expires_at.seconds as i128 - now.seconds as i128) * 1_000_000_000 + (
    expires_at.nanos as i128 - now.nanos as i128);
    assert(delta == nanos_between(now, expires_at));
    if delta < 0 {
        let ago: i128 = -delta;
        let secs = (ago / 1_000_000_000) as u128;
        assert(secs == whole_seconds(-delta));
        let msg = amount(secs, "EXPIRED ", " ago");
        proof {
            reveal_strlit("EXPIRED ");
            reveal_strlit(" ago");
        }
        assert(msg@ == remaining_spec(delta as int).0);
        (msg, ExpirySeverity::Expired)
    } else {
        let secs = (delta / 1_000_000_000) as u128;
        assert(secs == whole_seconds(delta as int));
        let severity = if secs / 86400 <= 30 {
            ExpirySeverity::Soon
        } else {
            ExpirySeverity::Distant
        };
        let msg = amount(secs, "expires in ", "");
        proof {
            reveal_strlit("");
        }
        assert(msg@ =~= remaining_spec(delta as int).0);
        (msg, severity)
    }
}


/// Whether a timestamp is unset (zero seconds and nanoseconds), the
/// protobuf default.
pub fn is_unset(ts: &Timestamp) -> (r: bool)
    ensures
        r == (ts.seconds == 0 && ts.nanos == 0),
{
    ts.seconds == 0 && ts.nanos == 0
}

// ── Laws of relative durations ───────────────────────────────────────────

/// A string of digits followed by a text that does not start with a digit
/// has exactly those digits as its leading run.
proof fn lemma_digit_run_of_count(ds: Seq<char>, unit: Seq<char>)
    requires
        forall|i: int| 0 <= i < ds.len() ==> is_ascii_digit(#[trigger] ds[i]),
        unit.len() > 0,
        !is_ascii_digit(unit[0]),
    ensures
        digit_run(ds + unit) == ds.len(),
    decreases ds.len(),
{
    if ds.len() == 0 {
        assert(ds + unit =~= unit);
    } else {
        assert forall|i: int| 0 <= i < ds.drop_first().len() implies is_ascii_digit(
            #[trigger] ds.drop_first()[i],
        ) by {
            assert(ds.drop_first()[i] == ds[i + 1]);
        }
        lemma_digit_run_of_count(ds.drop_first(), unit);
        assert((ds + unit).drop_first() =~= ds.drop_first() + unit);
        assert((ds + unit)[0] == ds[0]);
    }
}

/// The span of a count followed by a unit, when the unit does not start
/// with a digit: the unit read after exactly that count.
proof fn lemma_span_of_count(ds: Seq<char>, unit: Seq<char>)
    requires
        ds.len() > 0,
        forall|i: int| 0 <= i < ds.len() ==> is_ascii_digit(#[trigger] ds[i]),
        unit.len() > 0,
        !is_ascii_digit(unit[0]),
    ensures
        digit_run(ds + unit) == ds.len(),
        (ds + unit).take(ds.len() as int) == ds,
        (ds + unit).skip(ds.len() as int) == unit,
{
    lemma_digit_run_of_count(ds, unit);
    assert((ds + unit).take(ds.len() as int) =~= ds);
    assert((ds + unit).skip(ds.len() as int) =~= unit);
}

/// Each fixed unit has its length in seconds: a count `n` of seconds,
/// minutes, hours, days or weeks spans `n`, `60n`, `3600n`, `86400n` and
/// `604800n` seconds; months and years stay calendar spans of `n`.
pub proof fn lemma_unit_lengths(ds: Seq<char>)
    requires
        ds.len() > 0,
        forall|i: int| 0 <= i < ds.len() ==> is_ascii_digit(#[trigger] ds[i]),
        digits_value(ds) <= i64::MAX,
    ensures
        span_spec(ds + "s"@) == Ok::<Span, Seq<char>>(Span::Secs(digits_value(ds) as int)),
        span_spec(ds + "m"@) == Ok::<Span, Seq<char>>(Span::Secs(60 * (digits_value(ds) as int))),
        span_spec(ds + "h"@) == Ok::<Span, Seq<char>>(Span::Secs(3600 * (digits_value(ds) as int))),
        span_spec(ds + "d"@) == Ok::<Span, Seq<char>>(Span::Secs(86400 * (digits_value(ds) as int))),
        span_spec(ds + "w"@) == Ok::<Span, Seq<char>>(Span::Secs(604800 * (digits_value(ds) as int))),
        digits_value(ds) <= u32::MAX ==> span_spec(ds + "mo"@) == Ok::<Span, Seq<char>>(
            Span::Months(digits_value(ds) as int),
        ),
        digits_value(ds) <= u32::MAX ==> span_spec(ds + "y"@) == Ok::<Span, Seq<char>>(
            Span::Years(digits_value(ds) as int),
        ),
{
    let n = digits_value(ds) as int;
    lemma_unit_table();
    lemma_span_fixed(ds, "s"@);
    lemma_span_fixed(ds, "m"@);
    lemma_span_fixed(ds, "h"@);
    lemma_span_fixed(ds, "d"@);
    lemma_span_fixed(ds, "w"@);
    assert(n * 1 == n && n * 60 == 60 * n && n * 3600 == 3600 * n && n * 86400 == 86400 * n && n
        * 604800 == 604800 * n) by (nonlinear_arith);
    if n <= u32::MAX {
        lemma_span_calendar(ds, "mo"@);
        lemma_span_calendar(ds, "y"@);
    }
}

/// The seconds of each unit name, and the calendar units having none.
proof fn lemma_unit_table()
    ensures
        unit_seconds("s"@) == Some(1int),
        unit_seconds("m"@) == Some(60int),
        unit_seconds("h"@) == Some(3600int),
        unit_seconds("d"@) == Some(86400int),
        unit_seconds("w"@) == Some(604800int),
        unit_seconds("mo"@) is None,
        unit_seconds("y"@) is None,
        "s"@.len() > 0 && !is_ascii_digit("s"@[0]),
        "m"@.len() > 0 && !is_ascii_digit("m"@[0]),
        "h"@.len() > 0 && !is_ascii_digit("h"@[0]),
        "d"@.len() > 0 && !is_ascii_digit("d"@[0]),
        "w"@.len() > 0 && !is_ascii_digit("w"@[0]),
        "mo"@.len() > 0 && !is_ascii_digit("mo"@[0]),
        "y"@.len() > 0 && !is_ascii_digit("y"@[0]),
{
    lemma_unit_literals();
    assert(seq!['m'] != seq!['s']) by {
        assert(seq!['m'][0] != seq!['s'][0]);
    }
    assert(seq!['h'] != seq!['s'] && seq!['h'] != seq!['m']) by {
        assert(seq!['h'][0] != seq!['s'][0] && seq!['h'][0] != seq!['m'][0]);
    }
    assert(seq!['d'] != seq!['s'] && seq!['d'] != seq!['m'] && seq!['d'] != seq!['h']) by {
        assert(seq!['d'][0] != seq!['s'][0] && seq!['d'][0] != seq!['m'][0] && seq!['d'][0]
            != seq!['h'][0]);
    }
    assert(seq!['w'] != seq!['s'] && seq!['w'] != seq!['m'] && seq!['w'] != seq!['h']
        && seq!['w'] != seq!['d']) by {
        assert(seq!['w'][0] != seq!['s'][0] && seq!['w'][0] != seq!['m'][0] && seq!['w'][0]
            != seq!['h'][0] && seq!['w'][0] != seq!['d'][0]);
    }
    assert(seq!['y'] != seq!['s'] && seq!['y'] != seq!['m'] && seq!['y'] != seq!['h']
        && seq!['y'] != seq!['d'] && seq!['y'] != seq!['w']) by {
        assert(seq!['y'][0] != seq!['s'][0] && seq!['y'][0] != seq!['m'][0] && seq!['y'][0]
            != seq!['h'][0] && seq!['y'][0] != seq!['d'][0] && seq!['y'][0] != seq!['w'][0]);
    }
    assert(seq!['m', 'o'].len() != seq!['s'].len());
}

/// A count followed by a fixed unit spans the count times the unit's seconds.
proof fn lemma_span_fixed(ds: Seq<char>, unit: Seq<char>)
    requires
        ds.len() > 0,
        forall|i: int| 0 <= i < ds.len() ==> is_ascii_digit(#[trigger] ds[i]),
        digits_value(ds) <= i64::MAX,
        unit.len() > 0,
        !is_ascii_digit(unit[0]),
        unit_seconds(unit) is Some,
    ensures
        span_spec(ds + unit) == Ok::<Span, Seq<char>>(Span::Secs(
            digits_value(ds) * unit_seconds(unit)->Some_0,
        )),
{
    lemma_span_of_count(ds, unit);
}

/// A count followed by `mo` or `y` is a calendar span of that count.
proof fn lemma_span_calendar(ds: Seq<char>, unit: Seq<char>)
    requires
        ds.len() > 0,
        forall|i: int| 0 <= i < ds.len() ==> is_ascii_digit(#[trigger] ds[i]),
        digits_value(ds) <= u32::MAX,
        unit == "mo"@ || unit == "y"@,
    ensures
        unit == "mo"@ ==> span_spec(ds + unit) == Ok::<Span, Seq<char>>(
            Span::Months(digits_value(ds) as int),
        ),
        unit == "y"@ ==> span_spec(ds + unit) == Ok::<Span, Seq<char>>(
            Span::Years(digits_value(ds) as int),
        ),
{
    lemma_unit_table();
    lemma_span_of_count(ds, unit);
    lemma_unit_literals();
    assert(seq!['m', 'o'] != seq!['y']) by {
        assert(seq!['m', 'o'].len() != seq!['y'].len());
    }
}

/// The unit names, character by character.
proof fn lemma_unit_literals()
    ensures
        "s"@ == seq!['s'],
        "m"@ == seq!['m'],
        "h"@ == seq!['h'],
        "d"@ == seq!['d'],
        "w"@ == seq!['w'],
        "mo"@ == seq!['m', 'o'],
        "y"@ == seq!['y'],
{
    reveal_strlit("s");
    reveal_strlit("m");
    reveal_strlit("h");
    reveal_strlit("d");
    reveal_strlit("w");
    reveal_strlit("mo");
    reveal_strlit("y");
    assert("s"@ =~= seq!['s'] && "m"@ =~= seq!['m'] && "h"@ =~= seq!['h'] && "d"@ =~= seq!['d']
        && "w"@ =~= seq!['w'] && "mo"@ =~= seq!['m', 'o'] && "y"@ =~= seq!['y']);
}

} // verus!
