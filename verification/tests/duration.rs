use chrono::{DateTime, Datelike, Utc};
use himitsu::duration::{
    describe_remaining, is_unset, parse_expiry, parse_relative, parse_with_now, ExpiresAt,
    ExpirySeverity, RelativeDuration,
};
use himitsu::error::HimitsuError;
use himitsu::secret::Timestamp;

fn epoch_plus(days: i64) -> Timestamp {
    Timestamp { seconds: 86_400 * days, nanos: 0 }
}

fn at(rfc3339: &str) -> Timestamp {
    let dt = DateTime::parse_from_rfc3339(rfc3339).unwrap().with_timezone(&Utc);
    Timestamp { seconds: dt.timestamp(), nanos: dt.timestamp_subsec_nanos() as i32 }
}

fn ymd(t: Timestamp) -> (i32, u32, u32) {
    let dt = DateTime::from_timestamp(t.seconds, t.nanos as u32).unwrap();
    (dt.year(), dt.month(), dt.day())
}

#[test]
fn parse_days() {
    let now = epoch_plus(100);
    let r = parse_with_now("30d", now).unwrap();
    match r {
        ExpiresAt::At(dt) => assert_eq!(dt, epoch_plus(130)),
        _ => panic!("expected At"),
    }
}

#[test]
fn parse_months() {
    let now = at("2026-01-15T00:00:00Z");
    let r = parse_with_now("6mo", now).unwrap();
    match r {
        ExpiresAt::At(dt) => assert_eq!(ymd(dt), (2026, 7, 15)),
        _ => panic!("expected At"),
    }
}

#[test]
fn parse_years() {
    let now = at("2026-04-12T00:00:00Z");
    let r = parse_with_now("1y", now).unwrap();
    match r {
        ExpiresAt::At(dt) => assert_eq!(ymd(dt), (2027, 4, 12)),
        _ => panic!("expected At"),
    }
}

#[test]
fn parse_never_literal() {
    assert_eq!(parse_with_now("never", epoch_plus(0)).unwrap(), ExpiresAt::Never);
    assert_eq!(parse_with_now("NEVER", epoch_plus(0)).unwrap(), ExpiresAt::Never);
}

#[test]
fn parse_rfc3339() {
    let r = parse_with_now("2026-12-31T00:00:00Z", epoch_plus(0)).unwrap();
    match r {
        ExpiresAt::At(dt) => assert_eq!(ymd(dt), (2026, 12, 31)),
        _ => panic!("expected At"),
    }
}

#[test]
fn parse_invalid_values() {
    assert!(parse_with_now("", epoch_plus(0)).is_err());
    assert!(parse_with_now("garbage", epoch_plus(0)).is_err());
    assert!(parse_with_now("30x", epoch_plus(0)).is_err());
    assert!(parse_with_now("-5d", epoch_plus(0)).is_err());
    assert!(parse_with_now("2026-13-99T00:00:00Z", epoch_plus(0)).is_err());
}

#[test]
fn describe_distant_future() {
    let (msg, sev) = describe_remaining(epoch_plus(90), epoch_plus(0));
    assert_eq!(msg, "expires in 90 days");
    assert_eq!(sev, ExpirySeverity::Distant);
}

#[test]
fn describe_soon() {
    let (msg, sev) = describe_remaining(epoch_plus(12), epoch_plus(0));
    assert_eq!(msg, "expires in 12 days");
    assert_eq!(sev, ExpirySeverity::Soon);
}

#[test]
fn describe_expired() {
    let (msg, sev) = describe_remaining(epoch_plus(7), epoch_plus(10));
    assert_eq!(msg, "EXPIRED 3 days ago");
    assert_eq!(sev, ExpirySeverity::Expired);
}

#[test]
fn proto_timestamp_roundtrip() {
    let now = at("2026-04-12T10:20:30Z");
    let dt = DateTime::from_timestamp(now.seconds, now.nanos as u32).unwrap();
    assert_eq!(dt.to_rfc3339(), "2026-04-12T10:20:30+00:00");
    assert!(!is_unset(&now));
    assert!(is_unset(&Timestamp { seconds: 0, nanos: 0 }));
}

// -- Own tests --

fn message(r: Result<ExpiresAt, HimitsuError>) -> String {
    match r {
        Err(HimitsuError::InvalidReference(m)) => m,
        other => panic!("unexpected: {other:?}"),
    }
}

#[test]
fn relative_error_messages() {
    let now = epoch_plus(0);
    assert_eq!(message(parse_with_now("  ", now)), "expires-at value is empty");
    assert_eq!(message(parse_with_now("garbage", now)), "expected leading integer in duration 'garbage'");
    assert_eq!(message(parse_with_now("30", now)), "missing unit in '30'");
    assert_eq!(
        message(parse_with_now("30x", now)),
        "unknown duration unit 'x' in '30x' (expected s/m/h/d/w/mo/y)"
    );
    assert_eq!(
        message(parse_with_now("99999999999999999999d", now)),
        "invalid integer in duration '99999999999999999999d'"
    );
    assert_eq!(message(parse_with_now("5000000000mo", now)), "month count too large: '5000000000mo'");
    assert_eq!(message(parse_with_now("400000000y", now)), "duration '400000000y' overflows");
    assert!(message(parse_with_now("2026-13-99T00:00:00Z", now))
        .starts_with("invalid RFC 3339 timestamp '2026-13-99T00:00:00Z': "));
}

#[test]
fn fixed_units_and_hours() {
    assert_eq!(parse_relative("2w").unwrap(), RelativeDuration::Fixed(1_209_600));
    assert_eq!(parse_relative("90m").unwrap(), RelativeDuration::Fixed(5_400));
    assert_eq!(parse_relative("6mo").unwrap(), RelativeDuration::Months(6));
    let (msg, sev) = describe_remaining(
        Timestamp { seconds: 3_600 * 5 + 10, nanos: 0 },
        Timestamp { seconds: 0, nanos: 0 },
    );
    assert_eq!((msg.as_str(), sev), ("expires in 5 hours", ExpirySeverity::Soon));
    let (msg, _) = describe_remaining(
        Timestamp { seconds: 0, nanos: 0 },
        Timestamp { seconds: 59, nanos: 0 },
    );
    assert_eq!(msg, "EXPIRED 1 hour ago");
}

#[test]
fn parse_expiry_flags_panicking_durations() {
    let now = epoch_plus(0);
    assert!(parse_expiry("9999999999999999s", now).is_none());
    assert!(parse_expiry("9000000000000w", now).is_none());
    assert_eq!(parse_expiry("1d", now), Some(Ok(ExpiresAt::At(epoch_plus(1)))));
}
