use gitx::intent::{parse_time_range, time_range_since, MAX_DELTA_SECONDS, MAX_TIMESTAMP, MIN_TIMESTAMP};

/// `range` parses to a timestamp about `expected_secs` before now (both sides read the clock,
/// so a few seconds of skew are allowed).
fn assert_seconds_ago(range: &str, expected_secs: i64) {
    let parsed = parse_time_range(range).unwrap_or_else(|e| panic!("{}: {}", range, e));
    let now = chrono::Local::now().timestamp();
    let actual_diff = now - parsed;
    assert!(
        (actual_diff - expected_secs).abs() <= 5,
        "range {:?}: expected ~{}s ago, got {}s ago (now={}, parsed={})",
        range,
        expected_secs,
        actual_diff,
        now,
        parsed
    );
}

#[test]
fn parse_days_matches_requested_duration() {
    assert_seconds_ago("3d", 3 * 86_400);
    assert_seconds_ago("14d", 14 * 86_400);
}

#[test]
fn parse_hours_and_minutes_match_requested_duration() {
    assert_seconds_ago("24h", 24 * 3_600);
    assert_seconds_ago("90m", 90 * 60);
}

#[test]
fn zero_duration_returns_now() {
    let parsed = parse_time_range("0d").unwrap();
    let now = chrono::Local::now().timestamp();
    assert!((parsed - now).abs() <= 5, "0d should equal now within 5s");
}

#[test]
fn empty_rejected() {
    assert!(parse_time_range("").is_err());
}

#[test]
fn bad_format_rejected() {
    assert!(parse_time_range("soon").is_err());
    assert!(parse_time_range("3weeks").is_err());
}

#[test]
fn error_messages_name_the_input() {
    assert_eq!(parse_time_range(""), Err("empty time range".to_string()));
    assert_eq!(
        parse_time_range("soon"),
        Err("invalid time range format: soon".to_string())
    );
}

#[test]
fn first_number_with_a_unit_counts() {
    assert_seconds_ago("last 2h please", 2 * 3_600);
    assert_seconds_ago("x5y7m", 7 * 60);
}

#[test]
fn since_counts_back_exactly() {
    assert_eq!(time_range_since(1_000_000, "3", "d"), Ok(1_000_000 - 3 * 86_400));
    assert_eq!(time_range_since(1_000_000, "24", "h"), Ok(1_000_000 - 24 * 3_600));
    assert_eq!(time_range_since(1_000_000, "90", "m"), Ok(1_000_000 - 90 * 60));
    assert_eq!(time_range_since(0, "0", "d"), Ok(0));
}

#[test]
fn unreadable_amount_counts_as_three() {
    assert_eq!(time_range_since(1_000_000, "99999999999999999999", "d"), Ok(1_000_000 - 3 * 86_400));
    assert_eq!(time_range_since(1_000_000, "٣", "h"), Ok(1_000_000 - 3 * 3_600));
}

#[test]
fn unknown_unit_and_huge_ranges_are_errors() {
    assert_eq!(time_range_since(0, "3", "w"), Err("invalid time unit: w".to_string()));
    assert_eq!(
        time_range_since(0, "9223372036854775807", "d"),
        Err("time range out of range".to_string())
    );
    assert_eq!(
        time_range_since(0, "9999999999999", "d"),
        Err("time range out of range".to_string())
    );
}

#[test]
fn ranges_end_at_the_edges_of_chrono() {
    assert_eq!(time_range_since(MIN_TIMESTAMP + 86_400, "1", "d"), Ok(MIN_TIMESTAMP));
    assert_eq!(
        time_range_since(MIN_TIMESTAMP + 86_400, "2", "d"),
        Err("time range out of range".to_string())
    );
    assert_eq!(time_range_since(MAX_TIMESTAMP - 60, "-1", "m"), Ok(MAX_TIMESTAMP));
    assert_eq!(
        time_range_since(MAX_TIMESTAMP, "-1", "m"),
        Err("time range out of range".to_string())
    );
    assert_eq!(
        time_range_since(MAX_TIMESTAMP + 1, "0", "m"),
        Err("time range out of range".to_string())
    );
    let minutes = (MAX_DELTA_SECONDS / 60).to_string();
    assert_eq!(time_range_since(0, &minutes, "m"), Err("time range out of range".to_string()));
}
