use rsass::timefmt::{
    normalize, parse_generic, parse_rfc2822, parse_rfc2822_padded, parse_rfc3339, TimeError,
    Timestamp,
};

const MAY_FIRST: i64 = 1682935200; // 2023-05-01T10:00:00Z

#[test]
fn test_time_format_coverage() {
    let standard = normalize("2023-05-01T10:00:00Z").expect("standard profile must parse");
    let message = normalize("Mon, 01 May 2023 10:00:00 +0000").expect("message format must parse");
    let bare = normalize("Mon, 01 May 2023 10:00:00").expect("offset-free message must parse");

    assert_eq!(standard, Timestamp { seconds: MAY_FIRST });
    assert_eq!(message, standard);
    assert_eq!(bare, standard);
}

#[test]
fn test_generic_space_separator() {
    let t = normalize("2023-05-01 10:00:00Z").unwrap();
    assert_eq!(t.seconds, MAY_FIRST);
}

#[test]
fn test_positive_offset_subtracts() {
    let t = normalize("2023-05-01T10:00:00+02:00").unwrap();
    assert_eq!(t.seconds, MAY_FIRST - 7200);
}

#[test]
fn test_negative_offset_adds() {
    let t = normalize("2023-05-01T10:00:00-02:00").unwrap();
    assert_eq!(t.seconds, MAY_FIRST + 7200);
}

#[test]
fn test_fractional_seconds_ignored() {
    let t = normalize("2023-05-01T10:00:00.123Z").unwrap();
    assert_eq!(t.seconds, MAY_FIRST);
}

#[test]
fn test_fraction_needs_digits() {
    assert_eq!(normalize("2023-05-01T10:00:00.Z"), Err(TimeError::UnparsableTimestamp));
}

#[test]
fn test_epoch() {
    let t = normalize("1970-01-01T00:00:00Z").unwrap();
    assert_eq!(t.seconds, 0);
}

#[test]
fn test_instant_before_epoch_in_utc() {
    let t = normalize("Thu, 01 Jan 1970 00:00:00 +0100").unwrap();
    assert_eq!(t.seconds, -3600);
}

#[test]
fn test_leap_day_accepted() {
    let t = normalize("2024-02-29T00:00:00Z").unwrap();
    assert_eq!(t.seconds, 1709164800);
}

#[test]
fn test_nonexistent_date_rejected() {
    assert_eq!(normalize("2023-02-29T00:00:00Z"), Err(TimeError::UnparsableTimestamp));
}

#[test]
fn test_message_single_digit_day() {
    let t = normalize("Mon, 1 May 2023 10:00:00 GMT").unwrap();
    assert_eq!(t.seconds, MAY_FIRST);
}

#[test]
fn test_message_without_weekday_prefix() {
    let t = normalize("01 May 2023 10:00:00 +0000").unwrap();
    assert_eq!(t.seconds, MAY_FIRST);
}

#[test]
fn test_message_named_zones() {
    let gmt = normalize("Mon, 01 May 2023 10:00:00 GMT").unwrap();
    let ut = normalize("Mon, 01 May 2023 10:00:00 UT").unwrap();
    let utc = normalize("Mon, 01 May 2023 10:00:00 UTC").unwrap();
    assert_eq!(gmt.seconds, MAY_FIRST);
    assert_eq!(ut.seconds, MAY_FIRST);
    assert_eq!(utc.seconds, MAY_FIRST);
}

#[test]
fn test_message_numeric_zone() {
    let t = normalize("Mon, 01 May 2023 12:00:00 +0200").unwrap();
    assert_eq!(t.seconds, MAY_FIRST);
}

#[test]
fn test_wrong_weekday_rejected() {
    // 2023-05-01 was a Monday.
    assert_eq!(
        normalize("Tue, 01 May 2023 10:00:00 +0000"),
        Err(TimeError::UnparsableTimestamp)
    );
}

#[test]
fn test_iso_without_offset_rejected() {
    assert_eq!(normalize("2023-05-01T10:00:00"), Err(TimeError::UnparsableTimestamp));
}

#[test]
fn test_garbage_rejected() {
    assert_eq!(normalize("not a date"), Err(TimeError::UnparsableTimestamp));
    assert_eq!(normalize(""), Err(TimeError::UnparsableTimestamp));
}

#[test]
fn test_year_before_epoch_rejected() {
    assert_eq!(normalize("1969-12-31T23:59:59Z"), Err(TimeError::UnparsableTimestamp));
}

#[test]
fn test_strategies_accept_independently() {
    let iso = "2023-05-01T10:00:00Z".as_bytes();
    let spaced = "2023-05-01 10:00:00Z".as_bytes();
    let fractional = "2023-05-01T10:00:00.5Z".as_bytes();
    let message = "Mon, 01 May 2023 10:00:00 +0000".as_bytes();
    let bare = "Mon, 01 May 2023 10:00:00".as_bytes();

    // The generic form takes a space separator; the standard profile does not.
    assert_eq!(parse_generic(spaced), Some(MAY_FIRST));
    assert_eq!(parse_rfc3339(spaced), None);

    // The standard profile takes fractional seconds; the generic form does not.
    assert_eq!(parse_rfc3339(fractional), Some(MAY_FIRST));
    assert_eq!(parse_generic(fractional), None);

    // Both accept the plain form.
    assert_eq!(parse_generic(iso), Some(MAY_FIRST));
    assert_eq!(parse_rfc3339(iso), Some(MAY_FIRST));

    // The message format needs its zone; the padded variant supplies one.
    assert_eq!(parse_rfc2822(message), Some(MAY_FIRST));
    assert_eq!(parse_rfc2822(bare), None);
    assert_eq!(parse_rfc2822_padded(bare), Some(MAY_FIRST));

    // No candidate crosses over to the other family's shape.
    assert_eq!(parse_rfc2822(iso), None);
    assert_eq!(parse_generic(message), None);
}

#[test]
fn test_trailing_text_rejected() {
    assert_eq!(
        normalize("2023-05-01T10:00:00Z trailing"),
        Err(TimeError::UnparsableTimestamp)
    );
}
