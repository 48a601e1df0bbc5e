use playback::shift::{parse_time, to_signed_seconds, TimeType};

#[test]
fn test_time_type_from_str() {
    // when valid
    let cases = vec![
        ("2s", TimeType::S(2)),
        ("5s", TimeType::S(5)),
        ("2m", TimeType::M(2)),
        ("2h", TimeType::H(2)),
        ("2d", TimeType::D(2)),
        ("2w", TimeType::W(2)),
    ];

    for (case, expect) in cases {
        let actual = TimeType::from_str(case).unwrap();

        assert_eq!(actual, expect)
    }

    // when invalid
    assert!(TimeType::from_str("").is_err());
    assert!(TimeType::from_str("2").is_err());
    assert!(TimeType::from_str("2t").is_err());
}

#[test]
fn parse_time_scales_by_unit_factor() {
    assert_eq!(parse_time("2s").unwrap(), 2);
    assert_eq!(parse_time("5m").unwrap(), 5 * 60);
    assert_eq!(parse_time("3h").unwrap(), 3 * 3600);
    assert_eq!(parse_time("2d").unwrap(), 2 * 86400);
    assert_eq!(parse_time("1w").unwrap(), 604800);
    assert_eq!(parse_time("0s").unwrap(), 0);
}

#[test]
fn parse_time_rejects_malformed_expressions() {
    assert!(parse_time("").is_err());
    assert!(parse_time("5").is_err());
    assert!(parse_time("5x").is_err());
    assert!(parse_time("m").is_err());
    assert!(parse_time("+2s").is_err());
    assert!(parse_time("2.5s").is_err());
    assert!(parse_time("1d2h").is_err());
}

#[test]
fn parse_time_rejects_overflowing_values() {
    // One more than u64::MAX: the prefix itself cannot be counted.
    assert!(parse_time("18446744073709551616s").is_err());
    // The prefix fits, but scaling by the unit factor does not.
    assert!(parse_time("999999999999999999w").is_err());
    // The same count in seconds is fine.
    assert_eq!(parse_time("999999999999999999s").unwrap(), 999999999999999999);
}

#[test]
fn signed_seconds_conversion() {
    assert_eq!(to_signed_seconds(0), Some(0));
    assert_eq!(to_signed_seconds(7200), Some(7200));
    assert_eq!(to_signed_seconds(i64::MAX as u64), Some(i64::MAX));
    assert_eq!(to_signed_seconds(i64::MAX as u64 + 1), None);
    assert_eq!(to_signed_seconds(u64::MAX), None);
}
