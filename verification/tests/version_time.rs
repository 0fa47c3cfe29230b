use ogm::time::{epoch_to_date, epoch_to_rfc3339, rfc3339_to_epoch};
use ogm::version::{compare_versions, has_update};
use std::cmp::Ordering;

#[test]
fn version_compare_table() {
    let cases: &[(&str, &str, Ordering)] = &[
        ("v1.10.2", "v1.9.9", Ordering::Greater),
        ("9.0.1", "9.0.1", Ordering::Equal),
        ("1.0", "v1.0.0", Ordering::Equal),
        ("1.0", "1.0.1", Ordering::Less),
        ("R85", "R86", Ordering::Less),
        ("v7533", "v7532", Ordering::Greater),
        ("1.0.0-alpha", "1.0.0-beta", Ordering::Less),
        ("2.0", "10.0", Ordering::Less),
        ("v26.03.28.0-stable", "v26.03.28.0", Ordering::Greater),
        ("1.0.0", "v1", Ordering::Equal),
    ];
    for (a, b, want) in cases {
        assert_eq!(
            compare_versions(a, b),
            *want,
            "compare_versions({a:?}, {b:?})"
        );
        assert_eq!(
            compare_versions(b, a),
            want.reverse(),
            "compare_versions({b:?}, {a:?})"
        );
    }
}

#[test]
fn garbage_does_not_panic() {
    assert_eq!(compare_versions("", ""), Ordering::Equal);
    let _ = compare_versions("???", "1.0");
    let _ = compare_versions("99999999999999999999999999", "1");
    let _ = compare_versions("a.b.c", "x.y.z");
}

#[test]
fn has_update_rules() {
    assert!(has_update(Some("1.0"), Some("1.1")));
    assert!(!has_update(Some("1.1"), Some("1.0")));
    assert!(!has_update(Some("1.0"), Some("1.0")));
    assert!(!has_update(None, Some("1.0")));
    assert!(!has_update(Some("1.0"), None));
    assert!(!has_update(None, None));
    assert!(!has_update(Some("garbage"), Some("also-garbage")));
    assert!(has_update(Some("v9.1.1"), Some("9.1.2")));
}

#[test]
fn overflowing_numeric_segments_compare_lexically() {
    // 26 digits do not fit a u64, so the segment compares as text: '9' > '1'.
    assert_eq!(
        compare_versions("99999999999999999999999999", "1"),
        Ordering::Greater
    );
    assert_eq!(
        compare_versions("10000000000000000000000", "9"),
        Ordering::Less
    );
    assert_eq!(compare_versions("18446744073709551615", "18446744073709551614"), Ordering::Greater);
}

#[test]
fn version_order_is_antisymmetric_on_samples() {
    let samples = ["", "1", "v1.2", "1.2.0", "1a", "10", "9", "x.y", " v3 ", "V3-rc_1"];
    for a in samples {
        assert_eq!(compare_versions(a, a), Ordering::Equal);
        for b in samples {
            assert_eq!(compare_versions(a, b), compare_versions(b, a).reverse());
        }
    }
}

#[test]
fn epoch_round_trip() {
    assert_eq!(epoch_to_rfc3339(0), "1970-01-01T00:00:00Z");
    assert_eq!(epoch_to_rfc3339(1_789_300_800), "2026-09-13T12:00:00Z");
    assert_eq!(
        rfc3339_to_epoch("2026-09-13T12:00:00Z"),
        Some(1_789_300_800)
    );
    assert_eq!(rfc3339_to_epoch("1970-01-01T00:00:00Z"), Some(0));
}

#[test]
fn epoch_to_date_conversion() {
    // 1998-11-23
    assert_eq!(epoch_to_date(911_779_200), "1998-11-23");
    assert_eq!(epoch_to_date(0), "1970-01-01");
}

#[test]
fn rfc3339_rejects_garbage() {
    assert_eq!(rfc3339_to_epoch("not a date"), None);
    assert_eq!(rfc3339_to_epoch("2026-13-40T99:99:99Z"), None);
    assert_eq!(rfc3339_to_epoch(""), None);
}

#[test]
fn rfc3339_round_trip_on_samples() {
    for secs in [
        -62_167_219_200i64,
        -1,
        0,
        59,
        86_399,
        86_400,
        951_782_400, // 2000-02-29
        4_107_542_400,
        253_402_300_799,
    ] {
        let text = epoch_to_rfc3339(secs);
        assert_eq!(rfc3339_to_epoch(&text), Some(secs), "{text}");
    }
}

#[test]
fn rfc3339_edge_forms() {
    assert_eq!(epoch_to_rfc3339(-1), "1969-12-31T23:59:59Z");
    assert_eq!(epoch_to_rfc3339(951_782_400), "2000-02-29T00:00:00Z");
    assert_eq!(epoch_to_rfc3339(-62_167_219_201), "-001-12-31T23:59:59Z");
    assert_eq!(epoch_to_rfc3339(253_402_300_800), "10000-01-01T00:00:00Z");
    // surrounding whitespace is trimmed; a leap second is accepted
    assert_eq!(rfc3339_to_epoch("  1970-01-01T00:00:60Z\n"), Some(60));
    // signs are accepted where str::parse accepts them
    assert_eq!(rfc3339_to_epoch("1970-+1-01T00:00:00Z"), Some(0));
    assert_eq!(rfc3339_to_epoch("1970-01-01T00:-1:00Z"), Some(-60));
    assert_eq!(rfc3339_to_epoch("1970--1-01T00:00:00Z"), None);
    // a non-ASCII separator is rejected
    assert_eq!(rfc3339_to_epoch("1970é01-01T00:00:00Z"), None);
    // too short
    assert_eq!(rfc3339_to_epoch("1970-01-01T00:00:00"), None);
    assert_eq!(epoch_to_date(i64::MIN).len() > 10, true);
    assert_eq!(epoch_to_rfc3339(i64::MAX).ends_with('Z'), true);
}
