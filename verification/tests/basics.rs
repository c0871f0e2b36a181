use kronical::numbers::{number_text, parse_number, parse_signed, signed_text};
use kronical::text::{
    chars_of, contains, eq_ignore_ascii_case, find, skip_chars, starts_with, text_of, trim,
    trim_end,
};
use kronical::time::Timestamp;
use kronical::window_groups::normalize_title;

fn t(secs: i64, nanos: u32) -> Timestamp {
    Timestamp::from_timestamp(secs, nanos).unwrap()
}

#[test]
fn texts_are_trimmed_as_unicode_says() {
    for n in 0..=0x10_ffffu32 {
        if let Some(c) = char::from_u32(n) {
            if c.is_whitespace() {
                let s = format!("{c}x{c}");
                assert_eq!(trim(&s), "x");
                assert_eq!(trim_end(&s), format!("{c}x"));
            }
        }
    }
    for c in ['\u{200b}', '\u{feff}', '\u{180e}', 'é', '0'] {
        let s = format!("{c}x{c}");
        assert_eq!(trim(&s), s);
    }
    assert_eq!(trim(" \t\n"), "");
}

#[test]
fn titles_are_normalized() {
    assert_eq!(normalize_title("  ÄPFEL Und Straße "), "äpfel und straße");
    assert_eq!(normalize_title("foo "), "foo");
}

#[test]
fn texts_are_searched() {
    assert!(starts_with("data: x", "data:"));
    assert!(!starts_with("dat", "data:"));
    assert!(contains("a loginwindow b", "loginwindow"));
    assert!(!contains("abc", "abd"));
    assert_eq!(find("äöü-öü", "öü"), Some(1));
    assert_eq!(find("abc", "x"), None);
    assert_eq!(find("abc", ""), Some(0));
    assert_eq!(skip_chars("äbc", 1), "bc");
    assert_eq!(text_of(&chars_of("wörld"), 1, 3), "ör");
    assert!(eq_ignore_ascii_case("LoginWindow", "loginwindow"));
    assert!(!eq_ignore_ascii_case("Ä", "ä"));
}

#[test]
fn numbers_are_read_as_the_standard_library_reads_them() {
    for s in [
        "", "+", "-", "0", "+7", "-7", "007", "4294967295", "4294967296", "1 ", " 1", "1a", "--1",
        "-0", "18446744073709551615", "18446744073709551616", "9223372036854775807",
        "9223372036854775808", "-9223372036854775808", "-9223372036854775809",
        "99999999999999999999999999",
    ] {
        assert_eq!(parse_number(s, u64::MAX), s.parse::<u64>().ok(), "{s:?}");
        assert_eq!(
            parse_number(s, u32::MAX as u64).map(|n| n as u32),
            s.parse::<u32>().ok(),
            "{s:?}"
        );
        assert_eq!(parse_signed(s), s.parse::<i64>().ok(), "{s:?}");
    }
    for n in [0, 9, 10, 99, 100, u64::MAX] {
        assert_eq!(number_text(n), n.to_string());
    }
    for n in [0, -1, 10, i64::MIN, i64::MAX] {
        assert_eq!(signed_text(n), n.to_string());
    }
}

#[test]
fn instants_are_those_of_the_calendar() {
    for (secs, nanos) in [
        (0, 0),
        (-1, 999_999_999),
        (59, 1_999_999_999),
        (58, 1_000_000_000),
        (0, 2_000_000_000),
        (8_210_266_876_799, 0),
        (8_210_266_876_800, 0),
        (-8_334_601_228_800, 0),
        (-8_334_601_228_801, 0),
        (i64::MAX, 0),
        (i64::MIN, 0),
    ] {
        assert_eq!(
            Timestamp::from_timestamp(secs, nanos).is_some(),
            chrono::DateTime::<chrono::Utc>::from_timestamp(secs, nanos).is_some(),
            "{secs} {nanos}"
        );
    }
    let now = Timestamp::now();
    assert!(t(1_600_000_000, 0).is_before(&now));
    assert_eq!(Timestamp::epoch(), t(0, 0));
}

#[test]
fn instants_are_compared_and_subtracted() {
    let (a, b) = (t(10, 5), t(12, 4));
    assert!(a.is_before(&b));
    assert!(!b.is_before(&a));
    assert!(!a.is_before(&a));
    assert_eq!(a.max_with(&b), b);
    assert_eq!(a.min_with(&b), a);
    assert_eq!(b.num_seconds_since(&a), 1);
    assert_eq!(a.num_seconds_since(&b), -1);
    let d = b.since(&a);
    assert_eq!((d.secs, d.nanos), (1, 999_999_999));
    let d = a.since(&b);
    assert_eq!((d.secs, d.nanos), (-1, -999_999_999));
    assert_eq!(t(-1, 500_000_000).timestamp_millis(), -500);
    assert_eq!(t(1, 999_999_999).timestamp_millis(), 1_999);
    // A leap second counts where the clock passes it.
    let leap = t(59, 1_500_000_000);
    for other in [t(0, 0), t(59, 0), t(60, 0), t(86_400, 0)] {
        let as_chrono = |x: Timestamp| {
            chrono::DateTime::<chrono::Utc>::from_timestamp(x.timestamp(), x.subsec_nanos())
                .unwrap()
        };
        let expected = as_chrono(other).signed_duration_since(as_chrono(leap));
        let d = other.since(&leap);
        assert_eq!((d.secs, d.nanos), (expected.num_seconds(), expected.subsec_nanos()));
    }
}

#[test]
fn instants_are_written_and_read() {
    let at = t(1_700_000_000, 123_456_789);
    assert_eq!(at.to_rfc3339(), "2023-11-14T22:13:20.123456789+00:00");
    assert_eq!(at.show(), "2023-11-14 22:13:20.123456789 UTC");
    for x in [at, t(0, 0), t(59, 1_000_000_000), t(-62_167_219_200, 0), t(253_402_300_799, 1)] {
        assert_eq!(Timestamp::parse_from_rfc3339(&x.to_rfc3339()), Ok(x));
    }
    assert_eq!(
        Timestamp::parse_from_rfc3339("1970-01-01T01:00:00+01:00"),
        Ok(t(0, 0))
    );
    for text in ["1970-01-01", "", "1970-13-01T00:00:00Z", "1970-01-01T00:00:00Zx"] {
        assert_eq!(
            Timestamp::parse_from_rfc3339(text).unwrap_err(),
            chrono::DateTime::parse_from_rfc3339(text)
                .unwrap_err()
                .to_string()
        );
    }
}
