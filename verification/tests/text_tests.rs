//! Text helpers: chat-markup escaping, identifier validation, and timestamp
//! and duration rendering.

use eggmon::text::is_valid_ei;
use eggmon::types::{fmt_time_delta, fmt_time_delta_short, timestamp_fmt, timestamp_to_string,
    u64_to_string};
use eggmon::{replace_all, return_tf_emoji};

#[test]
fn markup_characters_are_escaped() {
    assert_eq!(replace_all("a.b!c"), "a\\.b\\!c");
    assert_eq!(replace_all("_*[]()~>#+-=|{}.!"), "\\_\\*\\[\\]\\(\\)\\~\\>\\#\\+\\-\\=\\|\\{\\}\\.\\!");
    assert_eq!(replace_all("plain words"), "plain words");
    assert_eq!(replace_all(""), "");
    assert_eq!(replace_all("köln.2"), "köln\\.2");
}

#[test]
fn boolean_emoji() {
    assert_eq!(return_tf_emoji(true), "✅");
    assert_eq!(return_tf_emoji(false), "❌");
}

#[test]
fn account_identifier_validation() {
    assert!(is_valid_ei("EI0000000000000001"));
    assert!(is_valid_ei("EI6291940968235008"));
    assert!(!is_valid_ei("EI000000000000001"));   // fifteen digits
    assert!(!is_valid_ei("EI00000000000000011")); // seventeen digits
    assert!(!is_valid_ei("eI0000000000000001"));
    assert!(!is_valid_ei("EI000000000000000x"));
    assert!(!is_valid_ei(""));
}

#[test]
fn decimal_rendering() {
    assert_eq!(u64_to_string(0), "0");
    assert_eq!(u64_to_string(7), "7");
    assert_eq!(u64_to_string(105), "105");
    assert_eq!(u64_to_string(u64::MAX), "18446744073709551615");
}

#[test]
fn short_durations() {
    assert_eq!(fmt_time_delta_short(-5), "0h0m0s");
    assert_eq!(fmt_time_delta_short(0), "0h0m0s");
    assert_eq!(fmt_time_delta_short(3 * 60 + 4), "0h3m4s");
    assert_eq!(fmt_time_delta_short(26 * 3600 + 3 * 60 + 4), "1d2h3m4s");
    assert_eq!(fmt_time_delta_short(86400 * 3), "3d0h0m0s");
}

#[test]
fn long_durations() {
    assert_eq!(fmt_time_delta(0), "00:00:00");
    assert_eq!(fmt_time_delta(2 * 3600 + 3 * 60 + 4), "02:03:04");
    assert_eq!(fmt_time_delta(26 * 3600 + 3 * 60 + 4), "1 day, 02:03:04");
    assert_eq!(fmt_time_delta(86400 * 2 + 59), "2 days, 00:00:59");
}

#[test]
fn timestamps_render_in_the_home_zone() {
    // The home zone sits eight hours ahead of UTC (no daylight saving).
    assert_eq!(timestamp_to_string(0), "1970-01-01 08:00:00");
    assert_eq!(timestamp_to_string(1700000000), "2023-11-15 06:13:20");
    assert_eq!(timestamp_fmt(1700000000, "%Y%m%d-%H%M%S"), "20231115-061320");
    // Out of the calendar's range.
    assert_eq!(timestamp_to_string(i64::MAX), "N/A");
    assert_eq!(timestamp_to_string(i64::MIN), "N/A");
    // The exact boundaries of the representable range.
    assert_ne!(timestamp_to_string(-8334601228800), "N/A");
    assert_eq!(timestamp_to_string(-8334601228801), "N/A");
    assert_ne!(timestamp_to_string(8210266876799), "N/A");
    assert_eq!(timestamp_to_string(8210266876800), "N/A");
}

#[test]
fn an_unparsable_format_reads_not_available() {
    // A dangling format specifier must come back as text, never abort.
    assert_eq!(timestamp_fmt(0, "%"), "N/A");
    assert_eq!(timestamp_fmt(0, "%-"), "N/A");
}
