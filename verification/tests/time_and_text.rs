use days_since::text::{chars_of, contains, decimal, skip_chars, starts_with};
use days_since::time::{Timestamp, MAX_SECONDS, MIN_SECONDS};

fn at(secs: i64, nanos: u32) -> Timestamp {
    Timestamp::new(secs, nanos).unwrap()
}

#[test]
fn timestamp_keeps_its_parts() {
    let t = at(1_700_000_000, 123_456_789);
    assert_eq!(t.secs(), 1_700_000_000);
    assert_eq!(t.nanos(), 123_456_789);
}

#[test]
fn timestamp_rejects_what_is_off_the_time_line() {
    assert!(Timestamp::new(0, 1_000_000_000).is_none());
    assert!(Timestamp::new(MAX_SECONDS + 1, 0).is_none());
    assert!(Timestamp::new(MIN_SECONDS - 1, 0).is_none());
    assert!(Timestamp::new(i64::MAX, 0).is_none());
    assert!(Timestamp::new(i64::MIN, 0).is_none());
    assert!(Timestamp::new(MAX_SECONDS, 999_999_999).is_some());
    assert!(Timestamp::new(MIN_SECONDS, 0).is_some());
}

#[test]
fn no_days_between_a_moment_and_itself() {
    let t = at(1_700_000_000, 5);
    assert_eq!(t.days_until(&t), 0);
}

#[test]
fn whole_days_are_counted() {
    let since = at(1_000, 0);
    assert_eq!(since.days_until(&at(1_000 + 86_400, 0)), 1);
    assert_eq!(since.days_until(&at(1_000 + 3 * 86_400 + 5, 0)), 3);
    assert_eq!(since.days_until(&at(1_000 + 365 * 86_400, 0)), 365);
}

#[test]
fn a_day_that_is_not_over_does_not_count() {
    let since = at(1_000, 0);
    assert_eq!(since.days_until(&at(1_000 + 86_399, 999_999_999)), 0);
    assert_eq!(since.days_until(&at(1_000 + 2 * 86_400 - 1, 0)), 1);
}

#[test]
fn nanoseconds_decide_at_the_edge_of_a_day() {
    let since = at(0, 500_000_000);
    assert_eq!(since.days_until(&at(86_400, 499_999_999)), 0);
    assert_eq!(since.days_until(&at(86_400, 500_000_000)), 1);
}

#[test]
fn days_into_the_past_are_negative_and_round_toward_zero() {
    let since = at(10 * 86_400, 0);
    assert_eq!(since.days_until(&at(10 * 86_400 - 1, 0)), 0);
    assert_eq!(since.days_until(&at(9 * 86_400, 0)), -1);
    assert_eq!(since.days_until(&at(8 * 86_400 - 1, 0)), -2);
    assert_eq!(since.days_until(&at(9 * 86_400, 1)), 0);
    assert_eq!(since.days_until(&at(0, 0)), -10);
}

#[test]
fn days_across_the_whole_time_line() {
    let first = at(MIN_SECONDS, 0);
    let last = at(MAX_SECONDS, 999_999_999);
    assert_eq!(first.days_until(&last), 191_491_528);
    assert_eq!(last.days_until(&first), -191_491_528);
}

#[test]
fn days_before_the_epoch() {
    let since = at(-3 * 86_400, 0);
    assert_eq!(since.days_until(&at(0, 0)), 3);
    assert_eq!(since.days_until(&at(-1, 0)), 2);
}

#[test]
fn decimal_renders_numbers() {
    assert_eq!(decimal(0), "0");
    assert_eq!(decimal(7), "7");
    assert_eq!(decimal(10), "10");
    assert_eq!(decimal(1_234_567_890), "1234567890");
    assert_eq!(decimal(-1), "-1");
    assert_eq!(decimal(-205), "-205");
    assert_eq!(decimal(i64::MAX), "9223372036854775807");
    assert_eq!(decimal(i64::MIN), "-9223372036854775808");
}

#[test]
fn chars_of_gives_every_character() {
    assert_eq!(chars_of(""), Vec::<char>::new());
    assert_eq!(chars_of("añb"), vec!['a', 'ñ', 'b']);
}

#[test]
fn starts_with_compares_whole_prefix() {
    assert!(starts_with("123:alpha", "123:"));
    assert!(starts_with("123:alpha", ""));
    assert!(starts_with("abc", "abc"));
    assert!(!starts_with("abc", "abcd"));
    assert!(!starts_with("1234:alpha", "123:"));
    assert!(!starts_with("", "a"));
    assert!(starts_with("ñandú", "ñan"));
}

#[test]
fn contains_finds_a_text_anywhere() {
    assert!(contains("alpha", "a"));
    assert!(contains("alpha", "al"));
    assert!(contains("alpha", "pha"));
    assert!(contains("alpha", "lph"));
    assert!(contains("alpha", "alpha"));
    assert!(contains("alpha", ""));
    assert!(contains("", ""));
    assert!(!contains("alpha", "alphabet"));
    assert!(!contains("beta", "al"));
    assert!(!contains("", "a"));
    assert!(!contains("aab", "abb"));
    assert!(contains("aaab", "aab"));
}

#[test]
fn contains_minds_case() {
    assert!(!contains("alpha", "A"));
    assert!(contains("Alpha", "A"));
}

#[test]
fn skip_chars_counts_characters_not_bytes() {
    assert_eq!(skip_chars("ñandú", 1), "andú");
    assert_eq!(skip_chars("abc", 0), "abc");
    assert_eq!(skip_chars("abc", 3), "");
}

#[test]
fn time_line_is_the_one_that_chrono_supports() {
    assert!(chrono::DateTime::from_timestamp(MIN_SECONDS, 0).is_some());
    assert!(chrono::DateTime::from_timestamp(MIN_SECONDS - 1, 999_999_999).is_none());
    assert!(chrono::DateTime::from_timestamp(MAX_SECONDS, 999_999_999).is_some());
    assert!(chrono::DateTime::from_timestamp(MAX_SECONDS + 1, 0).is_none());
    assert_eq!(chrono::DateTime::<chrono::Utc>::MIN_UTC.timestamp(), MIN_SECONDS);
    assert_eq!(chrono::DateTime::<chrono::Utc>::MAX_UTC.timestamp(), MAX_SECONDS);
}

#[test]
fn days_agree_with_chrono() {
    let pairs: Vec<(i64, u32, i64, u32)> = vec![
        (0, 0, 86_400, 0),
        (1_700_000_000, 250_000_000, 1_712_345_678, 249_999_999),
        (1_712_345_678, 1, 1_700_000_000, 2),
        (-5_000_000, 999_999_999, 5_000_000, 0),
        (86_400, 1, 0, 0),
    ];
    for (s0, n0, s1, n1) in pairs {
        let since = chrono::DateTime::from_timestamp(s0, n0).unwrap();
        let now = chrono::DateTime::from_timestamp(s1, n1).unwrap();
        assert_eq!(at(s0, n0).days_until(&at(s1, n1)), (now - since).num_days());
    }
}
