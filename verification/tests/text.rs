use wren::stores::{cpu_ticks_from_stat, most_recent_first, position_of_created_at, rss_from_statm, SystemClock};
use wren::ports::Clock;
use wren::text::{decimal, is_whitespace, parse_u64, replace_text, trim_text};

#[test]
fn whitespace_matches_the_standard_library() {
    for c in (0u32..=0x3100).filter_map(char::from_u32) {
        assert_eq!(is_whitespace(c), c.is_whitespace(), "{c:?}");
    }
}

#[test]
fn parse_u64_matches_the_standard_library() {
    for s in ["0", "42", "+7", "", "-1", "1_000", " 5", "18446744073709551615", "18446744073709551616", "00012", "+"] {
        assert_eq!(parse_u64(s), s.parse::<u64>().ok(), "{s:?}");
    }
}

#[test]
fn decimal_writes_the_digits() {
    assert_eq!(decimal(0), "0");
    assert_eq!(decimal(503), "503");
    assert_eq!(decimal(u64::MAX), u64::MAX.to_string());
}

#[test]
fn trim_and_replace_match_the_standard_library() {
    assert_eq!(trim_text("\u{3000} a b \n"), "a b");
    assert_eq!(replace_text("aaa", "aa", "b"), "ba");
    assert_eq!(replace_text("abc", "", "x"), "abc");
}

#[test]
fn recent_entries_come_most_recent_first() {
    assert_eq!(most_recent_first(vec![1, 2, 3, 4], 2), vec![4, 3]);
    assert_eq!(most_recent_first(vec![1, 2], 10), vec![2, 1]);
    assert!(most_recent_first(vec![1, 2], 0).is_empty());
}

#[test]
fn the_first_entry_with_the_time_is_found() {
    assert_eq!(position_of_created_at(&[111, 222, 222], 222), Some(1));
    assert_eq!(position_of_created_at(&[111, 222], 999), None);
}

#[test]
fn the_system_clock_is_past_2020() {
    assert!(SystemClock.now_ms() > 1_577_836_800_000);
}

#[test]
fn recordings_are_named_by_time_and_attempt() {
    assert_eq!(wren::stores::recording_file_name(1700000000123, 0), "rec-1700000000123.wav");
    assert_eq!(wren::stores::recording_file_name(5, 2), "rec-5-2.wav");
}

#[test]
fn resident_memory_is_the_second_statm_field_in_pages() {
    assert_eq!(rss_from_statm("12345 678 90 1 0 2 0\n"), Some(678 * 4096));
    assert_eq!(rss_from_statm("  1\t\t2  "), Some(2 * 4096));
    assert_eq!(rss_from_statm("1"), None);
    assert_eq!(rss_from_statm("1 x"), None);
    assert_eq!(rss_from_statm("1 18446744073709551615"), None);
}

#[test]
fn cpu_ticks_are_counted_after_the_command_name() {
    assert_eq!(cpu_ticks_from_stat("1234 (my (odd) prog) S 1 2 3 4 5 6 7 8 9 10 11 12 13 14\n"), Some(23));
    assert_eq!(cpu_ticks_from_stat("1234 (p) S 1 2"), None);
    assert_eq!(cpu_ticks_from_stat("no parenthesis 1 2 3 4 5 6 7 8 9 10 11 12 13"), None);
    assert_eq!(cpu_ticks_from_stat("1 (p) S 0 0 0 0 0 0 0 0 0 0 x 1"), None);
}
