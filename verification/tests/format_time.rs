use gamelunch::{format_time, listing_line};
use gamelunch::text::{decimal_string, last_segment_of, text_le_of};

#[test]
fn seconds_below_a_minute() {
    assert_eq!(format_time(&45), "45 seconds");
}

#[test]
fn minutes_are_truncated() {
    assert_eq!(format_time(&130), "2 minutes");
}

#[test]
fn hours_are_truncated() {
    assert_eq!(format_time(&7260), "2 hours");
}

#[test]
fn format_time_at_the_unit_borders() {
    assert_eq!(format_time(&0), "0 seconds");
    assert_eq!(format_time(&1), "1 seconds");
    assert_eq!(format_time(&59), "59 seconds");
    assert_eq!(format_time(&60), "1 minutes");
    assert_eq!(format_time(&119), "1 minutes");
    assert_eq!(format_time(&3599), "59 minutes");
    assert_eq!(format_time(&3600), "1 hours");
    assert_eq!(format_time(&7199), "1 hours");
    assert_eq!(format_time(&u64::MAX), "5124095576030431 hours");
}

#[test]
fn decimal_string_writes_every_digit() {
    assert_eq!(decimal_string(0), "0");
    assert_eq!(decimal_string(7), "7");
    assert_eq!(decimal_string(10), "10");
    assert_eq!(decimal_string(1234567890), "1234567890");
    assert_eq!(decimal_string(u64::MAX), "18446744073709551615");
}

#[test]
fn decimal_string_agrees_with_the_standard_library() {
    let mut n: u64 = 1;
    for _ in 0..64 {
        assert_eq!(decimal_string(n), format!("{}", n));
        assert_eq!(decimal_string(n - 1), format!("{}", n - 1));
        n = n.wrapping_mul(2);
    }
}

#[test]
fn last_segment_follows_the_last_separator() {
    assert_eq!(last_segment_of("/usr/bin/game", '/'), "game");
    assert_eq!(last_segment_of("game", '/'), "game");
    assert_eq!(last_segment_of("dir/", '/'), "");
    assert_eq!(last_segment_of("", '/'), "");
    assert_eq!(last_segment_of("/", '/'), "");
    assert_eq!(last_segment_of("a//b", '/'), "b");
    assert_eq!(last_segment_of("C:\\Games\\Tool.exe", '\\'), "Tool.exe");
    assert_eq!(last_segment_of("C:\\Games\\Tool.exe", '/'), "C:\\Games\\Tool.exe");
    assert_eq!(last_segment_of("/spiele/größe", '/'), "größe");
}

#[test]
fn text_order_is_the_order_of_strings() {
    let samples = ["", "a", "A", "ab", "abc", "b", "ä", "z", "Zebra", "game.exe", "game", "日本"];
    for a in samples.iter() {
        for b in samples.iter() {
            assert_eq!(text_le_of(a, b), a <= b, "{:?} against {:?}", a, b);
        }
    }
}

#[test]
fn listing_line_joins_name_and_time() {
    assert_eq!(listing_line("game.exe", 45), "game.exe, 45 seconds");
    assert_eq!(listing_line("tool", 3600), "tool, 1 hours");
    assert_eq!(listing_line("", 0), ", 0 seconds");
}
