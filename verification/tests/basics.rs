use ai_allowance::clock::{current_time, month_bounds, UtcTime, FIRST_SECOND, LAST_SECOND};
use ai_allowance::natural::Natural;
use ai_allowance::text::{characters, contains, digits_of, number_text, same, starts_with, trim};
use ai_allowance::tray::{hides_on_close, menu_action, menu_entries, MenuAction};

#[test]
fn white_space_is_that_of_the_standard_library() {
    for code in 0..=0x10ffff_u32 {
        if let Some(c) = char::from_u32(code) {
            let text = format!("{c}x{c}");
            assert_eq!(trim(&text), text.trim(), "{code:x}");
        }
    }
    assert_eq!(trim(""), "");
    assert_eq!(trim(" \n"), "");
    assert_eq!(trim(" a b "), "a b");
}

#[test]
fn texts_are_compared_and_searched() {
    assert!(same("äb", "äb"));
    assert!(!same("a", "ab"));
    assert!(starts_with("github-local-x", "github-local-"));
    assert!(!starts_with("github", "github-local-"));
    assert!(contains("abcabd", "abd"));
    assert!(contains("x", ""));
    assert!(!contains("abc", "abd"));
    assert!(!contains("", "a"));
    assert_eq!(characters("aé"), vec!['a', 'é']);
}

#[test]
fn numbers_are_written_as_the_standard_library_writes_them() {
    for n in [0i64, 7, 10, 99, 2026, -1, -42, -2026, i64::MAX, i64::MIN] {
        assert_eq!(number_text(n, 0), format!("{n}"));
        assert_eq!(number_text(n, 2), format!("{n:02}"));
        assert_eq!(number_text(n, 4), format!("{n:04}"));
        assert_eq!(number_text(n, 9), format!("{n:09}"));
    }
    assert_eq!(digits_of(u64::MAX), u64::MAX.to_string());
}

#[test]
fn times_are_held_within_the_years_of_chrono() {
    assert_eq!(chrono::DateTime::<chrono::Utc>::MIN_UTC.timestamp(), FIRST_SECOND);
    assert_eq!(chrono::DateTime::<chrono::Utc>::MAX_UTC.timestamp(), LAST_SECOND);
    assert!(UtcTime::new(FIRST_SECOND - 1, 0).is_none());
    assert!(UtcTime::new(LAST_SECOND + 1, 0).is_none());
    assert!(UtcTime::new(0, 1_000_000_000).is_none());
    let first = UtcTime::new(FIRST_SECOND, 0).unwrap();
    assert_eq!(first.to_rfc3339(), "-262143-01-01T00:00:00+00:00");
    assert_eq!(first.year_and_month(), (-262143, 1));
    assert_eq!(first.month_start(), FIRST_SECOND);
    let last = UtcTime::new(LAST_SECOND, 999_999_999).unwrap();
    assert_eq!(last.to_rfc3339(), "+262142-12-31T23:59:59.999999999+00:00");
    assert_eq!(last.month_title(), "December +262142");
}

#[test]
fn times_are_written_out() {
    let leap = UtcTime::new(1_709_210_096, 0).unwrap();
    assert_eq!(leap.to_rfc3339(), "2024-02-29T12:34:56+00:00");
    assert_eq!(leap.month_title(), "February 2024");
    assert_eq!(leap.year_and_month(), (2024, 2));
    assert_eq!(leap.month_start(), 1_706_745_600);
    let milli = UtcTime::new(1_709_210_096, 7_000_000).unwrap();
    assert_eq!(milli.to_rfc3339(), "2024-02-29T12:34:56.007+00:00");
    let micro = UtcTime::new(1_709_210_096, 7_000).unwrap();
    assert_eq!(micro.to_rfc3339(), "2024-02-29T12:34:56.000007+00:00");
    let nano = UtcTime::new(1_709_210_096, 7).unwrap();
    assert_eq!(nano.to_rfc3339(), "2024-02-29T12:34:56.000000007+00:00");
}

#[test]
fn every_month_ends_where_the_next_begins() {
    let mut end = month_bounds(&UtcTime::new(0, 0).unwrap()).0;
    for day in 0..20_000i64 {
        let (start, next) = month_bounds(&UtcTime::new(day * 86400, 0).unwrap());
        assert!(start == end || next == end, "{start}");
        end = next;
        assert!(start < end);
    }
}

#[test]
fn natural_numbers_are_calculated_with() {
    let big = Natural::from_u64(u64::MAX).times_plus(1_000_000_007, 3);
    let same_again = Natural::from_u64(u64::MAX).times_plus(1_000_000_007, 3);
    assert_eq!(big.sign_against(&same_again), 0);
    assert_eq!(big.sign_against(&Natural::from_u64(5)), 1);
    assert_eq!(Natural::from_u64(5).sign_against(&big), -1);
    let twice = big.doubled();
    assert_eq!(twice.minus(&big).sign_against(&big), 0);
    assert_eq!(big.plus(&same_again).sign_against(&twice), 0);
}

#[test]
fn the_tray_menu_does_what_it_says() {
    let entries = menu_entries();
    let listed: Vec<(&str, &str)> =
        entries.iter().map(|e| (e.id.as_str(), e.label.as_str())).collect();
    assert_eq!(
        listed,
        vec![
            ("show", "Show AI Allowance"),
            ("widget", "Toggle desktop widget"),
            ("refresh", "Refresh"),
            ("quit", "Quit"),
        ]
    );
    assert_eq!(menu_action("show"), MenuAction::ShowMain);
    assert_eq!(menu_action("widget"), MenuAction::ToggleWidget);
    assert_eq!(menu_action("refresh"), MenuAction::RequestRefresh);
    assert_eq!(menu_action("quit"), MenuAction::Quit);
    assert_eq!(menu_action("other"), MenuAction::Ignore);
}

#[test]
fn closing_a_window_hides_it_in_the_tray() {
    assert!(hides_on_close("main"));
    assert!(hides_on_close("widget"));
    assert!(!hides_on_close("settings"));
}

#[test]
fn the_clock_is_read() {
    let before = chrono::Utc::now().timestamp();
    let (year, _) = current_time().year_and_month();
    assert!(current_time().month_start() <= before + 60);
    assert!(year >= 2024);
}
