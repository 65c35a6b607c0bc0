use chrono::{Datelike, NaiveDate, TimeDelta};
use hitsz_info_fetcher::calendar::date_text;
use hitsz_info_fetcher::cron::{
    after_saved_session, cron_window, merge_notices, writes_notices, CronStep,
};
use hitsz_info_fetcher::models::NoticeItem;

fn notice(url: &str, title: &str) -> NoticeItem {
    NoticeItem {
        title: title.to_string(),
        url: url.to_string(),
        date: String::new(),
        department: String::new(),
        category: String::new(),
    }
}

fn notices(urls: &[&str]) -> Vec<NoticeItem> {
    urls.iter().map(|u| notice(u, "t")).collect()
}

fn urls(list: &[NoticeItem]) -> Vec<&str> {
    list.iter().map(|n| n.url.as_str()).collect()
}

fn pair(a: &str, b: &str) -> Option<(String, String)> {
    Some((a.to_string(), b.to_string()))
}

#[test]
fn window_counts_the_day_itself() {
    assert_eq!(cron_window(2026, 6, 16, 1), pair("2026-06-16", "2026-06-16"));
    assert_eq!(cron_window(2026, 3, 1, 2), pair("2026-02-28", "2026-03-01"));
    assert_eq!(cron_window(2024, 3, 1, 2), pair("2024-02-29", "2024-03-01"));
    assert_eq!(cron_window(2026, 1, 3, 10), pair("2025-12-25", "2026-01-03"));
    assert_eq!(cron_window(2026, 6, 16, 0), pair("2026-06-17", "2026-06-16"));
}

#[test]
fn window_ends_where_the_calendar_does() {
    assert_eq!(cron_window(2026, 2, 30, 1), None);
    assert_eq!(cron_window(2026, 6, 16, u32::MAX), None);
    assert_eq!(cron_window(2026, 13, 1, 1), None);
    assert_eq!(cron_window(2026, 0, 1, 1), None);
    assert_eq!(cron_window(1900, 2, 29, 1), None);
    assert_eq!(cron_window(2000, 2, 29, 366), pair("1999-03-01", "2000-02-29"));
    assert_eq!(cron_window(262142, 12, 31, 1), pair("+262142-12-31", "+262142-12-31"));
    assert_eq!(cron_window(262142, 12, 31, 0), None);
    assert_eq!(cron_window(262143, 1, 1, 2), None);
    assert_eq!(cron_window(-262143, 1, 1, 2), None);
    assert_eq!(cron_window(0, 1, 1, 2), pair("-0001-12-31", "0000-01-01"));
}

#[test]
fn windows_are_those_of_the_calendar() {
    let today = NaiveDate::from_ymd_opt(2024, 3, 1).expect("a day");
    for days in 1..2000u32 {
        let first = today - TimeDelta::days(days as i64 - 1);
        assert_eq!(
            cron_window(2024, 3, 1, days),
            pair(&first.format("%Y-%m-%d").to_string(), "2024-03-01")
        );
    }
}

#[test]
fn dates_are_written_in_ten_characters_and_ordered() {
    let mut before = String::new();
    let mut day = NaiveDate::from_ymd_opt(0, 1, 1).expect("a day");
    while day.year() <= 9999 {
        let text = date_text(day.year(), day.month(), day.day());
        assert_eq!(text, day.format("%Y-%m-%d").to_string());
        assert_eq!(text.len(), 10);
        assert!(before < text);
        before = text;
        day += TimeDelta::days(17);
    }
    for year in [-262143, -10000, -9999, -1, 10000, 99999, 100000, 262142] {
        let day = NaiveDate::from_ymd_opt(year, 10, 9).expect("a day");
        assert_eq!(date_text(year, 10, 9), day.format("%Y-%m-%d").to_string());
    }
}

#[test]
fn runs_use_the_saved_session_or_log_in() {
    let some = |t: &str| Some(t.to_string());
    assert!(matches!(after_saved_session(true, None, None), CronStep::UseSaved));
    assert!(matches!(after_saved_session(true, some("u"), some("p")), CronStep::UseSaved));
    assert!(matches!(after_saved_session(false, None, some("p")), CronStep::MissingUsername));
    assert!(matches!(after_saved_session(false, some("u"), None), CronStep::MissingPassword));
    match after_saved_session(false, some("u"), some("p")) {
        CronStep::Login { username, password } => {
            assert_eq!((username.as_str(), password.as_str()), ("u", "p"))
        }
        _ => panic!("a login"),
    }
}

#[test]
fn runs_that_fetch_nothing_write_nothing() {
    assert!(!writes_notices(0));
    assert!(writes_notices(1));
}

#[test]
fn fresh_notices_go_in_front_in_their_order() {
    let (all, added) = merge_notices(notices(&["c", "b", "a"]), notices(&["e", "c", "d", "a"]));
    assert_eq!(urls(&all), ["e", "d", "c", "b", "a"]);
    assert_eq!(added, 2);
}

#[test]
fn merging_twice_adds_nothing() {
    let (once, added) = merge_notices(notices(&["a"]), notices(&["c", "b"]));
    assert_eq!(added, 2);
    let (twice, added) = merge_notices(once.clone(), notices(&["c", "b"]));
    assert_eq!(added, 0);
    assert_eq!(urls(&twice), urls(&once));
}

#[test]
fn kept_notices_stay_as_they_are() {
    let (all, added) = merge_notices(vec![notice("a", "old")], vec![notice("a", "new")]);
    assert_eq!(added, 0);
    assert_eq!(all[0].title, "old");
}

#[test]
fn merging_with_nothing_changes_nothing() {
    let (all, added) = merge_notices(notices(&["a", "b"]), Vec::new());
    assert_eq!((urls(&all), added), (vec!["a", "b"], 0));
    let (all, added) = merge_notices(Vec::new(), notices(&["a", "b"]));
    assert_eq!((urls(&all), added), (vec!["a", "b"], 2));
}

#[test]
fn a_url_fetched_twice_is_added_once() {
    let fetched = vec![notice("a", "first"), notice("b", "t"), notice("a", "second")];
    let (all, added) = merge_notices(notices(&["c"]), fetched);
    assert_eq!((urls(&all), added), (vec!["a", "b", "c"], 2));
    assert_eq!(all[0].title, "first");
}
