use hitsz_info_fetcher::models::NoticeItem;
use hitsz_info_fetcher::page_url::PageUrl;
use hitsz_info_fetcher::pager::{date_window, NoticePager};

fn notice(date: &str) -> NoticeItem {
    NoticeItem {
        title: "t".to_string(),
        url: "u".to_string(),
        date: date.to_string(),
        department: String::new(),
        category: String::new(),
    }
}

fn url(page: &str) -> PageUrl {
    PageUrl::parse(&format!("http://info.hitsz.edu.cn/list.jsp?p={page}")).expect("valid url")
}

fn list(dates: &[&str], next: Option<&str>) -> String {
    let mut html = String::from(r#"<div class="Newslist"><ul>"#);
    for d in dates {
        html.push_str(&format!(r#"<li><span>教务部 {d}</span><a href="c?d={d}">通知</a></li>"#));
    }
    html.push_str("</ul></div>");
    if let Some(n) = next {
        html.push_str(&format!(r#"<a href="?p={n}">下页</a>"#));
    }
    html
}

#[test]
fn bounds_default_to_all_days() {
    assert!(date_window(None, None).is_none());
    let w = date_window(Some("2026-06-01"), None).expect("window");
    assert_eq!((w.lower.as_str(), w.upper.as_str()), ("2026-06-01", "9999-12-31"));
    let w = date_window(None, Some("2026-06-01")).expect("window");
    assert_eq!((w.lower.as_str(), w.upper.as_str()), ("0000-01-01", "2026-06-01"));
    let w = date_window(Some("a"), Some("b")).expect("window");
    assert_eq!((w.lower.as_str(), w.upper.as_str()), ("a", "b"));
}

#[test]
fn pages_are_read_until_the_window_is_left() {
    let pages = [
        list(&["2026-06-18", "2026-06-17"], Some("2")),
        list(&["2026-06-16", "2026-06-15"], Some("3")),
        list(&["2026-06-14", "2026-06-13"], Some("4")),
        list(&["2026-06-12"], None),
    ];
    let window = date_window(Some("2026-06-14"), Some("2026-06-17")).expect("window");
    let mut pager = NoticePager::start(window, &url("1"), &pages[0]);
    let mut read = 0;
    let mut visited = Vec::new();
    while let Some(next) = pager.next_page(&pages[read]) {
        visited.push(next.as_str().to_string());
        read += 1;
        assert!(pager.add_page(&next, &pages[read]));
    }
    assert_eq!(visited, [url("2").as_str(), url("3").as_str()]);
    let found = pager.finish();
    assert_eq!(found.pages_fetched, 3);
    let dates: Vec<&str> = found.notices.iter().map(|n| n.date.as_str()).collect();
    assert_eq!(dates, ["2026-06-17", "2026-06-16", "2026-06-15", "2026-06-14"]);
    assert_eq!(found.notices[0].url, "http://info.hitsz.edu.cn/c?d=2026-06-17");
}

#[test]
fn last_page_ends_the_collection() {
    let only = list(&["2026-06-18"], None);
    let window = date_window(Some("2026-06-01"), None).expect("window");
    let pager = NoticePager::start(window, &url("1"), &only);
    assert!(pager.wants_more());
    assert!(pager.next_page(&only).is_none());
    assert_eq!(pager.finish().notices.len(), 1);
}

#[test]
fn a_page_without_notices_ends_the_collection() {
    let first = list(&["2026-06-18"], Some("2"));
    let window = date_window(Some("2026-06-01"), None).expect("window");
    let mut pager = NoticePager::start(window, &url("1"), &first);
    let next = pager.next_page(&first).expect("next");
    assert!(!pager.add_page(&next, "<html></html>"));
    let found = pager.finish();
    assert_eq!(found.pages_fetched, 1);
    assert_eq!(found.notices.len(), 1);
}

#[test]
fn a_first_page_without_notices_asks_for_no_more() {
    let window = date_window(None, Some("2026-06-01")).expect("window");
    let pager = NoticePager::start(window, &url("1"), &list(&[], Some("2")));
    assert!(!pager.wants_more());
    let found = pager.finish();
    assert_eq!(found.pages_fetched, 1);
    assert!(found.notices.is_empty());
}

#[test]
fn both_ends_of_the_window_count() {
    let window = date_window(Some("2026-06-15"), Some("2026-06-16")).expect("window");
    let dates = ["2026-06-17", "2026-06-16", "2026-06-15", "2026-06-14"];
    let pager = NoticePager::start_with(window, &url("1"), dates.iter().map(|d| notice(d)).collect());
    assert!(!pager.wants_more());
    let kept: Vec<String> = pager.finish().notices.into_iter().map(|n| n.date).collect();
    assert_eq!(kept, ["2026-06-16", "2026-06-15"]);
}

#[test]
fn added_notices_go_behind_and_are_counted() {
    let window = date_window(Some("2026-01-01"), None).expect("window");
    let mut pager = NoticePager::start_with(window, &url("1"), vec![notice("2026-06-17")]);
    assert!(pager.add_notices(&url("2"), vec![notice("2026-06-16"), notice("2025-06-15")]));
    assert!(!pager.wants_more());
    let found = pager.finish();
    assert_eq!(found.pages_fetched, 2);
    assert_eq!(found.notices.len(), 2);
    assert_eq!(found.notices[1].date, "2026-06-16");
}
