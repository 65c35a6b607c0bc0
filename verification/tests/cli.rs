use hitsz_info_fetcher::cli::{
    given_credential, is_blank, password_from_line, resolve_date_range, username_from_line,
};
use hitsz_info_fetcher::health::{check_health, judge_reply, HealthFault};
use hitsz_info_fetcher::json::{JsonObject, JsonValue};
use hitsz_info_fetcher::pager::date_window;

fn some(text: &str) -> Option<String> {
    Some(text.to_string())
}

#[test]
fn flags_override_variables() {
    assert_eq!(given_credential(Some("flag"), Some("env")), some("flag"));
    assert_eq!(given_credential(Some(""), Some("env")), some("env"));
    assert_eq!(given_credential(None, Some("env")), some("env"));
    assert_eq!(given_credential(None, Some("")), None);
    assert_eq!(given_credential(Some(""), None), None);
    assert_eq!(given_credential(Some(" "), Some("env")), some(" "));
}

#[test]
fn typed_usernames_are_trimmed_and_passwords_are_not() {
    assert_eq!(username_from_line(" 2023311001\n"), some("2023311001"));
    assert_eq!(username_from_line(" \n"), None);
    assert_eq!(password_from_line(" pw "), some(" pw "));
    assert_eq!(password_from_line(""), None);
}

#[test]
fn blank_files_hold_nothing() {
    assert!(is_blank(""));
    assert!(is_blank(" \n\t"));
    assert!(!is_blank("[]"));
}

#[test]
fn ranges_follow_the_options() {
    let today = "2026-06-16";
    let (f, t) = (some("2026-06-01"), some("2026-06-10"));
    let both = (some(today), some(today));
    assert_eq!(resolve_date_range(false, false, &None, &None, today), both);
    assert_eq!(resolve_date_range(false, true, &f, &t, today), both);
    assert_eq!(resolve_date_range(false, false, &f, &t, today), (f.clone(), t.clone()));
    assert_eq!(resolve_date_range(false, false, &f, &None, today), (f.clone(), None));
    assert_eq!(resolve_date_range(false, false, &None, &t, today), (None, t.clone()));
    assert_eq!(resolve_date_range(true, true, &f, &t, today), (None, None));
}

#[test]
fn only_all_goes_without_a_window() {
    let today = "2026-06-16";
    let window = |all: bool, now: bool| {
        let (from, to) = resolve_date_range(all, now, &None, &None, today);
        date_window(from.as_deref(), to.as_deref()).is_some()
    };
    assert!(window(false, false));
    assert!(window(false, true));
    assert!(!window(true, false));
}

#[test]
fn healthy_service_counts_its_notices() {
    assert_eq!(check_health(true, "200 OK", r#"{"status":"ok","notices":7}"#).expect("well"), 7);
    assert_eq!(check_health(true, "200 OK", r#"{"status":"ok"}"#).expect("well"), 0);
}

#[test]
fn faults_of_the_service_are_told_apart() {
    match check_health(false, "500", &"长".repeat(150)) {
        Err(HealthFault::BadStatus { status, excerpt }) => {
            assert_eq!(status, "500");
            assert_eq!(excerpt, "长".repeat(100));
        }
        _ => panic!("a bad status"),
    }
    match check_health(false, "404", "short") {
        Err(HealthFault::BadStatus { excerpt, .. }) => assert_eq!(excerpt, "short"),
        _ => panic!("a bad status"),
    }
    assert!(matches!(check_health(true, "200", "OK"), Err(HealthFault::NotJson)));
    match check_health(true, "200", r#"{"notices":3}"#) {
        Err(HealthFault::Unwell { status, notices }) => {
            assert_eq!((status.as_str(), notices), ("unknown", 3))
        }
        _ => panic!("not well"),
    }
    let mut reply = JsonObject::new();
    reply.insert("status".to_string(), JsonValue::Text("degraded".to_string()));
    match judge_reply(&reply) {
        Err(HealthFault::Unwell { status, notices }) => {
            assert_eq!((status.as_str(), notices), ("degraded", 0))
        }
        _ => panic!("not well"),
    }
}
