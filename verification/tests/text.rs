use hitsz_info_fetcher::text::{
    contains, copy_opt, find_chars, first_visible, same_opt, same_text, squeeze, text_precedes,
    to_chars, trim, url_encode,
};

#[test]
fn finding_yields_the_first_place() {
    let t = to_chars("abcabc");
    assert_eq!(find_chars(&t, &to_chars("bc"), 0), Some(1));
    assert_eq!(find_chars(&t, &to_chars("bc"), 2), Some(4));
    assert_eq!(find_chars(&t, &to_chars("bc"), 5), None);
    assert_eq!(find_chars(&t, &to_chars("x"), 0), None);
    assert_eq!(find_chars(&t, &to_chars(""), 6), Some(6));
    assert_eq!(find_chars(&t, &to_chars(""), 7), None);
    assert!(contains("通知下一页", "下一页"));
    assert!(!contains("下一", "下一页"));
    assert!(contains("x", ""));
}

#[test]
fn trimming_takes_all_white_space_off() {
    assert_eq!(trim("\u{00A0} a b \u{3000}\n"), "a b");
    assert_eq!(trim(trim(" a ").as_str()), "a");
    assert_eq!(trim(" \t\u{2003}"), "");
    assert_eq!(trim("\u{200B}a"), "\u{200B}a");
    assert_eq!(first_visible("  <html>"), Some('<'));
    assert_eq!(first_visible("  "), None);
}

#[test]
fn squeezing_leaves_single_spaces() {
    assert_eq!(squeeze("  第一条\n\t 通知  x "), "第一条 通知 x");
    assert_eq!(squeeze(" \u{00A0} "), "");
    assert_eq!(trim(squeeze(" a  b ").as_str()), squeeze(" a  b "));
}

#[test]
fn query_values_hold_no_separators() {
    assert_eq!(
        url_encode("http://jw.hitsz.edu.cn/casLogin?a=b&c"),
        "http%3A%2F%2Fjw.hitsz.edu.cn%2FcasLogin%3Fa%3Db%26c"
    );
    assert_eq!(url_encode("a%b c"), "a%b c");
    assert_eq!(url_encode("a:") + &url_encode("/b"), url_encode("a:/b"));
}

#[test]
fn order_is_that_of_the_codes() {
    assert!(text_precedes("2026-06-15", "2026-06-16"));
    assert!(!text_precedes("2026-06-16", "2026-06-16"));
    assert!(text_precedes("2026-06", "2026-06-16"));
    assert!(!text_precedes("2026-07", "2026-06-16"));
    assert!(text_precedes("", "a"));
    for (a, b) in [("a", "b"), ("中", "丁"), ("ab", "a"), ("\u{10000}", "\u{ffff}")] {
        assert_eq!(text_precedes(a, b), a < b);
        assert_eq!(text_precedes(b, a), b < a);
    }
}

#[test]
fn optional_texts_are_compared_and_copied() {
    let some = Some("a".to_string());
    assert!(same_text("a", "a") && !same_text("a", "b"));
    assert!(same_opt(&some, &copy_opt(&some)));
    assert!(same_opt(&None, &None));
    assert!(!same_opt(&some, &None));
    assert!(!same_opt(&some, &Some("b".to_string())));
}
