use hitsz_info_fetcher::cookies::CookieMap;
use hitsz_info_fetcher::error::AuthError;
use hitsz_info_fetcher::json::{JsonDocument, JsonObject, JsonValue};
use hitsz_info_fetcher::models::StudentType;
use hitsz_info_fetcher::profile::{
    anonymous_token, browser_token_from, build_browser_token, build_eas_token, check_profile,
    cookie_map, eas_token_from, get_string, str_val, ProfileFault, SavedCookie,
};

fn cookie(name: &str, value: &str) -> SavedCookie {
    SavedCookie {
        name: name.to_string(),
        value: value.to_string(),
        domain: "jw.hitsz.edu.cn".to_string(),
        path: "/".to_string(),
    }
}

fn profile(members: &[(&str, &str)]) -> JsonObject {
    let mut object = JsonObject::new();
    for (k, v) in members {
        object.insert(k.to_string(), JsonValue::Text(v.to_string()));
    }
    object
}

#[test]
fn faults_of_a_reply_are_seen() {
    assert_eq!(check_profile("{}"), Ok(()));
    assert_eq!(check_profile("<p>session已失效"), Err(ProfileFault::SessionExpired));
    assert_eq!(check_profile(" \n<html>"), Err(ProfileFault::HtmlInsteadOfJson));
    assert_eq!(check_profile("{\"a\":\"<\"}"), Ok(()));
    assert_eq!(check_profile(""), Ok(()));
}

#[test]
fn members_are_read_as_they_are_or_trimmed() {
    let p = profile(&[("a", " x "), ("b", "  "), ("a2", "")]);
    assert_eq!(str_val(&p, "a").as_deref(), Some(" x "));
    assert_eq!(str_val(&p, "b").as_deref(), Some("  "));
    assert_eq!(str_val(&p, "c"), None);
    assert_eq!(get_string(&p, "a").as_deref(), Some("x"));
    assert_eq!(get_string(&p, "b"), None);
    assert_eq!(get_string(&p, "a2"), None);
}

#[test]
fn json_text_is_read() {
    let o = JsonObject::parse(r#"{"t":"x","n":3,"m":-1,"f":1.5,"b":true,"z":null,"t":"y","l":[1]}"#)
        .expect("an object");
    assert_eq!(o.text("t").as_deref(), Some("y"));
    assert_eq!(o.text("n"), None);
    assert_eq!(o.count("n"), Some(3));
    assert_eq!(o.count("m"), None);
    assert_eq!(o.count("f"), None);
    assert_eq!(o.count("missing"), None);
    assert_eq!(o.flag("b"), Some(true));
    assert_eq!(o.flag("z"), None);
    assert_eq!(o.text("l"), None);
    assert!(JsonObject::parse("[1,2]").expect("a value").text("t").is_none());
    assert!(JsonObject::parse("{").is_none());
    let members = vec![("t".to_string(), JsonValue::Text("x".to_string()))];
    assert_eq!(JsonObject::of(JsonDocument::Members(members)).text("t").as_deref(), Some("x"));
    let value = JsonDocument::Value(JsonValue::Text("x".to_string()));
    assert_eq!(JsonObject::of(value).text("t"), None);
}

#[test]
fn http_token_takes_the_profile_as_it_is() {
    let p = profile(&[
        ("XM", " 张三 "),
        ("PYLX", "2"),
        ("ZPBSLJ", "pic"),
        ("ID", "id"),
        ("XH", "1"),
        ("YXMC", "s"),
        ("ZYMC", "m"),
        ("NJMC", "g"),
        ("sfxsx", "0"),
        ("DZYX", "e"),
        ("LXDH", "p"),
    ]);
    let mut cookies = CookieMap::new();
    cookies.insert("k".to_string(), "v".to_string());
    let t = eas_token_from("alice", "pw", cookies, &p);
    assert_eq!(t.username, "alice");
    assert_eq!(t.password, "pw");
    assert_eq!(t.name.as_deref(), Some(" 张三 "));
    assert_eq!(t.stutype, StudentType::Grad);
    assert_eq!(t.picture.as_deref(), Some("pic"));
    assert_eq!(t.id.as_deref(), Some("id"));
    assert_eq!(t.stu_id.as_deref(), Some("1"));
    assert_eq!(t.school.as_deref(), Some("s"));
    assert_eq!(t.major.as_deref(), Some("m"));
    assert_eq!(t.grade.as_deref(), Some("g"));
    assert_eq!(t.sfxsx.as_deref(), Some("0"));
    assert_eq!(t.email.as_deref(), Some("e"));
    assert_eq!(t.phone.as_deref(), Some("p"));
    assert_eq!(t.cookies.get("k"), Some("v"));
}

#[test]
fn student_types_differ_in_what_is_unknown() {
    let http = |p: &JsonObject| eas_token_from("", "", CookieMap::new(), p).stutype;
    let browser = |p: &JsonObject| browser_token_from(None, None, CookieMap::new(), p).stutype;
    for t in [StudentType::Undergrad, StudentType::Grad] {
        let p = profile(&[("PYLX", t.as_code())]);
        assert_eq!(http(&p), t);
        assert_eq!(browser(&p), t);
    }
    let odd = profile(&[("PYLX", "3")]);
    assert_eq!(http(&odd), StudentType::Undergrad);
    assert_eq!(browser(&odd), StudentType::Grad);
    assert_eq!(http(&profile(&[])), StudentType::Undergrad);
    assert_eq!(browser(&profile(&[])), StudentType::Grad);
    assert_eq!(StudentType::Undergrad.as_code(), "1");
    assert_eq!(StudentType::Grad.as_code(), "2");
    assert_eq!(StudentType::Undergrad.as_word(), "undergrad");
    assert_eq!(StudentType::Grad.as_word(), "grad");
}

#[test]
fn browser_token_falls_back_to_the_student_number() {
    let cookies = vec![cookie("a", "1"), cookie("a", "2")];
    let json = r#"{"PYLX":"1","XH":" 2023 ","XM":" "}"#;
    let t = build_browser_token(None, None, &cookies, json).expect("token");
    assert_eq!(t.username, "2023");
    assert_eq!(t.password, "");
    assert_eq!(t.stu_id.as_deref(), Some("2023"));
    assert_eq!(t.name, None);
    assert_eq!(t.stutype, StudentType::Undergrad);
    assert_eq!(t.cookies.get("a"), Some("2"));
    let t = build_browser_token(Some("alice"), Some("pw"), &cookies, "{}").expect("token");
    assert_eq!(t.username, "alice");
    assert_eq!(t.password, "pw");
    assert_eq!(build_browser_token(None, None, &cookies, "{}").expect("token").username, "");
}

#[test]
fn profiles_that_are_no_json_are_refused() {
    assert!(matches!(
        build_eas_token("a", "b", CookieMap::new(), "<html>"),
        Err(AuthError::ProfileNotJson)
    ));
    assert!(matches!(
        build_browser_token(None, None, &vec![], "nope"),
        Err(AuthError::ProfileNotJson)
    ));
}

#[test]
fn saved_cookies_stand_for_an_unknown_student() {
    let t = anonymous_token(&vec![cookie("a", "1"), cookie("b", "2"), cookie("a", "3")]);
    assert_eq!(t.cookies.len(), 2);
    assert_eq!(t.cookies.get("a"), Some("3"));
    assert_eq!(t.username, "");
    assert_eq!(t.stutype, StudentType::Undergrad);
    assert!(t.name.is_none() && t.phone.is_none() && t.stu_id.is_none());
}

#[test]
fn cookie_maps_hold_each_name_once() {
    let mut map = CookieMap::new();
    assert_eq!(map.len(), 0);
    map.insert("a".to_string(), "1".to_string());
    map.insert("b".to_string(), "2".to_string());
    map.insert("a".to_string(), "3".to_string());
    assert_eq!(map.len(), 2);
    assert_eq!(map.entry(0), ("a", "3"));
    assert_eq!(map.entry(1), ("b", "2"));
    assert_eq!(map.get("c"), None);
    let mut other = CookieMap::new();
    other.insert("b".to_string(), "2".to_string());
    assert!(map != other);
    other.insert("a".to_string(), "3".to_string());
    assert!(map == other);
    assert!(map.clone() == map);
    assert_eq!(cookie_map(&vec![]).len(), 0);
}
