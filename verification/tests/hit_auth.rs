use hitsz_info_fetcher::cookies::CookieMap;
use hitsz_info_fetcher::hit_auth::{
    bearer_header, browser_hit_token, hit_ldap_step, HitLdapStep, HitToken,
};
use hitsz_info_fetcher::hita_auth::{mjw_ldap_step, MjwLdapStep};
use hitsz_info_fetcher::ldap::{judge_reply, role_code, LdapData, LdapInfo, LdapResponse, LdapVerdict};
use hitsz_info_fetcher::models::StudentType;
use hitsz_info_fetcher::profile::{build_browser_token, SavedCookie};

fn reply(token: Option<&str>) -> LdapResponse {
    LdapResponse {
        access_token: token.map(str::to_owned),
        refresh_token: Some("ref".into()),
        data: Some(LdapData {
            name: Some("王五".into()),
            school: Some("信息学部".into()),
            phone: Some("123".into()),
            stutype: Some("1".into()),
        }),
        info: Some(LdapInfo { stu_id: Some("2023".into()), name: Some("王".into()) }),
    }
}

#[test]
fn token_equality() {
    let t1 = HitToken {
        username: "test".into(), name: Some("张三".into()),
        student_id: Some("20240001".into()), school: None,
        stutype: Some("undergrad".into()), phone: None,
        access_token: Some("tok".into()), refresh_token: None,
        cookies: CookieMap::new(),
    };
    let mut t2 = t1.clone();
    t2.name = Some("李四".into());
    assert_ne!(t1, t2);
}

#[test]
fn tokens_are_equal_where_all_parts_are() {
    let t1 = HitToken {
        username: "test".into(), name: None, student_id: None, school: None,
        stutype: None, phone: None, access_token: None, refresh_token: None,
        cookies: CookieMap::new(),
    };
    assert_eq!(t1, t1.clone());
    let mut t2 = t1.clone();
    t2.cookies.insert("a".into(), "b".into());
    assert_ne!(t1, t2);
    let mut t3 = t1.clone();
    t3.phone = Some("".into());
    assert_ne!(t1, t3);
}

#[test]
fn replies_are_judged() {
    assert_eq!(judge_reply(&Some(reply(Some("t"))), "用户名或密码错误"), LdapVerdict::Accepted);
    assert_eq!(judge_reply(&Some(reply(Some(""))), "用户名或密码错误"), LdapVerdict::Rejected);
    assert_eq!(judge_reply(&Some(reply(None)), "用户名或密码错误"), LdapVerdict::Rejected);
    assert_eq!(judge_reply(&Some(reply(None)), "{}"), LdapVerdict::NextRole);
    assert_eq!(judge_reply(&None, "用户名或密码错误"), LdapVerdict::NextRole);
}

#[test]
fn two_roles_are_tried() {
    assert_eq!(role_code(0), Some("06"));
    assert_eq!(role_code(1), Some("01"));
    assert_eq!(role_code(2), None);
}

#[test]
fn both_tokens_are_made_of_the_reply() {
    let HitLdapStep::Token(hit) = hit_ldap_step("alice", Some(reply(Some("tok"))), "") else {
        panic!("a token");
    };
    let MjwLdapStep::Token(mjw) = mjw_ldap_step(Some(reply(Some("tok"))), "") else {
        panic!("a token");
    };
    assert_eq!(hit.username, "alice");
    assert_eq!(hit.access_token.as_deref(), Some("tok"));
    assert_eq!(mjw.access_token, "tok");
    assert_eq!(hit.refresh_token.as_deref(), Some("ref"));
    assert_eq!(mjw.refresh_token, hit.refresh_token);
    assert_eq!(hit.name.as_deref(), Some("王五"));
    assert_eq!(mjw.name, hit.name);
    assert_eq!(hit.school.as_deref(), Some("信息学部"));
    assert_eq!(mjw.school, hit.school);
    assert_eq!(hit.student_id.as_deref(), Some("2023"));
    assert_eq!(mjw.stu_id, hit.student_id);
    assert_eq!(hit.stutype.as_deref(), Some("1"));
    assert_eq!(mjw.stutype, hit.stutype);
    assert_eq!(hit.phone.as_deref(), Some("123"));
    assert_eq!(mjw.phone, hit.phone);
    assert_eq!(hit.cookies.len(), 0);
    assert_eq!(bearer_header(&hit), "bearer tok");
}

#[test]
fn the_account_names_who_the_person_data_does_not() {
    let mut r = reply(Some("tok"));
    r.data = None;
    let HitLdapStep::Token(hit) = hit_ldap_step("alice", Some(r.clone()), "") else {
        panic!("a token");
    };
    assert_eq!(hit.name.as_deref(), Some("王"));
    assert_eq!(hit.school, None);
    r.info = None;
    let MjwLdapStep::Token(mjw) = mjw_ldap_step(Some(r), "") else {
        panic!("a token");
    };
    assert_eq!(mjw.name, None);
    assert_eq!(mjw.stu_id, None);
}

#[test]
fn replies_without_a_token_lead_on_or_end() {
    let wrong = "用户名或密码错误";
    assert!(matches!(hit_ldap_step("a", Some(reply(None)), wrong), HitLdapStep::Rejected));
    assert!(matches!(hit_ldap_step("a", Some(reply(Some(""))), "x"), HitLdapStep::NextRole));
    assert!(matches!(hit_ldap_step("a", None, wrong), HitLdapStep::NextRole));
    assert!(matches!(mjw_ldap_step(Some(reply(None)), wrong), MjwLdapStep::Rejected));
    assert!(matches!(mjw_ldap_step(Some(reply(Some(""))), "x"), MjwLdapStep::NextRole));
    assert!(matches!(mjw_ldap_step(None, wrong), MjwLdapStep::NextRole));
}

#[test]
fn browser_logins_have_cookies_and_no_access_token() {
    let cookies = vec![SavedCookie {
        name: "JSESSIONID".into(),
        value: "x".into(),
        domain: "jw.hitsz.edu.cn".into(),
        path: "/".into(),
    }];
    let json = r#"{"PYLX":"2","XH":"2023","XM":"王五","YXMC":"信息学部","LXDH":"123"}"#;
    let eas = build_browser_token(Some("alice"), Some("pw"), &cookies, json).expect("token");
    assert_eq!(eas.stutype, StudentType::Grad);
    let hit = browser_hit_token(eas);
    assert_eq!(hit.username, "alice");
    assert_eq!(hit.name.as_deref(), Some("王五"));
    assert_eq!(hit.student_id.as_deref(), Some("2023"));
    assert_eq!(hit.school.as_deref(), Some("信息学部"));
    assert_eq!(hit.stutype.as_deref(), Some("grad"));
    assert_eq!(hit.phone.as_deref(), Some("123"));
    assert_eq!(hit.access_token, None);
    assert_eq!(hit.refresh_token, None);
    assert_eq!(hit.cookies.get("JSESSIONID"), Some("x"));
    assert_eq!(bearer_header(&hit), "bearer ");
}
