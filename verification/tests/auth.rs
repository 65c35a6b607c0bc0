use aes::cipher::{block_padding::Pkcs7, BlockModeDecrypt, Iv, Key, KeyIvInit};
use base64::Engine;
use hitsz_info_fetcher::auth::{
    cas_outcome, check_info_page, ensure_authenticated, form_from, landing_outcome, login_page_url,
    login_params, login_target, params_with, parse_form, ParsedForm,
};
use hitsz_info_fetcher::cipher::{encrypt_password, random_text, seal_password, CHARSET};
use hitsz_info_fetcher::cookies::CookieMap;
use hitsz_info_fetcher::dom::Element;
use hitsz_info_fetcher::error::AuthError;
use hitsz_info_fetcher::models::StudentType;
use hitsz_info_fetcher::page_url::PageUrl;
use hitsz_info_fetcher::profile::build_eas_token;

fn input(id: Option<&str>, name: Option<&str>, value: Option<&str>) -> Element {
    Element {
        text: String::new(),
        id: id.map(str::to_owned),
        name: name.map(str::to_owned),
        value: value.map(str::to_owned),
        href: None,
        action: None,
    }
}

fn pairs(list: &[(&str, &str)]) -> Vec<(String, String)> {
    list.iter().map(|(a, b)| (a.to_string(), b.to_string())).collect()
}

#[test]
fn parses_login_form_fields() {
    let html = r#"<html><body><form action="/authserver/login">
            <input name="lt" value="LT-abc"/>
            <input name="execution" value="e1s1"/>
            <input name="_eventId" value="submit"/>
            <input id="pwdEncryptSalt" value="0123456789abcdef"/>
        </form></body></html>"#;
    let form = parse_form(html).expect("parse");
    assert_eq!(form.pwd_encrypt_salt, "0123456789abcdef");
    assert!(form.fields.iter().any(|(n, v)| n == "lt" && v == "LT-abc"));
    assert_eq!(form.action, "/authserver/login");
    assert_eq!(form.fields.len(), 3);
}

#[test]
fn encrypts_password() {
    let salt = "0123456789abcdef"; // 16 bytes
    let result = encrypt_password("test", salt).expect("encrypt");
    assert!(!result.is_empty());
    assert!(result.len() > 50); // should be base64 of ~80+ bytes
    assert_eq!(result.len(), 108);
}

#[test]
fn builds_token_from_profile() {
    let json = r#"{"PYLX":"1","YXMC":"计算机学院","XH":"20220001","XM":"张三","sfxsx":"0"}"#;
    let tok = build_eas_token("alice", "s", CookieMap::new(), json).expect("build");
    assert!(matches!(tok.stutype, StudentType::Undergrad));
    assert_eq!(tok.name.as_deref(), Some("张三"));
}

#[test]
fn last_input_of_a_name_prevails() {
    let inputs = vec![
        input(None, Some("lt"), Some("1")),
        input(None, Some("x"), None),
        input(None, Some("lt"), Some("2")),
        input(None, Some("username"), Some("u")),
        input(None, Some("passwordText"), Some("p")),
        input(None, Some("password"), Some("p")),
        input(None, Some("rememberMe"), Some("p")),
        input(None, Some(""), Some("p")),
        input(None, None, Some("p")),
        input(Some("pwdEncryptSalt"), Some("salt"), Some("s1")),
        input(Some("pwdEncryptSalt"), Some("salt"), Some("s2")),
        input(Some("pwdEncryptSalt"), Some("salt"), Some("")),
    ];
    let form = form_from(&inputs, &vec![]);
    assert_eq!(form.fields, pairs(&[("x", ""), ("lt", "2"), ("salt", "")]));
    assert_eq!(form.pwd_encrypt_salt, "s2");
    assert_eq!(form.action, "");
}

#[test]
fn form_of_a_page_without_one_is_empty() {
    let form = parse_form("<p>nothing</p>").expect("parse");
    assert_eq!(form.action, "");
    assert!(form.fields.is_empty());
    assert_eq!(form.pwd_encrypt_salt, "");
}

#[test]
fn login_page_names_the_service() {
    assert_eq!(
        login_page_url(),
        "https://ids.hit.edu.cn/authserver/login?type=userNameLogin&service=http%3A%2F%2Fjw.hitsz.edu.cn%2FcasLogin"
    );
}

#[test]
fn action_is_resolved_against_the_identity_service() {
    assert_eq!(login_target("/authserver/login", "page"), "https://ids.hit.edu.cn/authserver/login");
    assert_eq!(login_target("", "page"), "page");
    assert_eq!(login_target("https://x/y", "page"), "https://x/y");
}

#[test]
fn parameters_go_behind_the_form_fields() {
    let fields = pairs(&[("lt", "1")]);
    assert_eq!(
        params_with(&fields, "alice", Some("sealed".to_string())),
        pairs(&[("lt", "1"), ("username", "alice"), ("password", "sealed"), ("rememberMe", "true")])
    );
    assert_eq!(
        params_with(&fields, "alice", None),
        pairs(&[("lt", "1"), ("username", "alice"), ("rememberMe", "true")])
    );
}

#[test]
fn password_is_sent_only_with_a_salt_and_sealed() {
    let mut form = ParsedForm {
        action: String::new(),
        fields: pairs(&[("lt", "1")]),
        pwd_encrypt_salt: String::new(),
    };
    let plain = login_params(&form, "alice", "secret").expect("params");
    assert!(plain.iter().all(|(n, _)| n != "password"));
    form.pwd_encrypt_salt = "0123456789abcdef".to_string();
    let params = login_params(&form, "alice", "secret").expect("params");
    assert_eq!(params[2].0, "password");
    assert!(!params[2].1.contains("secret"));
    assert_eq!(params[2].1.len(), 108);
    assert_eq!(params.len(), 4);
}

#[test]
fn sealing_is_aes_128_cbc_in_base64() {
    let prefix = "A".repeat(64);
    assert_eq!(
        seal_password("test", "0123456789abcdef-more", "ABCDEFGHJKMNPQRS", &prefix),
        "cPLM5xbW03WX5LoX5cVZeRmRKuFaP6ayYvsH3zDU3uH8/IIGXPye4iNqlE+NYUUyCLsDVT5tR0RHyP3BS/TtZSN3vVm3gsuvUzy0JNJyNMU="
    );
}

fn open(text: &str, key: &[u8], iv: &[u8]) -> Vec<u8> {
    let mut bytes = base64::engine::general_purpose::STANDARD.decode(text).expect("Base64");
    let key = Key::<cbc::Decryptor<aes::Aes128>>::try_from(key).expect("16 bytes");
    let iv = Iv::<cbc::Decryptor<aes::Aes128>>::try_from(iv).expect("16 bytes");
    cbc::Decryptor::<aes::Aes128>::new(&key, &iv)
        .decrypt_padded::<Pkcs7>(&mut bytes)
        .expect("padding")
        .to_vec()
}

#[test]
fn sealed_passwords_open_again() {
    let salt = "0123456789abcdef-more";
    let key = &salt.as_bytes()[..16];
    let prefix = "B".repeat(64);
    let text = seal_password("密码", salt, "ABCDEFGHJKMNPQRS", &prefix);
    assert_eq!(open(&text, key, b"ABCDEFGHJKMNPQRS"), format!("{prefix}密码").into_bytes());
    for password in ["", "test", "密码", "a password of more than one block"] {
        let text = encrypt_password(password, salt).expect("encrypt");
        for iv in [[0u8; 16], [255u8; 16]] {
            let plain = open(&text, key, &iv);
            assert_eq!(plain.len(), 64 + password.len());
            assert_eq!(&plain[64..], password.as_bytes());
        }
    }
    assert_eq!(
        seal_password("x", salt, "ABCDEFGHJKMNPQRS", &prefix),
        seal_password("x", "0123456789abcdef", "ABCDEFGHJKMNPQRS", &prefix)
    );
}

#[test]
fn random_texts_are_drawn_from_the_charset() {
    let a = random_text(64);
    assert_eq!(a.len(), 64);
    assert!(a.chars().all(|c| CHARSET.contains(c)));
    assert_ne!(a, random_text(64));
    assert_eq!(random_text(0), "");
    let salt = "0123456789abcdef";
    assert_ne!(
        encrypt_password("test", salt).expect("encrypt"),
        encrypt_password("test", salt).expect("encrypt")
    );
}

#[test]
fn landing_decides_the_login() {
    assert!(cas_outcome("http://jw.hitsz.edu.cn/x", "200 OK", "用户名或密码错误").is_ok());
    for body in ["用户名或密码错误", "账号或密码错误", "username or password is incorrect"] {
        let r = cas_outcome("https://ids.hit.edu.cn/", "200 OK", body);
        assert!(matches!(r, Err(AuthError::InvalidCredentials)));
    }
    let login = "https://ids.hit.edu.cn/authserver/login?service=http%3A%2F%2Fjw.hitsz.edu.cn%2FcasLogin";
    assert!(matches!(
        cas_outcome(login, "200 OK", "用户名或密码错误"),
        Err(AuthError::InvalidCredentials)
    ));
    assert!(matches!(
        cas_outcome(login, "200 OK", "<form>"),
        Err(AuthError::UnexpectedLanding { .. })
    ));
    assert!(cas_outcome("jw.hitsz.edu.cn", "200 OK", "").is_err());
    let portal = Some("jw.hitsz.edu.cn".to_string());
    assert!(landing_outcome(&portal, "any", "200 OK", "").is_ok());
    assert!(landing_outcome(&None, "http://jw.hitsz.edu.cn/", "200 OK", "").is_err());
    match cas_outcome("https://ids.hit.edu.cn/", "500", "oops") {
        Err(AuthError::UnexpectedLanding { final_url, status }) => {
            assert_eq!(final_url, "https://ids.hit.edu.cn/");
            assert_eq!(status, "500");
        }
        _ => panic!("unexpected landing expected"),
    }
}

#[test]
fn info_page_must_be_the_portals() {
    let url = PageUrl::parse("https://info.hitsz.edu.cn/list").expect("valid url");
    let other = PageUrl::parse("https://ids.hit.edu.cn/authserver/login").expect("valid url");
    assert!(ensure_authenticated(&url, "<html>").is_ok());
    assert!(matches!(
        ensure_authenticated(&url, "<a href='/authserver/login'>"),
        Err(AuthError::InfoSessionExpired)
    ));
    match ensure_authenticated(&other, "<html>") {
        Err(AuthError::UnexpectedInfoHost { host }) => {
            assert_eq!(host.as_deref(), Some("ids.hit.edu.cn"))
        }
        _ => panic!("another host expected"),
    }
    assert!(matches!(
        check_info_page(None, "<html>"),
        Err(AuthError::UnexpectedInfoHost { host: None })
    ));
}
