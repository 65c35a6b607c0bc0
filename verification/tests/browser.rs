use hitsz_info_fetcher::auth::ensure_authenticated;
use hitsz_info_fetcher::browser_auth::{
    expired_at, extract_js_redirect, is_jw_host, is_jw_url, is_multifactor_html, login_page_with,
    next_redirect, read_login_page, session_expired, LoginPage,
};
use hitsz_info_fetcher::browser_plan::{
    browser_plan, choose_login_path, chrome_arguments, chrome_data_dirs, chrome_executable,
    chrome_profile_directory, closes_browser, debug_endpoints, is_missing_context_error, poll, retries_page, BrowserAttempt,
    LoginPath, MissingCredential, Poll,
};
use hitsz_info_fetcher::cookie_store::{
    cookie_line, cookies_for_host, domain_url, extract_domain_cookies, fill_store,
    saved_cookie_store, saved_settings, session_cookie_store, session_settings, setting_with,
    StoredCookie,
};
use hitsz_info_fetcher::cookies::CookieMap;
use hitsz_info_fetcher::json::{JsonObject, JsonValue};
use hitsz_info_fetcher::login_watch::{
    login_turn, LoginChores, LoginStep, LoginTurn, LoginWatch, PageRead, PromptOutcome,
};
use hitsz_info_fetcher::page_url::PageUrl;
use hitsz_info_fetcher::profile::SavedCookie;
use hitsz_info_fetcher::scripts::{
    click_on, click_script, code_was_submitted, entered_code, fill_code_script, fill_code_with,
    fill_form_script, fill_form_with, navigate_script, navigate_to, prompt_outcome, read_filled_form,
};

const NOTHING: LoginPage =
    LoginPage { on_portal: false, rejected: false, multifactor: false, captcha: false };

const NO_CHORES: LoginChores = LoginChores {
    announce_two_factor: false,
    request_code: false,
    prompt_for_code: false,
    note_unattended: false,
    announce_captcha: false,
};

fn some(text: &str) -> Option<String> {
    Some(text.to_string())
}

#[test]
fn second_factor_pages_are_told_from_the_form() {
    assert!(is_multifactor_html("x reAuthCheck y"));
    assert!(is_multifactor_html("reAuthLoginView 请输入学号"));
    for word in ["两步验证", "二次验证", "双因素"] {
        assert!(is_multifactor_html(word));
        assert!(!is_multifactor_html(&format!("{word} 请输入学号")));
    }
    assert!(is_multifactor_html("multifactor"));
    assert!(!is_multifactor_html("multifactor passwordText"));
    assert!(!is_multifactor_html("动态码"));
}

#[test]
fn portal_urls_are_known_by_their_host() {
    assert!(is_jw_url("http://jw.hitsz.edu.cn/cas?x=1"));
    assert!(!is_jw_url("http://ids.hit.edu.cn/?service=jw.hitsz.edu.cn"));
    assert!(!is_jw_url("jw.hitsz.edu.cn"));
    assert!(is_jw_host(&some("jw.hitsz.edu.cn")));
    assert!(!is_jw_host(&None));
}

#[test]
fn login_pages_are_read() {
    let page = read_login_page("https://ids.hit.edu.cn/", "验证码 <img id=CaptchaImg> 账号或密码错误");
    assert_eq!(page, LoginPage { captcha: true, rejected: true, ..NOTHING });
    let page = read_login_page("http://jw.hitsz.edu.cn/", "reAuthCheck 用户名或密码错误");
    assert_eq!(
        page,
        LoginPage { on_portal: true, rejected: true, multifactor: true, captcha: false }
    );
    assert_eq!(login_page_with(&None, "验证码 CAPTCHA", "验证码 captcha").captcha, true);
    assert_eq!(login_page_with(&None, "captcha", "captcha"), NOTHING);
    assert_eq!(login_page_with(&None, "验证码 CAPTCHA", "验证码 CAPTCHA"), NOTHING);
}

#[test]
fn scripted_redirects_are_read() {
    assert_eq!(
        extract_js_redirect("<script>window.location.href='http://a/b?c=\"d\"';</script>"),
        some("http://a/b?c=\"d\"")
    );
    assert_eq!(extract_js_redirect("window.location.href=\"x\" window.location.href='y'"), some("x"));
    assert_eq!(extract_js_redirect("window.location.href=''"), some(""));
    assert_eq!(extract_js_redirect("window.location.href=url"), None);
    assert_eq!(extract_js_redirect("window.location.href='x\""), None);
    assert_eq!(extract_js_redirect("window.location.href="), None);
    assert_eq!(extract_js_redirect("window.location.href = 'x'"), None);
    assert_eq!(extract_js_redirect(""), None);
}

#[test]
fn at_most_two_redirects_are_followed() {
    let html = "window.location.href='http://a'";
    assert_eq!(next_redirect(html, 0), some("http://a"));
    assert_eq!(next_redirect(html, 1), some("http://a"));
    assert_eq!(next_redirect(html, 2), None);
    assert_eq!(next_redirect(&format!("{html} Newslist"), 0), None);
    assert_eq!(next_redirect("nothing", 0), None);
}

#[test]
fn expired_sessions_are_seen() {
    let portal = PageUrl::parse("http://info.hitsz.edu.cn/list.jsp").expect("valid url");
    let login = PageUrl::parse("https://ids.hit.edu.cn/").expect("valid url");
    assert!(!session_expired(&portal, "Newslist"));
    assert!(!session_expired(&portal, "caslogin Newslist"));
    assert!(session_expired(&portal, "caslogin"));
    assert!(session_expired(&portal, "Newslist authserver/login"));
    assert!(session_expired(&login, "Newslist"));
    assert!(expired_at(&None, "Newslist"));
    assert!(!expired_at(&some("info.hitsz.edu.cn"), ""));
}

#[test]
fn live_pages_pass_as_authenticated() {
    let portal = PageUrl::parse("http://info.hitsz.edu.cn/list.jsp").expect("valid url");
    for html in ["Newslist", "caslogin Newslist", "<html>"] {
        assert!(!session_expired(&portal, html));
        assert!(ensure_authenticated(&portal, html).is_ok());
    }
}

#[test]
fn watch_ends_on_the_portal_or_on_a_rejection() {
    let mut watch = LoginWatch::new();
    let page = LoginPage { on_portal: true, rejected: true, multifactor: true, captcha: true };
    assert_eq!(watch.look(PageRead::Shows(page), true), LoginStep::Done);
    assert_eq!(watch.look(PageRead::Shows(LoginPage { on_portal: false, ..page }), true), LoginStep::Rejected);
    assert_eq!(watch, LoginWatch::new());
}

#[test]
fn watch_does_each_chore_once() {
    let mut watch = LoginWatch::new();
    let page = LoginPage { multifactor: true, captcha: true, ..NOTHING };
    assert_eq!(watch.look(PageRead::Shows(NOTHING), true), LoginStep::Wait(NO_CHORES));
    let all = LoginChores {
        announce_two_factor: true,
        request_code: true,
        prompt_for_code: true,
        note_unattended: false,
        announce_captcha: true,
    };
    assert_eq!(watch.look(PageRead::Shows(page), true), LoginStep::Wait(all));
    assert_eq!(watch.prompted(PromptOutcome::Empty), 2);
    let again = LoginStep::Wait(LoginChores { prompt_for_code: true, ..NO_CHORES });
    assert_eq!(watch.look(PageRead::Shows(page), true), again);
    assert_eq!(watch.prompted(PromptOutcome::Failed), 0);
    assert_eq!(watch.look(PageRead::Shows(page), true), again);
    assert_eq!(watch.prompted(PromptOutcome::Submitted), 0);
    assert_eq!(watch.look(PageRead::Shows(page), true), LoginStep::Wait(NO_CHORES));
    assert!(watch.two_factor_submitted);
}

#[test]
fn unattended_watch_never_prompts() {
    let mut watch = LoginWatch::new();
    let page = LoginPage { multifactor: true, ..NOTHING };
    match watch.look(PageRead::Shows(page), false) {
        LoginStep::Wait(chores) => {
            assert!(chores.note_unattended && !chores.prompt_for_code && chores.request_code)
        }
        _ => panic!("the login goes on"),
    }
    assert_eq!(watch.look(PageRead::Shows(page), false), LoginStep::Wait(NO_CHORES));
}

#[test]
fn unreadable_pages_ask_for_nothing() {
    let mut watch = LoginWatch::new();
    assert_eq!(watch.look(PageRead::Unreadable, true), LoginStep::Wait(NO_CHORES));
    assert_eq!(watch, LoginWatch::new());
}

#[test]
fn login_takes_five_minutes_at_most() {
    let mut watch = LoginWatch::new();
    let page = PageRead::Shows(LoginPage { multifactor: true, ..NOTHING });
    for read in [PageRead::Unreadable, PageRead::Shows(NOTHING), page] {
        let step = watch.look(read, false);
        assert_eq!(login_turn(step, 299), LoginTurn::Again);
        assert_eq!(login_turn(step, 300), LoginTurn::GiveUp);
        assert_eq!(login_turn(step, u64::MAX), LoginTurn::GiveUp);
    }
    assert_eq!(login_turn(LoginStep::Done, 400), LoginTurn::Done);
    assert_eq!(login_turn(LoginStep::Rejected, 400), LoginTurn::Rejected);
}

#[test]
fn settings_of_white_space_count_as_absent() {
    assert_eq!(chrome_profile_directory(None), "Default");
    assert_eq!(chrome_profile_directory(Some(" ")), "Default");
    assert_eq!(chrome_profile_directory(Some(" Profile 1")), " Profile 1");
    let default = "/Applications/Google Chrome.app/Contents/MacOS/Google Chrome";
    assert_eq!(chrome_executable(None), default);
    assert_eq!(chrome_executable(Some("")), default);
    assert_eq!(chrome_executable(Some("/usr/bin/chrome")), "/usr/bin/chrome");
}

#[test]
fn chrome_is_started_with_its_arguments() {
    assert_eq!(chrome_arguments(None), ["--disable-gpu", "--disable-dev-shm-usage"]);
    assert_eq!(
        chrome_arguments(Some("Default")),
        ["--disable-gpu", "--disable-dev-shm-usage", "--profile-directory=Default"]
    );
}

#[test]
fn profiles_are_looked_for_where_set_and_below_home() {
    let below = "Library/Application Support/Google/Chrome";
    assert_eq!(chrome_data_dirs(None, Some("/Users/x")), [format!("/Users/x/{below}")]);
    assert_eq!(chrome_data_dirs(None, Some("/")), [format!("/{below}")]);
    assert_eq!(chrome_data_dirs(None, Some("")), [below]);
    assert_eq!(
        chrome_data_dirs(Some("/data"), Some("/Users/x")),
        ["/data".to_string(), format!("/Users/x/{below}")]
    );
    assert_eq!(chrome_data_dirs(Some("/data"), None), ["/data"]);
    assert!(chrome_data_dirs(None, None).is_empty());
}

#[test]
fn running_chrome_is_looked_for_first() {
    let usual = ["http://127.0.0.1:9222", "http://127.0.0.1:9223", "http://localhost:9222"];
    assert_eq!(debug_endpoints(None), usual);
    assert_eq!(debug_endpoints(Some(" ")), usual);
    assert_eq!(debug_endpoints(Some("http://x"))[0], "http://x");
    assert_eq!(debug_endpoints(Some("http://x"))[1..], usual);
    let plan = browser_plan(Some("http://x"), true);
    assert_eq!(plan.len(), 6);
    assert!(matches!(&plan[0], BrowserAttempt::Connect(e) if e == "http://x"));
    assert!(matches!(&plan[3], BrowserAttempt::Connect(e) if e == "http://localhost:9222"));
    assert!(matches!(plan[4], BrowserAttempt::LaunchWithProfile));
    assert!(matches!(plan[5], BrowserAttempt::LaunchIsolated));
    let closed: Vec<bool> = plan.iter().map(closes_browser).collect();
    assert_eq!(closed, [false, false, false, false, true, true]);
    let plan = browser_plan(None, false);
    assert_eq!(plan.len(), 4);
    assert!(matches!(plan[3], BrowserAttempt::LaunchIsolated));
}

#[test]
fn credentials_are_needed_only_for_the_form() {
    assert!(matches!(choose_login_path(true, true, None, None), Ok(LoginPath::LoggedIn)));
    assert!(matches!(choose_login_path(false, true, None, None), Ok(LoginPath::AwaitCompletion)));
    assert_eq!(
        choose_login_path(false, false, None, None).unwrap_err(),
        MissingCredential::Username
    );
    assert_eq!(
        choose_login_path(false, false, Some("a"), None).unwrap_err(),
        MissingCredential::Password
    );
    match choose_login_path(false, false, Some("a"), Some("b")) {
        Ok(LoginPath::FillForm { username, password }) => {
            assert_eq!((username.as_str(), password.as_str()), ("a", "b"))
        }
        _ => panic!("the form is filled in"),
    }
}

#[test]
fn waiting_ends_when_found_or_too_long() {
    assert_eq!(poll(true, 9, 3), Poll::Found);
    assert_eq!(poll(false, 2, 3), Poll::Again);
    assert_eq!(poll(false, 3, 3), Poll::TimedOut);
}

#[test]
fn pages_being_replaced_are_asked_again() {
    let causes = vec![
        "page JavaScript function evaluation failed".to_string(),
        "-32000: Cannot find context with specified id".to_string(),
    ];
    assert!(is_missing_context_error(&causes));
    assert!(!is_missing_context_error(&vec!["other".to_string()]));
    assert!(!is_missing_context_error(&vec![]));
    assert!(retries_page(&causes, 9));
    assert!(!retries_page(&causes, 10));
    assert!(!retries_page(&vec!["other".to_string()], 0));
}

#[test]
fn scripts_carry_quoted_values() {
    assert_eq!(
        navigate_script("http://a/\"b"),
        r#"() => { window.location.href = "http://a/\"b"; }"#
    );
    assert_eq!(navigate_to("X"), "() => { window.location.href = X; }");
    let click = click_script("账号登录");
    assert!(click.starts_with("() => {\n    const wanted = \"账号登录\";\n"));
    assert!(click.contains("${wanted}"));
    assert_eq!(click_on("\"账号登录\""), click);
    let form = fill_form_script("al\\ice", "p\nw");
    assert!(form.contains(r#"applyValue(usernameInput, "al\\ice");"#));
    assert!(form.contains(r#"applyValue(passwordInput, "p\nw");"#));
    assert_eq!(fill_form_with(r#""al\\ice""#, r#""p\nw""#), form);
    let code = fill_code_script("12\u{1}\"34");
    assert!(code.starts_with("() => {\n    const code = \"12\\u0001\\\"34\";\n"));
    assert_eq!(fill_code_with("\"12\\u0001\\\"34\""), code);
}

#[test]
fn codes_are_trimmed() {
    assert_eq!(entered_code(" 123456\n"), some("123456"));
    assert_eq!(entered_code(" \n"), None);
}

#[test]
fn submissions_are_reported_only_when_real() {
    let mut yes = JsonObject::new();
    yes.insert("submitted".to_string(), JsonValue::Flag(true));
    let mut no = JsonObject::new();
    no.insert("submitted".to_string(), JsonValue::Flag(false));
    let none = JsonObject::new();
    assert_eq!(prompt_outcome(" 123\n", Some(&yes)), PromptOutcome::Submitted);
    assert_eq!(prompt_outcome("123", Some(&no)), PromptOutcome::Failed);
    assert_eq!(prompt_outcome("123", Some(&none)), PromptOutcome::Failed);
    assert_eq!(prompt_outcome("123", None), PromptOutcome::Failed);
    assert_eq!(prompt_outcome(" \n", Some(&yes)), PromptOutcome::Empty);
    assert_eq!(prompt_outcome("", None), PromptOutcome::Empty);
}

#[test]
fn answers_of_scripts_are_read() {
    let mut answer = JsonObject::new();
    assert!(!code_was_submitted(&answer));
    answer.insert("submitted".to_string(), JsonValue::Text("true".to_string()));
    assert!(!code_was_submitted(&answer));
    answer.insert("submitted".to_string(), JsonValue::Flag(true));
    assert!(code_was_submitted(&answer));
    answer.insert("submitted".to_string(), JsonValue::Flag(false));
    assert!(!code_was_submitted(&answer));
    let form = read_filled_form(&answer, "");
    assert_eq!((form.username_len, form.password_len, form.username_matches), (0, 0, true));
    answer.insert("username".to_string(), JsonValue::Text("张三".to_string()));
    answer.insert("passwordLength".to_string(), JsonValue::Count(8));
    let form = read_filled_form(&answer, "张三");
    assert_eq!((form.username_len, form.password_len, form.username_matches), (6, 8, true));
    assert!(!read_filled_form(&answer, "x").username_matches);
}

#[test]
fn saved_cookies_are_set_at_their_domains() {
    let cookie = |name: &str, domain: &str, path: &str| SavedCookie {
        name: name.to_string(),
        value: "v".to_string(),
        domain: domain.to_string(),
        path: path.to_string(),
    };
    let settings = saved_settings(&vec![
        cookie("a", "ids.hit.edu.cn", "/authserver"),
        cookie("b", "", "/"),
        cookie("c", ".hitsz.edu.cn", "/"),
    ]);
    assert_eq!(settings.len(), 2);
    assert_eq!(settings[0].url.as_str(), "https://ids.hit.edu.cn/");
    assert_eq!(settings[0].line, "a=v; Path=/authserver");
    assert_eq!(settings[1].url.as_str(), "https://.hitsz.edu.cn/");
    assert_eq!(settings[1].line, "c=v; Path=/");
    assert_eq!(domain_url("x"), "https://x/");
    assert_eq!(cookie_line("n", "v", "/p"), "n=v; Path=/p");
    assert!(setting_with(None, "n", "v", "/").is_none());
}

#[test]
fn session_cookies_are_set_for_the_university() {
    let mut cookies = CookieMap::new();
    cookies.insert("a".to_string(), "1".to_string());
    cookies.insert("b".to_string(), "2".to_string());
    let settings = session_settings(&cookies);
    let seen: Vec<(&str, &str)> =
        settings.iter().map(|s| (s.url.as_str(), s.line.as_str())).collect();
    assert_eq!(
        seen,
        [
            ("https://hitsz.edu.cn/", "a=1; Path=/"),
            ("https://hit.edu.cn/", "a=1; Path=/"),
            ("https://edu.cn/", "a=1; Path=/"),
            ("https://hitsz.edu.cn/", "b=2; Path=/"),
            ("https://hit.edu.cn/", "b=2; Path=/"),
            ("https://edu.cn/", "b=2; Path=/"),
        ]
    );
}

#[test]
fn cookies_of_the_host_and_around_it_count() {
    let cookie = |name: &str, value: &str, domain: Option<&str>| StoredCookie {
        name: name.to_string(),
        value: value.to_string(),
        domain: domain.map(str::to_owned),
    };
    let cookies = vec![
        cookie("a", "1", None),
        cookie("b", "2", Some("jw.hitsz.edu.cn")),
        cookie("c", "3", Some("hitsz.edu.cn")),
        cookie("d", "4", Some("x.jw.hitsz.edu.cn")),
        cookie("e", "5", Some("ids.hit.edu.cn")),
        cookie("a", "6", Some("jw.hitsz.edu.cn")),
    ];
    let map = cookies_for_host(&cookies, "jw.hitsz.edu.cn");
    assert_eq!(map.len(), 4);
    assert_eq!(map.get("a"), Some("6"));
    assert_eq!(map.get("b"), Some("2"));
    assert_eq!(map.get("c"), Some("3"));
    assert_eq!(map.get("d"), Some("4"));
    assert_eq!(map.get("e"), None);
}

#[test]
fn saved_cookies_are_read_back_from_the_store() {
    let cookie = |name: &str, value: &str, domain: &str, path: &str| SavedCookie {
        name: name.to_string(),
        value: value.to_string(),
        domain: domain.to_string(),
        path: path.to_string(),
    };
    let store = saved_cookie_store(&vec![
        cookie("CASTGC", "TGT=1", "ids.hit.edu.cn", "/authserver"),
        cookie("JSESSIONID", "a", "jw.hitsz.edu.cn", "/"),
        cookie("JSESSIONID", "b", "jw.hitsz.edu.cn", "/"),
        cookie("lost", "x", "", "/"),
    ]);
    let kept = store.get("ids.hit.edu.cn", "/authserver", "CASTGC").expect("kept");
    assert_eq!(kept.value(), "TGT=1");
    assert_eq!(store.get("jw.hitsz.edu.cn", "/", "JSESSIONID").expect("kept").value(), "b");
    assert_eq!(store.iter_any().count(), 2);
    let map = extract_domain_cookies(&store, "jw.hitsz.edu.cn");
    assert_eq!(map.len(), 2);
    assert_eq!(map.get("CASTGC"), Some("TGT=1"));
    assert_eq!(map.get("JSESSIONID"), Some("b"));
}

#[test]
fn cookies_without_a_name_take_no_others_along() {
    let cookie = |name: &str, value: &str| SavedCookie {
        name: name.to_string(),
        value: value.to_string(),
        domain: "jw.hitsz.edu.cn".to_string(),
        path: "/".to_string(),
    };
    let store = saved_cookie_store(&vec![
        cookie("a", "1"),
        cookie("", "x"),
        cookie("b", "2; Max-Age=0"),
        cookie("c", "3"),
    ]);
    assert_eq!(store.iter_any().count(), 2);
    assert_eq!(store.get("jw.hitsz.edu.cn", "/", "a").expect("kept").value(), "1");
    assert_eq!(store.get("jw.hitsz.edu.cn", "/", "c").expect("kept").value(), "3");
}

#[test]
fn session_cookies_are_stored_for_each_domain() {
    let mut cookies = CookieMap::new();
    cookies.insert("a".to_string(), "1".to_string());
    let store = session_cookie_store(&cookies);
    for domain in ["hitsz.edu.cn", "hit.edu.cn", "edu.cn"] {
        assert_eq!(store.get(domain, "/", "a").expect("kept").value(), "1");
    }
    assert_eq!(store.iter_any().count(), 3);
}

#[test]
fn lines_that_name_a_domain_count_for_it() {
    let url = PageUrl::parse("https://jw.hitsz.edu.cn/").expect("valid url");
    let line = |name: &str, rest: &str| setting_with(Some(url.clone()), name, "v", rest).expect("a URL");
    let store = fill_store(&vec![
        line("near", "/; Domain=hitsz.edu.cn"),
        line("foreign", "/; Domain=hit.edu.cn"),
        line("gone", "/; Max-Age=0"),
        line("", "/"),
    ]);
    assert_eq!(store.iter_any().count(), 1);
    assert_eq!(extract_domain_cookies(&store, "jw.hitsz.edu.cn").get("near"), Some("v"));
    assert_eq!(extract_domain_cookies(&store, "ids.hit.edu.cn").len(), 0);
    assert_eq!(fill_store(&vec![]).iter_any().count(), 0);
}
