//! The login in a browser: what a page shows, which step comes next, and how the
//! portal's scripted redirects are followed.

use crate::auth::{INFO_HOST, JW_HOST};
use crate::page_url;
use crate::page_url::{host_of, PageUrl};
use crate::text;
use crate::text::{contains, find_chars, same_text, to_chars};
use vstd::prelude::*;
use vstd::string::*;

verus! {

pub const JW_CAS_URL: &'static str = "http://jw.hitsz.edu.cn/cas";

pub const JW_HOME_URL: &'static str = "http://jw.hitsz.edu.cn/";

pub const INFO_DEFAULT_URL: &'static str = "http://info.hitsz.edu.cn/list.jsp?wbtreeid=1053";

// ── what a page shows ───────────────────────────────────────────────────────
/// The page asks for a second factor. The login form itself speaks of dynamic
/// codes too, so the words for it count only where the form's own prompt is absent.
pub open spec fn is_multifactor(html: Seq<char>) -> bool {
    ||| text::holds(html, "reAuthCheck"@)
    ||| text::holds(html, "reAuthLoginView"@)
    ||| text::holds(html, "两步验证"@) && !text::holds(html, "请输入学号"@)
    ||| text::holds(html, "二次验证"@) && !text::holds(html, "请输入学号"@)
    ||| text::holds(html, "双因素"@) && !text::holds(html, "请输入学号"@)
    ||| text::holds(html, "multifactor"@) && !text::holds(html, "passwordText"@)
}

/// True where the page asks for a second factor.
pub fn is_multifactor_html(html: &str) -> (r: bool)
    ensures
        r == is_multifactor(html@),
{
    contains(html, "reAuthCheck") || contains(html, "reAuthLoginView") || (contains(
        html,
        "两步验证",
    ) && !contains(html, "请输入学号")) || (contains(html, "二次验证") && !contains(
        html,
        "请输入学号",
    )) || (contains(html, "双因素") && !contains(html, "请输入学号")) || (contains(
        html,
        "multifactor",
    ) && !contains(html, "passwordText"))
}

fn is_host(host: &Option<String>, expected: &str) -> (r: bool)
    ensures
        r == (text::opt_view(*host) == Some(expected@)),
{
    match host {
        Some(h) => same_text(h.as_str(), expected),
        None => false,
    }
}

/// True where the host is the student portal's.
pub fn is_jw_host(host: &Option<String>) -> (r: bool)
    ensures
        r == (text::opt_view(*host) == Some(JW_HOST@)),
{
    is_host(host, JW_HOST)
}

/// True where the URL is one of the student portal.
pub fn is_jw_url(current_url: &str) -> (r: bool)
    ensures
        r == (page_url::url_host(current_url@) == Some(JW_HOST@)),
{
    is_jw_host(&host_of(current_url))
}

/// What `str::to_lowercase` of std makes of `input`.
pub uninterp spec fn lowercased(input: Seq<char>) -> Seq<char>;

/// Calls `str::to_lowercase` of std. The result depends on the text alone and has
/// the name `lowercased`.
#[verifier::external_body]
fn to_lowercase(input: &str) -> (r: String)
    ensures
        r@ == lowercased(input@),
{
    input.to_lowercase()
}

/// The page, which reads `lowered` in lower case, shows a captcha.
pub open spec fn is_captcha(html: Seq<char>, lowered: Seq<char>) -> bool {
    text::holds(html, "验证码"@) && text::holds(lowered, "captcha"@)
}

/// The page says that the username or the password is wrong.
pub open spec fn rejects_credentials(html: Seq<char>) -> bool {
    text::holds(html, "用户名或密码错误"@) || text::holds(html, "账号或密码错误"@)
}

/// What a page shows to someone who waits for the login to complete.
#[derive(Debug, Clone, Copy, PartialEq, Eq, Structural)]
pub struct LoginPage {
    pub on_portal: bool,
    pub rejected: bool,
    pub multifactor: bool,
    pub captcha: bool,
}

/// What the page `html` of the host `host` shows, given its text in lower case.
pub open spec fn login_page_of(
    host: Option<Seq<char>>,
    html: Seq<char>,
    lowered: Seq<char>,
) -> LoginPage {
    LoginPage {
        on_portal: host == Some(JW_HOST@),
        rejected: rejects_credentials(html),
        multifactor: is_multifactor(html),
        captcha: is_captcha(html, lowered),
    }
}

/// What the page `html` of the host `host` shows, given its text in lower case.
pub fn login_page_with(host: &Option<String>, html: &str, lowered: &str) -> (r: LoginPage)
    ensures
        r == login_page_of(text::opt_view(*host), html@, lowered@),
{
    LoginPage {
        on_portal: is_jw_host(host),
        rejected: contains(html, "用户名或密码错误") || contains(html, "账号或密码错误"),
        multifactor: is_multifactor_html(html),
        captcha: contains(html, "验证码") && contains(lowered, "captcha"),
    }
}

/// What the page `html` at `current_url` shows.
pub fn read_login_page(current_url: &str, html: &str) -> (r: LoginPage)
    ensures
        r == login_page_of(page_url::url_host(current_url@), html@, lowercased(html@)),
{
    login_page_with(&host_of(current_url), html, to_lowercase(html).as_str())
}

// ── scripted redirects ──────────────────────────────────────────────────────
/// What stands in front of a scripted redirect's target.
pub const REDIRECT_MARKER: &'static str = "window.location.href=";

/// The target of the first scripted redirect: the text in quotes, single or
/// double, right behind the marker.
pub open spec fn js_redirect(html: Seq<char>) -> Option<Seq<char>> {
    match text::find_from(html, REDIRECT_MARKER@, 0) {
        Some(at) => {
            let start = at + REDIRECT_MARKER@.len();
            if start < html.len() && (html[start] == '\'' || html[start] == '"') {
                match text::find_from(html, seq![html[start]], start + 1) {
                    Some(end) => Some(html.subrange(start + 1, end)),
                    None => None,
                }
            } else {
                None
            }
        },
        None => None,
    }
}

/// The target of the first `window.location.href='...'` or
/// `window.location.href="..."`.
pub fn extract_js_redirect(html: &str) -> (r: Option<String>)
    ensures
        text::opt_view(r) == js_redirect(html@),
{
    let cs: Vec<char> = to_chars(html);
    let marker: Vec<char> = to_chars(REDIRECT_MARKER);
    proof {
        text::lemma_find_from(html@, REDIRECT_MARKER@, 0);
    }
    match find_chars(&cs, &marker, 0) {
        Some(at) => {
            let n: usize = cs.len();
            let start: usize = at + marker.len();
            if start >= n {
                return None;
            }
            let quote: char = cs[start];
            if quote != '\'' && quote != '"' {
                return None;
            }
            let mut closing: Vec<char> = Vec::new();
            closing.push(quote);
            assert(closing@ =~= seq![quote]);
            proof {
                text::lemma_find_from(html@, closing@, start + 1);
            }
            match find_chars(&cs, &closing, start + 1) {
                Some(end) => Some(html.substring_char(start + 1, end).to_owned()),
                None => None,
            }
        },
        None => None,
    }
}

/// How many scripted redirects are followed: one to the login service, one back.
pub const REDIRECT_LIMIT: usize = 2;

/// The page redirects by script and is no notice list.
pub open spec fn is_redirect_page(html: Seq<char>) -> bool {
    text::holds(html, "window.location.href"@) && !text::holds(html, "Newslist"@)
}

/// Where to go on from the page `html`, once `followed` redirects were followed.
pub open spec fn redirect_after(html: Seq<char>, followed: int) -> Option<Seq<char>> {
    if followed < REDIRECT_LIMIT && is_redirect_page(html) {
        js_redirect(html)
    } else {
        None
    }
}

/// Where to go on from the page `html`, once `followed` redirects were followed.
pub fn next_redirect(html: &str, followed: usize) -> (r: Option<String>)
    ensures
        text::opt_view(r) == redirect_after(html@, followed as int),
{
    if followed < REDIRECT_LIMIT && contains(html, "window.location.href") && !contains(
        html,
        "Newslist",
    ) {
        extract_js_redirect(html)
    } else {
        None
    }
}

/// The page `html` of the host `host` is no page of the info portal, or one that
/// leads to the login: the saved session has expired.
pub open spec fn is_expired(host: Option<Seq<char>>, html: Seq<char>) -> bool {
    ||| host != Some(INFO_HOST@)
    ||| text::holds(html, "authserver/login"@)
    ||| text::holds(html, "caslogin"@) && !text::holds(html, "Newslist"@)
}

/// True where the page `html` of the host `host` shows that the saved session has
/// expired.
pub fn expired_at(host: &Option<String>, html: &str) -> (r: bool)
    ensures
        r == is_expired(text::opt_view(*host), html@),
{
    !is_host(host, INFO_HOST) || contains(html, "authserver/login") || (contains(html, "caslogin")
        && !contains(html, "Newslist"))
}

/// True where the page `html` at `final_url` shows that the saved session has
/// expired.
pub fn session_expired(final_url: &PageUrl, html: &str) -> (r: bool)
    ensures
        r == is_expired(page_url::url_host(final_url@), html@),
{
    expired_at(&final_url.host_str(), html)
}

/// A scripted redirect reads back: the target that was put in quotes behind the
/// marker is the one that is found, where the marker does not stand earlier and
/// the target does not hold the quote.
pub proof fn law_redirect_reads_back(
    before: Seq<char>,
    quote: char,
    target: Seq<char>,
    after: Seq<char>,
)
    requires
        quote == '\'' || quote == '"',
        forall|i: int| 0 <= i < target.len() ==> target[i] != quote,
        forall|j: int|
            0 <= j < before.len() ==> !text::occurs_at(
                before + REDIRECT_MARKER@ + seq![quote] + target + seq![quote] + after,
                REDIRECT_MARKER@,
                j,
            ),
    ensures
        js_redirect(before + REDIRECT_MARKER@ + seq![quote] + target + seq![quote] + after)
            == Some(target),
{
    let m = REDIRECT_MARKER@;
    let q = seq![quote];
    let html = before + m + q + target + q + after;
    let at = before.len() as int;
    let start = at + m.len();
    let end = start + 1 + target.len();
    assert(html.subrange(at, start) =~= m);
    text::lemma_find_from_is(html, m, 0, at);
    assert(html[start] == quote);
    assert(html[end] == quote);
    assert(html.subrange(end, end + 1) =~= q);
    assert forall|j: int| start + 1 <= j < end implies !text::occurs_at(html, q, j) by {
        assert(html[j] == target[j - start - 1]);
        assert(html.subrange(j, j + 1)[0] == html[j]);
        assert(q[0] == quote);
    }
    text::lemma_find_from_is(html, q, start + 1, end);
    assert(html.subrange(start + 1, end) =~= target);
}

/// A page that shows a live session is one of the info portal and leads to no
/// login: it would pass as a page of a fresh login too.
pub proof fn law_live_page_is_authenticated(host: Option<Seq<char>>, html: Seq<char>)
    ensures
        !is_expired(host, html) ==> host == Some(INFO_HOST@) && !text::holds(
            html,
            "authserver/login"@,
        ),
{
}

/// Where the portal is, what a scripted redirect starts with and how many are
/// followed.
pub proof fn law_portal_has_its_addresses()
    ensures
        JW_CAS_URL@ == "http://jw.hitsz.edu.cn/cas"@,
        JW_HOME_URL@ == "http://jw.hitsz.edu.cn/"@,
        INFO_DEFAULT_URL@ == "http://info.hitsz.edu.cn/list.jsp?wbtreeid=1053"@,
        REDIRECT_MARKER@ == "window.location.href="@,
        REDIRECT_LIMIT == 2,
{
}

/// The words by which a page asks for a second factor. Three of them count only on a
/// page that does not ask for the student number, and one only on a page without the
/// password field.
pub proof fn law_second_factor_words(html: Seq<char>)
    ensures
        text::holds(html, "reAuthCheck"@) || text::holds(html, "reAuthLoginView"@)
            ==> is_multifactor(html),
        (text::holds(html, "两步验证"@) || text::holds(html, "二次验证"@) || text::holds(
            html,
            "双因素"@,
        )) && !text::holds(html, "请输入学号"@) ==> is_multifactor(html),
        text::holds(html, "multifactor"@) && !text::holds(html, "passwordText"@) ==> is_multifactor(
            html,
        ),
        is_multifactor(html) ==> text::holds(html, "reAuthCheck"@) || text::holds(
            html,
            "reAuthLoginView"@,
        ) || (!text::holds(html, "请输入学号"@) && (text::holds(html, "两步验证"@) || text::holds(
            html,
            "二次验证"@,
        ) || text::holds(html, "双因素"@))) || (text::holds(html, "multifactor"@) && !text::holds(
            html,
            "passwordText"@,
        )),
{
}

/// What a page shows goes by its host and its words.
pub proof fn law_login_page_is_read(host: Option<Seq<char>>, html: Seq<char>, lowered: Seq<char>)
    ensures
        login_page_of(host, html, lowered).on_portal <==> host == Some("jw.hitsz.edu.cn"@),
        login_page_of(host, html, lowered).rejected <==> text::holds(html, "用户名或密码错误"@)
            || text::holds(html, "账号或密码错误"@),
        login_page_of(host, html, lowered).multifactor <==> is_multifactor(html),
        login_page_of(host, html, lowered).captcha <==> text::holds(html, "验证码"@)
            && text::holds(lowered, "captcha"@),
{
}

/// A page without the marker redirects nowhere, and neither does one where behind
/// the first marker no quoted text stands.
pub proof fn law_no_redirect_without_a_quoted_target(before: Seq<char>, rest: Seq<char>)
    requires
        forall|j: int|
            0 <= j < before.len() ==> #[trigger] (before + "window.location.href="@
                + rest).subrange(j, j + "window.location.href="@.len())
                != "window.location.href="@,
        rest.len() == 0 || (rest[0] != '\'' && rest[0] != '"') || (forall|i: int|
            0 < i < rest.len() ==> #[trigger] rest[i] != rest[0]),
    ensures
        js_redirect(before + "window.location.href="@ + rest) is None,
{
    let m = REDIRECT_MARKER@;
    let html = before + m + rest;
    let at = before.len() as int;
    let start = at + m.len();
    text::law_find_from_finds_what_was_put(before, m, rest);
    if rest.len() > 0 {
        assert(html[start] == rest[0]);
        let q = seq![rest[0]];
        text::law_find_from_is_first(html, q, start + 1);
        if let Some(end) = text::find_from(html, q, start + 1) {
            assert(html.subrange(end, end + 1)[0] == html[end]);
            assert(q[0] == rest[0]);
            assert(html[end] == rest[end - start]);
        }
    }
}

/// A page that does not hold the marker redirects nowhere.
pub proof fn law_no_redirect_without_the_marker(html: Seq<char>)
    requires
        !text::holds(html, "window.location.href="@),
    ensures
        js_redirect(html) is None,
{
    text::law_find_from_is_first(html, REDIRECT_MARKER@, 0);
    if let Some(at) = text::find_from(html, REDIRECT_MARKER@, 0) {
        assert(html =~= html.take(at) + REDIRECT_MARKER@ + html.skip(
            at + REDIRECT_MARKER@.len(),
        ));
        text::law_holds_is_standing_inside(html, REDIRECT_MARKER@);
    }
}

/// Two redirects are followed at most, and none from a notice list or a page that
/// does not redirect by script; else the page's own redirect is followed.
pub proof fn law_redirects_are_followed(html: Seq<char>, followed: int)
    ensures
        followed >= 2 || text::holds(html, "Newslist"@) || !text::holds(
            html,
            "window.location.href"@,
        ) ==> redirect_after(html, followed) is None,
        followed < 2 && !text::holds(html, "Newslist"@) && text::holds(
            html,
            "window.location.href"@,
        ) ==> redirect_after(html, followed) == js_redirect(html),
{
}

/// A saved session is live exactly on a page of the info portal that does not lead
/// to the login, unless it is a notice list that only mentions it.
pub proof fn law_live_session(host: Option<Seq<char>>, html: Seq<char>)
    ensures
        !is_expired(host, html) <==> host == Some("info.hitsz.edu.cn"@) && !text::holds(
            html,
            "authserver/login"@,
        ) && (text::holds(html, "Newslist"@) || !text::holds(html, "caslogin"@)),
{
}

} // verus!
