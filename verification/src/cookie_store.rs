//! The cookie store of an HTTP client: how saved cookies are put into it, for
//! which URL and as which line each is set, and which of its cookies count for a
//! host.

use crate::cookies::CookieMap;
use crate::page_url;
use crate::page_url::PageUrl;
use crate::profile::SavedCookie;
use crate::text;
use crate::text::{find_chars, to_chars};
use reqwest_cookie_store::CookieStore;
use vstd::prelude::*;
use vstd::string::*;

verus! {

// ── the store ───────────────────────────────────────────────────────────────
/// The cookie store of `reqwest_cookie_store`.
#[verifier::external_type_specification]
#[verifier::external_body]
pub struct ExCookieStore(reqwest_cookie_store::CookieStore);

/// Under the domain, the path and the name that a cookie is filed by, its value and
/// the domain that its line gave, if it gave one.
pub type StoreView = Map<(Seq<char>, Seq<char>, Seq<char>), (Seq<char>, Option<Seq<char>>)>;

/// What a store holds.
pub uninterp spec fn stored(store: CookieStore) -> Map<
    (Seq<char>, Seq<char>, Seq<char>),
    (Seq<char>, Option<Seq<char>>),
>;

/// The name, the value and the domain that `CookieStore::parse` reads in a line;
/// nothing where it finds no cookie there.
pub uninterp spec fn cookie_in(line: Seq<char>) -> Option<
    (Seq<char>, Seq<char>, Option<Seq<char>>),
>;

/// Name, value and path can stand in a cookie's line as they are: nothing in them
/// ends a part of the line, and they have no white space at their ends.
pub open spec fn is_plain_cookie(name: Seq<char>, value: Seq<char>, path: Seq<char>) -> bool {
    &&& name.len() > 0
    &&& text::trimmed(name) == name
    &&& text::trimmed(value) == value
    &&& text::trimmed(path) == path
    &&& path.len() > 0 && path[0] == '/'
    &&& forall|i: int| 0 <= i < name.len() ==> name[i] != '=' && name[i] != ';'
    &&& forall|i: int| 0 <= i < value.len() ==> value[i] != ';'
    &&& forall|i: int| 0 <= i < path.len() ==> path[i] != ';'
}

/// The URL belongs to a named host and is fetched over HTTPS.
pub open spec fn is_https_host(url: Seq<char>, host: Seq<char>) -> bool {
    &&& text::occurs_at(url, "https://"@, 0)
    &&& page_url::url_host(url) == Some(host)
    &&& host.len() > 0 && host[0] != '['
}

/// Calls `CookieStore::default` of `reqwest_cookie_store`: nothing is in the store.
#[verifier::external_body]
fn new_store() -> (r: CookieStore)
    ensures
        stored(r) == StoreView::empty(),
{
    CookieStore::default()
}

/// Calls `CookieStore::parse` for a line that the URL `url` sets. Either the store
/// holds what it held, or the cookie of the line is filed under some domain and
/// path and its name; which of the two depends on the time where the line gives
/// the cookie an expiry. A line made of plain parts gives none, and its cookie is
/// filed under the host of the URL and the path of the line.
#[verifier::external_body]
fn set_cookie(store: &mut CookieStore, line: &str, url: &str)
    ensures
        stored(*final(store)) == stored(*old(store)) || (cookie_in(line@) matches Some(c)
            && exists|domain: Seq<char>, path: Seq<char>|
            stored(*final(store)) == #[trigger] stored(*old(store)).insert(
                (domain, path, c.0),
                (c.1, c.2),
            )),
        forall|name: Seq<char>, value: Seq<char>, path: Seq<char>, host: Seq<char>|
            line@ == #[trigger] cookie_line_of(name, value, path) && is_plain_cookie(
                name,
                value,
                path,
            ) && #[trigger] is_https_host(url@, host) ==> stored(*final(store)) == stored(
                *old(store),
            ).insert((host, path, name), (value, None)),
{
    if let Ok(u) = url::Url::parse(url) {
        let _ = store.parse(line, &u);
    }
}

/// Calls `CookieStore::iter_any` and copies out of each cookie its name, its value
/// and the domain that its line gave: each cookie of the store is listed, and none
/// else. The order of the list is left open.
#[verifier::external_body]
fn list_cookies(store: &CookieStore) -> (r: Vec<StoredCookie>)
    ensures
        forall|i: int|
            0 <= i < r@.len() ==> exists|domain: Seq<char>, path: Seq<char>|
                is_filed(stored(*store), #[trigger] r@[i]@, domain, path),
        forall|cookie: CookieView, domain: Seq<char>, path: Seq<char>| #[trigger]
            is_filed(stored(*store), cookie, domain, path) ==> exists|i: int|
                0 <= i < r@.len() && (#[trigger] r@[i])@ == cookie,
{
    let copy = |c: &reqwest_cookie_store::RawCookie| StoredCookie {
        name: c.name().to_owned(),
        value: c.value().to_owned(),
        domain: c.domain().map(str::to_owned),
    };
    store.iter_any().map(|c| copy(c)).collect()
}

// ── setting cookies ─────────────────────────────────────────────────────────
/// A cookie as it is put into a store: the URL that sets it, and the line that a
/// server would set it with.
#[derive(Debug, Clone)]
pub struct CookieSetting {
    pub url: PageUrl,
    pub line: String,
}

/// The contents of a `CookieSetting`.
pub struct SettingView {
    pub url: Seq<char>,
    pub line: Seq<char>,
}

impl View for CookieSetting {
    type V = SettingView;

    open spec fn view(&self) -> SettingView {
        SettingView { url: self.url@, line: self.line@ }
    }
}

/// The contents of each setting.
pub open spec fn setting_views(settings: Seq<CookieSetting>) -> Seq<SettingView> {
    Seq::new(settings.len(), |i: int| settings[i]@)
}

/// The URL of the domain's root.
pub open spec fn domain_root(domain: Seq<char>) -> Seq<char> {
    "https://"@ + domain + "/"@
}

/// The line that sets the cookie.
pub open spec fn cookie_line_of(name: Seq<char>, value: Seq<char>, path: Seq<char>) -> Seq<char> {
    name + "="@ + value + "; Path="@ + path
}

/// The setting of a cookie at the URL of its domain, if the domain makes one up.
pub open spec fn setting_at(
    url: Option<Seq<char>>,
    name: Seq<char>,
    value: Seq<char>,
    path: Seq<char>,
) -> Option<SettingView> {
    match url {
        Some(u) => Some(SettingView { url: u, line: cookie_line_of(name, value, path) }),
        None => None,
    }
}

/// The settings with the new one behind them, if there is one.
pub open spec fn with_setting(before: Seq<SettingView>, setting: Option<SettingView>) -> Seq<
    SettingView,
> {
    match setting {
        Some(s) => before.push(s),
        None => before,
    }
}

/// The URL of the domain's root.
pub fn domain_url(domain: &str) -> (r: String)
    ensures
        r@ == domain_root(domain@),
{
    let mut url: String = "https://".to_owned();
    url.append(domain);
    url.append("/");
    url
}

/// The line that sets the cookie.
pub fn cookie_line(name: &str, value: &str, path: &str) -> (r: String)
    ensures
        r@ == cookie_line_of(name@, value@, path@),
{
    let mut line: String = name.to_owned();
    line.append("=");
    line.append(value);
    line.append("; Path=");
    line.append(path);
    line
}

/// The setting of a cookie at the URL of its domain, if the domain makes one up.
pub fn setting_with(url: Option<PageUrl>, name: &str, value: &str, path: &str) -> (r: Option<
    CookieSetting,
>)
    ensures
        match r {
            Some(setting) => setting_at(page_url::opt_url_view(url), name@, value@, path@) == Some(
                setting@,
            ),
            None => setting_at(page_url::opt_url_view(url), name@, value@, path@) is None,
        },
{
    match url {
        Some(u) => Some(CookieSetting { url: u, line: cookie_line(name, value, path) }),
        None => None,
    }
}

fn push_setting(settings: &mut Vec<CookieSetting>, domain: &str, name: &str, value: &str, path: &str)
    ensures
        setting_views(final(settings)@) == with_setting(
            setting_views(old(settings)@),
            setting_at(page_url::url_parsed(domain_root(domain@)), name@, value@, path@),
        ),
{
    let ghost before = settings@;
    if let Some(setting) = setting_with(
        PageUrl::parse(domain_url(domain).as_str()),
        name,
        value,
        path,
    ) {
        settings.push(setting);
        assert(setting_views(settings@) =~= setting_views(before).push(setting@));
    }
}

/// The settings of saved cookies, each at its own domain and path. A cookie whose
/// domain makes up no URL is left out.
pub open spec fn saved_settings_of(cookies: Seq<SavedCookie>) -> Seq<SettingView>
    decreases cookies.len(),
{
    if cookies.len() == 0 {
        Seq::empty()
    } else {
        let c = cookies.last();
        with_setting(
            saved_settings_of(cookies.drop_last()),
            setting_at(page_url::url_parsed(domain_root(c.domain@)), c.name@, c.value@, c.path@),
        )
    }
}

/// The settings of saved cookies, each at its own domain and path.
pub fn saved_settings(cookies: &Vec<SavedCookie>) -> (r: Vec<CookieSetting>)
    ensures
        setting_views(r@) == saved_settings_of(cookies@),
{
    let mut out: Vec<CookieSetting> = Vec::new();
    let mut i: usize = 0;
    assert(setting_views(out@) =~= saved_settings_of(cookies@.take(0)));
    while i < cookies.len()
        invariant
            i <= cookies@.len(),
            setting_views(out@) == saved_settings_of(cookies@.take(i as int)),
        decreases cookies@.len() - i,
    {
        let c: &SavedCookie = &cookies[i];
        assert(cookies@.take(i + 1).drop_last() =~= cookies@.take(i as int));
        push_setting(
            &mut out,
            c.domain.as_str(),
            c.name.as_str(),
            c.value.as_str(),
            c.path.as_str(),
        );
        i = i + 1;
    }
    assert(cookies@.take(cookies@.len() as int) =~= cookies@);
    out
}

/// The settings with those of one cookie for the university's domains behind them.
pub open spec fn with_session_cookie(
    before: Seq<SettingView>,
    name: Seq<char>,
    value: Seq<char>,
) -> Seq<SettingView> {
    let a = with_setting(
        before,
        setting_at(page_url::url_parsed(domain_root("hitsz.edu.cn"@)), name, value, "/"@),
    );
    let b = with_setting(
        a,
        setting_at(page_url::url_parsed(domain_root("hit.edu.cn"@)), name, value, "/"@),
    );
    with_setting(b, setting_at(page_url::url_parsed(domain_root("edu.cn"@)), name, value, "/"@))
}

/// The settings of a browser session's cookies, whose domains are not known: each
/// is set for the university's domains and for the one above them.
pub open spec fn session_settings_of(cookies: Seq<(Seq<char>, Seq<char>)>) -> Seq<SettingView>
    decreases cookies.len(),
{
    if cookies.len() == 0 {
        Seq::empty()
    } else {
        with_session_cookie(
            session_settings_of(cookies.drop_last()),
            cookies.last().0,
            cookies.last().1,
        )
    }
}

/// The settings of a browser session's cookies, for the university's domains.
pub fn session_settings(cookies: &CookieMap) -> (r: Vec<CookieSetting>)
    ensures
        setting_views(r@) == session_settings_of(cookies.listed()),
{
    let ghost all = cookies.listed();
    let mut out: Vec<CookieSetting> = Vec::new();
    let n: usize = cookies.len();
    let mut i: usize = 0;
    assert(setting_views(out@) =~= session_settings_of(all.take(0)));
    while i < n
        invariant
            i <= n,
            n == all.len(),
            all == cookies.listed(),
            setting_views(out@) == session_settings_of(all.take(i as int)),
        decreases n - i,
    {
        assert(all.take(i + 1).drop_last() =~= all.take(i as int));
        let (name, value) = cookies.entry(i);
        push_setting(&mut out, "hitsz.edu.cn", name, value, "/");
        push_setting(&mut out, "hit.edu.cn", name, value, "/");
        push_setting(&mut out, "edu.cn", name, value, "/");
        i = i + 1;
    }
    assert(all.take(n as int) =~= all);
    out
}

// ── filling a store ─────────────────────────────────────────────────────────
/// A cookie whose parts can stand in its line as they are, and the host that sets
/// it.
pub struct PlainCookie {
    pub host: Seq<char>,
    pub name: Seq<char>,
    pub value: Seq<char>,
    pub path: Seq<char>,
}

/// The setting is that of a plain cookie.
pub open spec fn sets_plainly(setting: SettingView, cookie: PlainCookie) -> bool {
    &&& setting.line == cookie_line_of(cookie.name, cookie.value, cookie.path)
    &&& is_plain_cookie(cookie.name, cookie.value, cookie.path)
    &&& is_https_host(setting.url, cookie.host)
}

/// The settings are those of plain cookies, one for one.
pub open spec fn all_set_plainly(settings: Seq<SettingView>, cookies: Seq<PlainCookie>) -> bool {
    &&& settings.len() == cookies.len()
    &&& forall|i: int| 0 <= i < settings.len() ==> sets_plainly(settings[i], #[trigger] cookies[i])
}

/// What a store holds once plain cookies were put into it: each under its host, its
/// path and its name, in place of what was there.
pub open spec fn filed(cookies: Seq<PlainCookie>) -> StoreView
    decreases cookies.len(),
{
    if cookies.len() == 0 {
        StoreView::empty()
    } else {
        let c = cookies.last();
        filed(cookies.drop_last()).insert((c.host, c.path, c.name), (c.value, None))
    }
}

/// The line of some setting gives the cookie that is filed under `key`.
pub open spec fn comes_from(
    store: StoreView,
    key: (Seq<char>, Seq<char>, Seq<char>),
    settings: Seq<SettingView>,
) -> bool {
    exists|i: int|
        0 <= i < settings.len() && cookie_in((#[trigger] settings[i]).line) == Some(
            (key.2, store[key].0, store[key].1),
        )
}

/// The setting leaves a plain cookie as it is filed: it sets a plain cookie of
/// another host, path or name, or its line gives no cookie of that name.
pub open spec fn leaves_alone(setting: SettingView, cookie: PlainCookie) -> bool {
    ||| exists|other: PlainCookie| #[trigger]
        sets_plainly(setting, other) && (other.host, other.path, other.name) != (
            cookie.host,
            cookie.path,
            cookie.name,
        )
    ||| match cookie_in(setting.line) {
        Some(c) => c.0 != cookie.name,
        None => true,
    }
}

/// The setting at `k` is that of the plain cookie, and every later one leaves it as
/// it is filed.
pub open spec fn prevails(settings: Seq<SettingView>, k: int, cookie: PlainCookie) -> bool {
    &&& 0 <= k < settings.len()
    &&& sets_plainly(settings[k], cookie)
    &&& forall|j: int| k < j < settings.len() ==> leaves_alone(#[trigger] settings[j], cookie)
}

/// The plain cookie is in the store, under its host, its path and its name.
pub open spec fn holds_plain(store: StoreView, cookie: PlainCookie) -> bool {
    is_filed(
        store,
        CookieView { name: cookie.name, value: cookie.value, domain: None },
        cookie.host,
        cookie.path,
    )
}

/// Puts the settings into a new store, in order. Nothing gets into it but the
/// cookies of their lines. A plain cookie gets into it, whatever the other settings
/// are, and stays in it unless a later one takes its place. Where all settings are
/// those of plain cookies, the store holds just these.
pub fn fill_store(settings: &Vec<CookieSetting>) -> (r: CookieStore)
    ensures
        forall|key: (Seq<char>, Seq<char>, Seq<char>)| #[trigger]
            stored(r).contains_key(key) ==> comes_from(
                stored(r),
                key,
                setting_views(settings@),
            ),
        forall|k: int, cookie: PlainCookie| #[trigger]
            prevails(setting_views(settings@), k, cookie) ==> holds_plain(stored(r), cookie),
        forall|cookies: Seq<PlainCookie>| #[trigger]
            all_set_plainly(setting_views(settings@), cookies) ==> stored(r) == filed(cookies),
{
    let ghost all = setting_views(settings@);
    let mut store: CookieStore = new_store();
    let mut i: usize = 0;
    while i < settings.len()
        invariant
            i <= settings@.len(),
            all == setting_views(settings@),
            forall|key: (Seq<char>, Seq<char>, Seq<char>)| #[trigger]
                stored(store).contains_key(key) ==> comes_from(
                    stored(store),
                    key,
                    all.take(i as int),
                ),
            forall|k: int, cookie: PlainCookie| #[trigger]
                prevails(all.take(i as int), k, cookie) ==> holds_plain(stored(store), cookie),
            forall|cookies: Seq<PlainCookie>| #[trigger]
                all_set_plainly(all.take(i as int), cookies) ==> stored(store) == filed(cookies),
        decreases settings@.len() - i,
    {
        let ghost before = stored(store);
        let ghost done = all.take(i as int);
        let ghost next = all.take(i + 1);
        set_cookie(&mut store, settings[i].line.as_str(), settings[i].url.as_str());
        let ghost after = stored(store);
        proof {
            assert(next.drop_last() =~= done);
            assert(next.last() == settings@[i as int]@);
            assert forall|key: (Seq<char>, Seq<char>, Seq<char>)| #[trigger]
                after.contains_key(key) implies comes_from(after, key, next) by {
                let line = settings@[i as int].line@;
                if before.contains_key(key) && after[key] == before[key] {
                    assert(comes_from(before, key, done));
                    let k = choose|k: int|
                        0 <= k < done.len() && cookie_in((#[trigger] done[k]).line) == Some(
                            (key.2, before[key].0, before[key].1),
                        );
                    assert(next[k] == done[k]);
                } else {
                    assert(next[i as int].line == line);
                }
            }
            assert forall|k: int, cookie: PlainCookie| #[trigger]
                prevails(next, k, cookie) implies holds_plain(after, cookie) by {
                let setting = next[i as int];
                if k == i {
                    assert(sets_plainly(setting, cookie));
                    assert(is_https_host(setting.url, cookie.host));
                    assert(setting.line == cookie_line_of(cookie.name, cookie.value, cookie.path));
                } else {
                    assert(next[k] == done[k]);
                    assert forall|j: int| k < j < done.len() implies leaves_alone(
                        #[trigger] done[j],
                        cookie,
                    ) by {
                        assert(next[j] == done[j]);
                    }
                    assert(prevails(done, k, cookie));
                    assert(holds_plain(before, cookie));
                    assert(leaves_alone(setting, cookie));
                    if exists|other: PlainCookie| #[trigger]
                        sets_plainly(setting, other) && (other.host, other.path, other.name) != (
                            cookie.host,
                            cookie.path,
                            cookie.name,
                        ) {
                        let other = choose|other: PlainCookie| #[trigger]
                            sets_plainly(setting, other) && (other.host, other.path, other.name)
                                != (cookie.host, cookie.path, cookie.name);
                        assert(is_https_host(setting.url, other.host));
                        assert(setting.line == cookie_line_of(
                            other.name,
                            other.value,
                            other.path,
                        ));
                    }
                }
            }
            assert forall|cookies: Seq<PlainCookie>| #[trigger]
                all_set_plainly(next, cookies) implies after == filed(cookies) by {
                let front = cookies.drop_last();
                let c = cookies.last();
                assert forall|k: int| 0 <= k < done.len() implies sets_plainly(
                    done[k],
                    #[trigger] front[k],
                ) by {
                    assert(cookies[k] == front[k]);
                    assert(next[k] == done[k]);
                }
                assert(all_set_plainly(done, front));
                assert(sets_plainly(next[i as int], cookies[i as int]));
                assert(cookies[i as int] == c);
                assert(is_https_host(settings@[i as int].url@, c.host));
                assert(settings@[i as int].line@ == cookie_line_of(c.name, c.value, c.path));
            }
        }
        i = i + 1;
    }
    assert(all.take(all.len() as int) =~= all);
    store
}

/// A store with saved cookies, each set at its own domain and path.
pub fn saved_cookie_store(cookies: &Vec<SavedCookie>) -> (r: CookieStore)
    ensures
        forall|key: (Seq<char>, Seq<char>, Seq<char>)| #[trigger]
            stored(r).contains_key(key) ==> comes_from(
                stored(r),
                key,
                saved_settings_of(cookies@),
            ),
        forall|k: int, cookie: PlainCookie| #[trigger]
            prevails(saved_settings_of(cookies@), k, cookie) ==> holds_plain(stored(r), cookie),
        forall|plain: Seq<PlainCookie>| #[trigger]
            all_set_plainly(saved_settings_of(cookies@), plain) ==> stored(r) == filed(plain),
{
    fill_store(&saved_settings(cookies))
}

/// A store with the cookies of a browser session, each set for the university's
/// domains.
pub fn session_cookie_store(cookies: &CookieMap) -> (r: CookieStore)
    ensures
        forall|key: (Seq<char>, Seq<char>, Seq<char>)| #[trigger]
            stored(r).contains_key(key) ==> comes_from(
                stored(r),
                key,
                session_settings_of(cookies.listed()),
            ),
        forall|k: int, cookie: PlainCookie| #[trigger]
            prevails(session_settings_of(cookies.listed()), k, cookie) ==> holds_plain(
                stored(r),
                cookie,
            ),
        forall|plain: Seq<PlainCookie>| #[trigger]
            all_set_plainly(session_settings_of(cookies.listed()), plain) ==> stored(r) == filed(
                plain,
            ),
{
    fill_store(&session_settings(cookies))
}

// ── reading cookies ─────────────────────────────────────────────────────────
/// A cookie of a store. One without a domain belongs to the host that set it.
#[derive(Debug, Clone)]
pub struct StoredCookie {
    pub name: String,
    pub value: String,
    pub domain: Option<String>,
}

/// The contents of a `StoredCookie`.
pub struct CookieView {
    pub name: Seq<char>,
    pub value: Seq<char>,
    pub domain: Option<Seq<char>>,
}

impl View for StoredCookie {
    type V = CookieView;

    open spec fn view(&self) -> CookieView {
        CookieView {
            name: self.name@,
            value: self.value@,
            domain: text::opt_view(self.domain),
        }
    }
}

/// The contents of each cookie.
pub open spec fn cookie_views(cookies: Seq<StoredCookie>) -> Seq<CookieView> {
    Seq::new(cookies.len(), |i: int| cookies[i]@)
}

/// The cookie is in the store, filed under the domain and the path.
pub open spec fn is_filed(
    store: StoreView,
    cookie: CookieView,
    domain: Seq<char>,
    path: Seq<char>,
) -> bool {
    &&& store.contains_key((domain, path, cookie.name))
    &&& store[(domain, path, cookie.name)] == (cookie.value, cookie.domain)
}

/// `text` ends with `suffix`.
pub open spec fn ends_in(text: Seq<char>, suffix: Seq<char>) -> bool {
    text::occurs_at(text, suffix, text.len() - suffix.len())
}

/// A cookie of the domain `domain` counts for `host`: it has no domain, or one of
/// the two names ends with the other.
pub open spec fn serves_host(domain: Option<Seq<char>>, host: Seq<char>) -> bool {
    match domain {
        Some(d) => ends_in(host, d) || ends_in(d, host),
        None => true,
    }
}

/// The cookies that count for `host`, by name, the last one of a name prevailing.
pub open spec fn host_cookies(cookies: Seq<CookieView>, host: Seq<char>) -> Map<
    Seq<char>,
    Seq<char>,
>
    decreases cookies.len(),
{
    if cookies.len() == 0 {
        Map::empty()
    } else {
        let before = host_cookies(cookies.drop_last(), host);
        let cookie = cookies.last();
        if serves_host(cookie.domain, host) {
            before.insert(cookie.name, cookie.value)
        } else {
            before
        }
    }
}

fn ends_with(whole: &str, suffix: &str) -> (r: bool)
    ensures
        r == ends_in(whole@, suffix@),
{
    let a: Vec<char> = to_chars(whole);
    let b: Vec<char> = to_chars(suffix);
    if b.len() > a.len() {
        return false;
    }
    let at: usize = a.len() - b.len();
    proof {
        text::lemma_find_from(a@, b@, at as int);
        assert(forall|j: int| j > at ==> !text::occurs_at(a@, b@, j));
    }
    find_chars(&a, &b, at).is_some()
}

/// The listed cookies that count for `host`, by name, the last one of a name
/// prevailing.
pub fn cookies_for_host(cookies: &Vec<StoredCookie>, host: &str) -> (r: CookieMap)
    ensures
        r@ == host_cookies(cookie_views(cookies@), host@),
{
    let ghost all = cookie_views(cookies@);
    let mut map: CookieMap = CookieMap::new();
    let mut i: usize = 0;
    while i < cookies.len()
        invariant
            i <= cookies@.len(),
            all == cookie_views(cookies@),
            map@ == host_cookies(all.take(i as int), host@),
        decreases cookies@.len() - i,
    {
        assert(all.take(i + 1).drop_last() =~= all.take(i as int));
        assert(all.take(i + 1).last() == cookies@[i as int]@);
        let counts: bool = match &cookies[i].domain {
            Some(d) => ends_with(host, d.as_str()) || ends_with(d.as_str(), host),
            None => true,
        };
        if counts {
            map.insert(cookies[i].name.clone(), cookies[i].value.clone());
        }
        i = i + 1;
    }
    assert(all.take(all.len() as int) =~= all);
    map
}

proof fn lemma_host_cookies(cookies: Seq<CookieView>, host: Seq<char>)
    ensures
        forall|name: Seq<char>| #[trigger]
            host_cookies(cookies, host).contains_key(name) ==> exists|i: int|
                0 <= i < cookies.len() && (#[trigger] cookies[i]).name == name && serves_host(
                    cookies[i].domain,
                    host,
                ) && cookies[i].value == host_cookies(cookies, host)[name],
        forall|i: int|
            0 <= i < cookies.len() && serves_host((#[trigger] cookies[i]).domain, host)
                ==> host_cookies(cookies, host).contains_key(cookies[i].name),
    decreases cookies.len(),
{
    if cookies.len() > 0 {
        let front = cookies.drop_last();
        let last = cookies.last();
        let all = host_cookies(cookies, host);
        let before = host_cookies(front, host);
        lemma_host_cookies(front, host);
        assert(cookies[cookies.len() - 1] == last);
        assert forall|name: Seq<char>| #[trigger] all.contains_key(name) implies exists|i: int|
            0 <= i < cookies.len() && (#[trigger] cookies[i]).name == name && serves_host(
                cookies[i].domain,
                host,
            ) && cookies[i].value == all[name] by {
            if serves_host(last.domain, host) && name == last.name {
                assert(cookies[cookies.len() - 1].name == name);
            } else {
                assert(before.contains_key(name));
                let k = choose|k: int|
                    0 <= k < front.len() && (#[trigger] front[k]).name == name && serves_host(
                        front[k].domain,
                        host,
                    ) && front[k].value == before[name];
                assert(cookies[k] == front[k]);
            }
        }
        assert forall|i: int|
            0 <= i < cookies.len() && serves_host(
                (#[trigger] cookies[i]).domain,
                host,
            ) implies all.contains_key(cookies[i].name) by {
            if i < front.len() {
                assert(front[i] == cookies[i]);
            }
        }
    }
}

/// Some cookie of the store counts for `host` and has this name and this value.
pub open spec fn is_offered(
    store: StoreView,
    host: Seq<char>,
    name: Seq<char>,
    value: Seq<char>,
) -> bool {
    exists|domain: Seq<char>, path: Seq<char>, given: Option<Seq<char>>|
        #![trigger is_filed(store, CookieView { name, value, domain: given }, domain, path)]
        is_filed(store, CookieView { name, value, domain: given }, domain, path) && serves_host(
            given,
            host,
        )
}

/// The cookies of the store that count for `host`: for each name that one of them
/// has, the value of one of them. Which one, where several have the name, is left
/// open, as the store lists its cookies in no order.
pub fn extract_domain_cookies(store: &CookieStore, host: &str) -> (r: CookieMap)
    ensures
        forall|name: Seq<char>| #[trigger]
            r@.contains_key(name) ==> is_offered(stored(*store), host@, name, r@[name]),
        forall|name: Seq<char>, value: Seq<char>| #[trigger]
            is_offered(stored(*store), host@, name, value) ==> r@.contains_key(name),
{
    let cookies: Vec<StoredCookie> = list_cookies(store);
    let r: CookieMap = cookies_for_host(&cookies, host);
    proof {
        let all = cookie_views(cookies@);
        let contents = stored(*store);
        lemma_host_cookies(all, host@);
        assert forall|name: Seq<char>| #[trigger] r@.contains_key(name) implies is_offered(
            contents,
            host@,
            name,
            r@[name],
        ) by {
            let i = choose|i: int|
                0 <= i < all.len() && (#[trigger] all[i]).name == name && serves_host(
                    all[i].domain,
                    host@,
                ) && all[i].value == r@[name];
            assert(cookies@[i]@ == all[i]);
            let (domain, path) = choose|domain: Seq<char>, path: Seq<char>|
                is_filed(contents, cookies@[i]@, domain, path);
            let given = all[i].domain;
            assert(all[i] == CookieView { name, value: r@[name], domain: given });
            assert(is_filed(
                contents,
                CookieView { name, value: r@[name], domain: given },
                domain,
                path,
            ));
        }
        assert forall|name: Seq<char>, value: Seq<char>| #[trigger]
            is_offered(contents, host@, name, value) implies r@.contains_key(name) by {
            let (domain, path, given) = choose|
                domain: Seq<char>,
                path: Seq<char>,
                given: Option<Seq<char>>,
            |
                #![trigger is_filed(contents, CookieView { name, value, domain: given }, domain, path)]
                is_filed(contents, CookieView { name, value, domain: given }, domain, path)
                    && serves_host(given, host@);
            let cookie = CookieView { name, value, domain: given };
            let i = choose|i: int| 0 <= i < cookies@.len() && (#[trigger] cookies@[i])@ == cookie;
            assert(all[i] == cookie);
        }
    }
    r
}

// ── laws ────────────────────────────────────────────────────────────────────
/// A plain cookie that a store holds counts for every host.
pub proof fn law_plain_cookies_are_offered(store: StoreView, cookie: PlainCookie, host: Seq<char>)
    requires
        holds_plain(store, cookie),
    ensures
        is_offered(store, host, cookie.name, cookie.value),
{
    assert(is_filed(
        store,
        CookieView { name: cookie.name, value: cookie.value, domain: None },
        cookie.host,
        cookie.path,
    ));
}

/// A cookie that was put into a store is read back: the last one of its host, path
/// and name is filed with its value, and counts for every host.
pub proof fn law_filed_cookies_read_back(cookies: Seq<PlainCookie>, i: int, host: Seq<char>)
    requires
        0 <= i < cookies.len(),
        forall|j: int|
            i < j < cookies.len() ==> {
                let c = #[trigger] cookies[j];
                (c.host, c.path, c.name) != (cookies[i].host, cookies[i].path, cookies[i].name)
            },
    ensures
        is_filed(
            filed(cookies),
            (CookieView { name: cookies[i].name, value: cookies[i].value, domain: None }),
            cookies[i].host,
            cookies[i].path,
        ),
        is_offered(filed(cookies), host, cookies[i].name, cookies[i].value),
    decreases cookies.len(),
{
    let cookie = CookieView { name: cookies[i].name, value: cookies[i].value, domain: None };
    let last = cookies.len() - 1;
    if i < last {
        let front = cookies.drop_last();
        assert(cookies.last() == cookies[last]);
        assert forall|j: int| i < j < front.len() implies {
            let c = #[trigger] front[j];
            (c.host, c.path, c.name) != (front[i].host, front[i].path, front[i].name)
        } by {
            assert(front[j] == cookies[j]);
        }
        law_filed_cookies_read_back(front, i, host);
    }
    assert(is_filed(filed(cookies), cookie, cookies[i].host, cookies[i].path));
}

/// A setting is made of each saved cookie whose domain makes up a URL: that URL and
/// the cookie's line.
pub proof fn law_saved_cookies_have_settings(cookies: Seq<SavedCookie>, i: int)
    requires
        0 <= i < cookies.len(),
        page_url::url_parsed(domain_root(cookies[i].domain@)) is Some,
    ensures
        saved_settings_of(cookies).contains(
            (SettingView {
                url: page_url::url_parsed(domain_root(cookies[i].domain@))->0,
                line: cookie_line_of(cookies[i].name@, cookies[i].value@, cookies[i].path@),
            }),
        ),
    decreases cookies.len(),
{
    let all = saved_settings_of(cookies);
    let before = saved_settings_of(cookies.drop_last());
    let wanted = SettingView {
        url: page_url::url_parsed(domain_root(cookies[i].domain@))->0,
        line: cookie_line_of(cookies[i].name@, cookies[i].value@, cookies[i].path@),
    };
    if i < cookies.len() - 1 {
        law_saved_cookies_have_settings(cookies.drop_last(), i);
        let k = choose|k: int| 0 <= k < before.len() && before[k] == wanted;
        assert(all[k] == wanted);
    } else {
        assert(all[all.len() - 1] == wanted);
    }
}

/// The contents of settings and of listed cookies are their fields, in order.
pub proof fn law_setting_contents(settings: Seq<CookieSetting>, cookies: Seq<StoredCookie>)
    ensures
        setting_views(settings).len() == settings.len(),
        forall|i: int|
            0 <= i < settings.len() ==> (#[trigger] setting_views(settings)[i]).url
                == settings[i].url@ && setting_views(settings)[i].line == settings[i].line@,
        cookie_views(cookies).len() == cookies.len(),
        forall|i: int|
            0 <= i < cookies.len() ==> {
                &&& (#[trigger] cookie_views(cookies)[i]).name == cookies[i].name@
                &&& cookie_views(cookies)[i].value == cookies[i].value@
                &&& cookie_views(cookies)[i].domain == text::opt_view(cookies[i].domain)
            },
{
}

/// A cookie's line is its name, its value and its path, and it is set at the root of
/// its domain over HTTPS; where the domain makes up no URL it is not set.
pub proof fn law_cookie_lines(
    domain: Seq<char>,
    name: Seq<char>,
    value: Seq<char>,
    path: Seq<char>,
    url: Seq<char>,
)
    ensures
        domain_root(domain) == "https://"@ + domain + "/"@,
        cookie_line_of(name, value, path) == name + "="@ + value + "; Path="@ + path,
        setting_at(Some(url), name, value, path) == Some(
            (SettingView { url, line: name + "="@ + value + "; Path="@ + path }),
        ),
        setting_at(None, name, value, path) is None,
{
}

/// Saved cookies are set one by one: of two lists in a row the settings are those of
/// the one and then those of the other.
pub proof fn law_saved_cookies_go_one_by_one(a: Seq<SavedCookie>, b: Seq<SavedCookie>)
    ensures
        saved_settings_of(a + b) == saved_settings_of(a) + saved_settings_of(b),
    decreases b.len(),
{
    if b.len() == 0 {
        assert(a + b =~= a);
        assert(saved_settings_of(a) + saved_settings_of(b) =~= saved_settings_of(a));
    } else {
        assert((a + b).drop_last() =~= a + b.drop_last());
        law_saved_cookies_go_one_by_one(a, b.drop_last());
        assert(saved_settings_of(a + b) =~= saved_settings_of(a) + saved_settings_of(b));
    }
}

/// One saved cookie has one setting, at its own domain and with its own name, value
/// and path, or none where the domain makes up no URL.
pub proof fn law_one_saved_cookie(cookie: SavedCookie)
    ensures
        ({
            let url = page_url::url_parsed("https://"@ + cookie.domain@ + "/"@);
            &&& url is None ==> saved_settings_of(seq![cookie]).len() == 0
            &&& url is Some ==> saved_settings_of(seq![cookie]) == seq![
                SettingView {
                    url: url->0,
                    line: cookie.name@ + "="@ + cookie.value@ + "; Path="@ + cookie.path@,
                },
            ]
        }),
{
    let one = seq![cookie];
    assert(one.drop_last() =~= Seq::<SavedCookie>::empty());
    assert(saved_settings_of(one.drop_last()) =~= Seq::<SettingView>::empty());
    if let Some(u) = page_url::url_parsed(domain_root(cookie.domain@)) {
        assert(saved_settings_of(one) =~= seq![
            SettingView {
                url: u,
                line: cookie.name@ + "="@ + cookie.value@ + "; Path="@ + cookie.path@,
            },
        ]);
    }
}

/// A session's cookies are set one by one.
pub proof fn law_session_cookies_go_one_by_one(
    a: Seq<(Seq<char>, Seq<char>)>,
    b: Seq<(Seq<char>, Seq<char>)>,
)
    ensures
        session_settings_of(a + b) == session_settings_of(a) + session_settings_of(b),
    decreases b.len(),
{
    if b.len() == 0 {
        assert(a + b =~= a);
        assert(session_settings_of(a) + session_settings_of(b) =~= session_settings_of(a));
    } else {
        assert((a + b).drop_last() =~= a + b.drop_last());
        law_session_cookies_go_one_by_one(a, b.drop_last());
        assert(session_settings_of(a + b) =~= session_settings_of(a) + session_settings_of(b));
    }
}

/// One cookie of a session is set for hitsz.edu.cn, for hit.edu.cn and for edu.cn,
/// in this order and for all paths.
pub proof fn law_one_session_cookie(name: Seq<char>, value: Seq<char>)
    requires
        page_url::url_parsed("https://"@ + "hitsz.edu.cn"@ + "/"@) is Some,
        page_url::url_parsed("https://"@ + "hit.edu.cn"@ + "/"@) is Some,
        page_url::url_parsed("https://"@ + "edu.cn"@ + "/"@) is Some,
    ensures
        ({
            let line = name + "="@ + value + "; Path="@ + "/"@;
            session_settings_of(seq![(name, value)]) == seq![
                SettingView {
                    url: page_url::url_parsed("https://"@ + "hitsz.edu.cn"@ + "/"@)->0,
                    line,
                },
                SettingView {
                    url: page_url::url_parsed("https://"@ + "hit.edu.cn"@ + "/"@)->0,
                    line,
                },
                SettingView { url: page_url::url_parsed("https://"@ + "edu.cn"@ + "/"@)->0, line },
            ]
        }),
{
    let one = seq![(name, value)];
    assert(one.drop_last() =~= Seq::<(Seq<char>, Seq<char>)>::empty());
    assert(session_settings_of(one.drop_last()) =~= Seq::<SettingView>::empty());
    let line = name + "="@ + value + "; Path="@ + "/"@;
    assert(session_settings_of(one) =~= seq![
        SettingView { url: page_url::url_parsed(domain_root("hitsz.edu.cn"@))->0, line },
        SettingView { url: page_url::url_parsed(domain_root("hit.edu.cn"@))->0, line },
        SettingView { url: page_url::url_parsed(domain_root("edu.cn"@))->0, line },
    ]);
}

/// What the contract of a filled store speaks of, spelled out: a setting is that of
/// a plain cookie where its line is made of that cookie's parts and its URL belongs
/// to that cookie's host.
pub proof fn law_plain_settings(setting: SettingView, cookie: PlainCookie)
    ensures
        sets_plainly(setting, cookie) <==> {
            &&& setting.line == cookie.name + "="@ + cookie.value + "; Path="@ + cookie.path
            &&& is_plain_cookie(cookie.name, cookie.value, cookie.path)
            &&& is_https_host(setting.url, cookie.host)
        },
{
}

/// A plain cookie whose setting no later one of the same host, path and name
/// follows prevails, where all settings are those of plain cookies, and what is
/// filed holds it.
pub proof fn law_last_plain_cookie_prevails(
    settings: Seq<SettingView>,
    cookies: Seq<PlainCookie>,
    k: int,
)
    requires
        settings.len() == cookies.len(),
        forall|i: int|
            0 <= i < settings.len() ==> sets_plainly(settings[i], #[trigger] cookies[i]),
        0 <= k < cookies.len(),
        forall|j: int|
            k < j < cookies.len() ==> {
                let c = #[trigger] cookies[j];
                c.host != cookies[k].host || c.path != cookies[k].path || c.name != cookies[k].name
            },
    ensures
        all_set_plainly(settings, cookies),
        prevails(settings, k, cookies[k]),
        filed(cookies).contains_key((cookies[k].host, cookies[k].path, cookies[k].name)),
        filed(cookies)[(cookies[k].host, cookies[k].path, cookies[k].name)] == (
            cookies[k].value,
            None::<Seq<char>>,
        ),
{
    assert forall|j: int| k < j < settings.len() implies leaves_alone(
        #[trigger] settings[j],
        cookies[k],
    ) by {
        assert(sets_plainly(settings[j], cookies[j]));
    }
    assert forall|j: int| k < j < cookies.len() implies {
        let c = #[trigger] cookies[j];
        (c.host, c.path, c.name) != (cookies[k].host, cookies[k].path, cookies[k].name)
    } by {}
    law_filed_cookies_read_back(cookies, k, cookies[k].host);
}

/// A setting whose line gives no cookie of its name leaves a plain cookie as it is
/// filed, and so does one that prevails nowhere else: a plain cookie stays filed
/// behind any number of such settings.
pub proof fn law_other_settings_leave_it(
    settings: Seq<SettingView>,
    k: int,
    cookie: PlainCookie,
)
    requires
        0 <= k < settings.len(),
        sets_plainly(settings[k], cookie),
        forall|j: int|
            k < j < settings.len() ==> (cookie_in((#[trigger] settings[j]).line) matches Some(c)
                ==> c.0 != cookie.name),
    ensures
        prevails(settings, k, cookie),
{
    assert forall|j: int| k < j < settings.len() implies leaves_alone(
        #[trigger] settings[j],
        cookie,
    ) by {}
}

/// A plain cookie is held where it is filed under its host, its path and its name
/// with its value and no domain; what a store holds comes from the line of some
/// setting.
pub proof fn law_store_contents(
    store: StoreView,
    cookie: PlainCookie,
    key: (Seq<char>, Seq<char>, Seq<char>),
    settings: Seq<SettingView>,
)
    ensures
        holds_plain(store, cookie) <==> store.contains_key((cookie.host, cookie.path, cookie.name))
            && store[(cookie.host, cookie.path, cookie.name)] == (cookie.value, None::<Seq<char>>),
        comes_from(store, key, settings) ==> exists|i: int|
            0 <= i < settings.len() && cookie_in((#[trigger] settings[i]).line) == Some(
                (key.2, store[key].0, store[key].1),
            ),
{
}

/// Plain cookies are filed under their own host, path and name, and nothing else is
/// filed.
pub proof fn law_only_these_are_filed(
    cookies: Seq<PlainCookie>,
    key: (Seq<char>, Seq<char>, Seq<char>),
)
    ensures
        filed(cookies).contains_key(key) <==> exists|i: int|
            0 <= i < cookies.len() && (#[trigger] cookies[i]).host == key.0 && cookies[i].path
                == key.1 && cookies[i].name == key.2,
    decreases cookies.len(),
{
    if cookies.len() > 0 {
        let front = cookies.drop_last();
        let end = cookies.len() - 1;
        law_only_these_are_filed(front, key);
        assert(cookies.last() == cookies[end]);
        if filed(front).contains_key(key) {
            let i = choose|i: int|
                0 <= i < front.len() && (#[trigger] front[i]).host == key.0 && front[i].path
                    == key.1 && front[i].name == key.2;
            assert(cookies[i] == front[i]);
        }
        if exists|i: int|
            0 <= i < cookies.len() && (#[trigger] cookies[i]).host == key.0 && cookies[i].path
                == key.1 && cookies[i].name == key.2 {
            let i = choose|i: int|
                0 <= i < cookies.len() && (#[trigger] cookies[i]).host == key.0 && cookies[i].path
                    == key.1 && cookies[i].name == key.2;
            if i < end {
                assert(front[i] == cookies[i]);
            }
        }
    }
}

/// A cookie counts for a host exactly where it has no domain, or one of the two
/// names is the other with something, or nothing, in front of it.
pub proof fn law_cookie_serves_host(domain: Seq<char>, host: Seq<char>)
    ensures
        serves_host(None, host),
        serves_host(Some(domain), host) <==> (exists|front: Seq<char>|
            host == #[trigger] (front + domain)) || (exists|front: Seq<char>|
            domain == #[trigger] (front + host)),
{
    if ends_in(host, domain) {
        assert(host =~= host.take(host.len() - domain.len()) + domain);
    }
    if ends_in(domain, host) {
        assert(domain =~= domain.take(domain.len() - host.len()) + host);
    }
    if exists|front: Seq<char>| host == #[trigger] (front + domain) {
        let front = choose|front: Seq<char>| host == #[trigger] (front + domain);
        assert(host.subrange(host.len() - domain.len(), host.len() as int) =~= domain);
    }
    if exists|front: Seq<char>| domain == #[trigger] (front + host) {
        let front = choose|front: Seq<char>| domain == #[trigger] (front + host);
        assert(domain.subrange(domain.len() - host.len(), domain.len() as int) =~= host);
    }
}

/// The cookies for a host have the names of those that count for it, and no others.
pub proof fn law_host_cookies_are_exact(cookies: Seq<CookieView>, host: Seq<char>, name: Seq<char>)
    ensures
        host_cookies(cookies, host).contains_key(name) <==> exists|i: int|
            0 <= i < cookies.len() && (#[trigger] cookies[i]).name == name && serves_host(
                cookies[i].domain,
                host,
            ),
{
    lemma_host_cookies(cookies, host);
}

/// Of the cookies of one name that count for a host the last one prevails.
pub proof fn law_last_host_cookie_prevails(cookies: Seq<CookieView>, host: Seq<char>, i: int)
    requires
        0 <= i < cookies.len(),
        serves_host(cookies[i].domain, host),
        forall|j: int|
            i < j < cookies.len() && (#[trigger] cookies[j]).name == cookies[i].name
                ==> !serves_host(cookies[j].domain, host),
    ensures
        host_cookies(cookies, host).contains_key(cookies[i].name),
        host_cookies(cookies, host)[cookies[i].name] == cookies[i].value,
    decreases cookies.len(),
{
    let end = cookies.len() - 1;
    assert(cookies.last() == cookies[end]);
    if i < end {
        let front = cookies.drop_last();
        assert forall|j: int|
            i < j < front.len() && (#[trigger] front[j]).name == front[i].name implies !serves_host(
            front[j].domain,
            host,
        ) by {
            assert(front[j] == cookies[j]);
        }
        law_last_host_cookie_prevails(front, host, i);
        if cookies[end].name == cookies[i].name {
            assert(!serves_host(cookies[end].domain, host));
        }
    }
}

/// A cookie is offered to a host exactly where it is filed, under whatever domain
/// and path, with a domain of its own that serves the host or with none.
pub proof fn law_offered_cookies_are_filed(
    store: StoreView,
    host: Seq<char>,
    name: Seq<char>,
    value: Seq<char>,
)
    ensures
        is_offered(store, host, name, value) <==> exists|domain: Seq<char>, path: Seq<char>|
            #![trigger store[(domain, path, name)]]
            store.contains_key((domain, path, name)) && store[(domain, path, name)].0 == value
                && serves_host(store[(domain, path, name)].1, host),
{
    if is_offered(store, host, name, value) {
        let (domain, path, given) = choose|
            domain: Seq<char>,
            path: Seq<char>,
            given: Option<Seq<char>>,
        |
            #![trigger is_filed(store, CookieView { name, value, domain: given }, domain, path)]
            is_filed(store, CookieView { name, value, domain: given }, domain, path) && serves_host(
                given,
                host,
            );
        assert(store[(domain, path, name)].0 == value);
    }
    if exists|domain: Seq<char>, path: Seq<char>|
        #![trigger store[(domain, path, name)]]
        store.contains_key((domain, path, name)) && store[(domain, path, name)].0 == value
            && serves_host(store[(domain, path, name)].1, host) {
        let (domain, path) = choose|domain: Seq<char>, path: Seq<char>|
            #![trigger store[(domain, path, name)]]
            store.contains_key((domain, path, name)) && store[(domain, path, name)].0 == value
                && serves_host(store[(domain, path, name)].1, host);
        let given = store[(domain, path, name)].1;
        assert(is_filed(store, CookieView { name, value, domain: given }, domain, path));
    }
}

/// What it is to prevail: the setting is that of the plain cookie, and each later
/// one either sets a plain cookie of another host, path or name, or has a line that
/// gives no cookie of that name.
pub proof fn law_prevailing_cookies(settings: Seq<SettingView>, k: int, cookie: PlainCookie)
    ensures
        prevails(settings, k, cookie) <==> 0 <= k < settings.len() && sets_plainly(
            settings[k],
            cookie,
        ) && forall|j: int|
            k < j < settings.len() ==> (exists|other: PlainCookie|
                sets_plainly(#[trigger] settings[j], other) && (other.host != cookie.host
                    || other.path != cookie.path || other.name != cookie.name)) || cookie_in(
                settings[j].line,
            ) is None || (cookie_in(settings[j].line)->0).0 != cookie.name,
{
    assert forall|j: int| k < j < settings.len() implies (leaves_alone(
        #[trigger] settings[j],
        cookie,
    ) <==> (exists|other: PlainCookie|
        sets_plainly(settings[j], other) && (other.host != cookie.host || other.path != cookie.path
            || other.name != cookie.name)) || cookie_in(settings[j].line) is None || (cookie_in(
        settings[j].line,
    )->0).0 != cookie.name) by {
        if exists|other: PlainCookie|
            sets_plainly(settings[j], other) && (other.host != cookie.host || other.path
                != cookie.path || other.name != cookie.name) {
            let other = choose|other: PlainCookie|
                sets_plainly(settings[j], other) && (other.host != cookie.host || other.path
                    != cookie.path || other.name != cookie.name);
            assert((other.host, other.path, other.name) != (
                cookie.host,
                cookie.path,
                cookie.name,
            ));
        }
    }
}

} // verus!
