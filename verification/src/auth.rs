//! The login over plain HTTP: reads the login form, fills in its parameters, and
//! judges where the login ended and what the portal answered.

use crate::cipher;
use crate::cipher::encrypt_password;
use crate::dom;
use crate::dom::{select_all, Element, ElementView};
use crate::error::AuthError;
use crate::page_url;
use crate::page_url::{host_of, PageUrl};
use crate::text;
use crate::text::{contains, same_text, url_encode};
use vstd::prelude::*;
use vstd::string::*;
use vstd::utf8;

verus! {

pub const IDS_HOST: &'static str = "https://ids.hit.edu.cn";

pub const IDS_LOGIN_PATH: &'static str = "/authserver/login";

pub const JW_PROFILE_URL: &'static str = "http://jw.hitsz.edu.cn/UserManager/queryxsxx";

pub const INFO_DEFAULT_URL: &'static str = "https://info.hitsz.edu.cn/";

pub const JW_HOST: &'static str = "jw.hitsz.edu.cn";

pub const INFO_HOST: &'static str = "info.hitsz.edu.cn";

pub const CAS_SERVICE: &'static str = "http://jw.hitsz.edu.cn/casLogin";

// ── login form ──────────────────────────────────────────────────────────────
/// The login form: where it is sent to, the fields that go back as they came, and
/// the salt that the password is sealed with.
#[derive(Debug, Clone)]
pub struct ParsedForm {
    pub action: String,
    pub fields: Vec<(String, String)>,
    pub pwd_encrypt_salt: String,
}

/// The names and values of fields.
pub open spec fn field_views(fields: Seq<(String, String)>) -> Seq<(Seq<char>, Seq<char>)> {
    Seq::new(fields.len(), |i: int| (fields[i].0@, fields[i].1@))
}

/// The text, or the empty text where there is none.
pub open spec fn or_empty(t: Option<Seq<char>>) -> Seq<char> {
    match t {
        Some(s) => s,
        None => Seq::empty(),
    }
}

/// The input that holds the salt.
pub open spec fn is_salt_input(input: ElementView) -> bool {
    input.id == Some("pwdEncryptSalt"@) && or_empty(input.value).len() > 0
}

/// The fields that the login fills in itself.
pub open spec fn is_own_field(name: Seq<char>) -> bool {
    name == "passwordText"@ || name == "password"@ || name == "username"@ || name == "rememberMe"@
}

/// An input whose value goes back as it came.
pub open spec fn is_kept_input(input: ElementView) -> bool {
    &&& !is_salt_input(input)
    &&& or_empty(input.name).len() > 0
    &&& !is_own_field(or_empty(input.name))
}

/// The fields without those of the name `name`.
pub open spec fn without_name(fields: Seq<(Seq<char>, Seq<char>)>, name: Seq<char>) -> Seq<
    (Seq<char>, Seq<char>),
>
    decreases fields.len(),
{
    if fields.len() == 0 {
        Seq::empty()
    } else {
        let before = without_name(fields.drop_last(), name);
        if fields.last().0 == name {
            before
        } else {
            before.push(fields.last())
        }
    }
}

/// The kept inputs as fields. Of a name that occurs more than once the last input
/// counts, in its place.
pub open spec fn form_fields(inputs: Seq<ElementView>) -> Seq<(Seq<char>, Seq<char>)>
    decreases inputs.len(),
{
    if inputs.len() == 0 {
        Seq::empty()
    } else {
        let before = form_fields(inputs.drop_last());
        let input = inputs.last();
        if is_kept_input(input) {
            without_name(before, or_empty(input.name)).push(
                (or_empty(input.name), or_empty(input.value)),
            )
        } else {
            before
        }
    }
}

/// The value of the last salt input.
pub open spec fn form_salt(inputs: Seq<ElementView>) -> Seq<char>
    decreases inputs.len(),
{
    if inputs.len() == 0 {
        Seq::empty()
    } else if is_salt_input(inputs.last()) {
        or_empty(inputs.last().value)
    } else {
        form_salt(inputs.drop_last())
    }
}

/// Where the first form of the page is sent to.
pub open spec fn form_action(forms: Seq<ElementView>) -> Seq<char> {
    if forms.len() > 0 {
        or_empty(forms[0].action)
    } else {
        Seq::empty()
    }
}

fn own_or_empty(t: &Option<String>) -> (r: String)
    ensures
        r@ == or_empty(text::opt_view(*t)),
{
    match t {
        Some(s) => s.clone(),
        None => String::new(),
    }
}

fn retain_other_names(fields: Vec<(String, String)>, name: &str) -> (r: Vec<(String, String)>)
    ensures
        field_views(r@) == without_name(field_views(fields@), name@),
{
    let ghost all = field_views(fields@);
    let mut out: Vec<(String, String)> = Vec::new();
    let mut i: usize = 0;
    assert(field_views(out@) =~= without_name(all.take(0), name@));
    while i < fields.len()
        invariant
            i <= fields@.len(),
            all == field_views(fields@),
            field_views(out@) == without_name(all.take(i as int), name@),
        decreases fields@.len() - i,
    {
        let ghost before = out@;
        assert(all.take(i + 1).drop_last() =~= all.take(i as int));
        if !same_text(fields[i].0.as_str(), name) {
            out.push((fields[i].0.clone(), fields[i].1.clone()));
            assert(field_views(out@) =~= field_views(before).push(all[i as int]));
        }
        i = i + 1;
    }
    assert(all.take(all.len() as int) =~= all);
    out
}

/// The form that the inputs and the forms of a page make up.
pub fn form_from(inputs: &Vec<Element>, forms: &Vec<Element>) -> (r: ParsedForm)
    ensures
        r.action@ == form_action(dom::element_views(forms@)),
        field_views(r.fields@) == form_fields(dom::element_views(inputs@)),
        r.pwd_encrypt_salt@ == form_salt(dom::element_views(inputs@)),
{
    let ghost all = dom::element_views(inputs@);
    let mut fields: Vec<(String, String)> = Vec::new();
    let mut salt: String = String::new();
    let mut i: usize = 0;
    assert(field_views(fields@) =~= form_fields(all.take(0)));
    while i < inputs.len()
        invariant
            i <= inputs@.len(),
            all == dom::element_views(inputs@),
            field_views(fields@) == form_fields(all.take(i as int)),
            salt@ == form_salt(all.take(i as int)),
        decreases inputs@.len() - i,
    {
        let input: &Element = &inputs[i];
        assert(all.take(i + 1).drop_last() =~= all.take(i as int));
        assert(all.take(i + 1).last() == input@);
        let value: String = own_or_empty(&input.value);
        let has_salt_id: bool = match &input.id {
            Some(id) => same_text(id.as_str(), "pwdEncryptSalt"),
            None => false,
        };
        if has_salt_id && !value.as_str().is_empty() {
            salt = value;
        } else {
            let name: String = own_or_empty(&input.name);
            let own: bool = same_text(name.as_str(), "passwordText") || same_text(
                name.as_str(),
                "password",
            ) || same_text(name.as_str(), "username") || same_text(name.as_str(), "rememberMe");
            if !name.as_str().is_empty() && !own {
                fields = retain_other_names(fields, name.as_str());
                let ghost before = fields@;
                let field = (name, value);
                fields.push(field);
                assert(field_views(fields@) =~= field_views(before).push((field.0@, field.1@)));
            }
        }
        i = i + 1;
    }
    assert(all.take(all.len() as int) =~= all);
    let action: String = if forms.len() > 0 {
        own_or_empty(&forms[0].action)
    } else {
        String::new()
    };
    ParsedForm { action, fields, pwd_encrypt_salt: salt }
}

/// Reads the login form of the page `html`.
pub fn parse_form(html: &str) -> (r: Result<ParsedForm, AuthError>)
    ensures
        match r {
            Ok(form) => {
                &&& form.action@ == form_action(dom::selected(html@, "form"@))
                &&& field_views(form.fields@) == form_fields(dom::selected(html@, "input"@))
                &&& form.pwd_encrypt_salt@ == form_salt(dom::selected(html@, "input"@))
            },
            Err(_) => false,
        },
{
    Ok(form_from(&select_all(html, "input"), &select_all(html, "form")))
}

// ── login request ───────────────────────────────────────────────────────────
/// The page with the login form.
pub open spec fn login_page() -> Seq<char> {
    IDS_HOST@ + IDS_LOGIN_PATH@ + "?type=userNameLogin&service="@ + text::query_encoded(
        CAS_SERVICE@,
    )
}

/// The URL of the page with the login form.
pub fn login_page_url() -> (r: String)
    ensures
        r@ == login_page(),
{
    let mut url: String = IDS_HOST.to_owned();
    url.append(IDS_LOGIN_PATH);
    url.append("?type=userNameLogin&service=");
    url.append(url_encode(CAS_SERVICE).as_str());
    url
}

/// Where the form is sent to: an absolute path belongs to the identity service, an
/// empty action means the page itself, anything else is taken as it is.
pub open spec fn action_target(action: Seq<char>, page: Seq<char>) -> Seq<char> {
    if action.len() == 0 {
        page
    } else if action[0] == '/' {
        IDS_HOST@ + action
    } else {
        action
    }
}

/// Where the form is sent to.
pub fn login_target(action: &str, page_url: &str) -> (r: String)
    ensures
        r@ == action_target(action@, page_url@),
{
    if action.is_empty() {
        page_url.to_owned()
    } else if action.get_char(0) == '/' {
        let mut url: String = IDS_HOST.to_owned();
        url.append(action);
        url
    } else {
        action.to_owned()
    }
}

/// The parameters that are sent: the form's fields, the username, the sealed
/// password if there is one, and the wish to be remembered.
pub open spec fn params_of(
    fields: Seq<(Seq<char>, Seq<char>)>,
    username: Seq<char>,
    password: Option<Seq<char>>,
) -> Seq<(Seq<char>, Seq<char>)> {
    let named = fields.push(("username"@, username));
    let sealed = match password {
        Some(p) => named.push(("password"@, p)),
        None => named,
    };
    sealed.push(("rememberMe"@, "true"@))
}

/// The parameters that are sent with an already sealed password.
pub fn params_with(
    fields: &Vec<(String, String)>,
    username: &str,
    password: Option<String>,
) -> (r: Vec<(String, String)>)
    ensures
        field_views(r@) == params_of(field_views(fields@), username@, text::opt_view(password)),
{
    let mut out: Vec<(String, String)> = Vec::new();
    let mut i: usize = 0;
    while i < fields.len()
        invariant
            i <= fields@.len(),
            out@.len() == i,
            forall|j: int|
                0 <= j < i ==> (#[trigger] out@[j]).0@ == fields@[j].0@ && out@[j].1@
                    == fields@[j].1@,
        decreases fields@.len() - i,
    {
        out.push((fields[i].0.clone(), fields[i].1.clone()));
        i = i + 1;
    }
    assert(field_views(out@) =~= field_views(fields@));
    let ghost a = out@;
    out.push(("username".to_owned(), username.to_owned()));
    assert(field_views(out@) =~= field_views(a).push(("username"@, username@)));
    let ghost b = out@;
    if let Some(p) = password {
        out.push(("password".to_owned(), p));
        assert(field_views(out@) =~= field_views(b).push(("password"@, p@)));
    }
    let ghost c = out@;
    out.push(("rememberMe".to_owned(), "true".to_owned()));
    assert(field_views(out@) =~= field_views(c).push(("rememberMe"@, "true"@)));
    out
}

/// The parameters that are sent for `form`. The password goes along only where the
/// form has a salt, and then sealed.
pub fn login_params(form: &ParsedForm, username: &str, password: &str) -> (r: Result<
    Vec<(String, String)>,
    AuthError,
>)
    requires
        form.pwd_encrypt_salt@.len() > 0 ==> utf8::encode_utf8(form.pwd_encrypt_salt@).len() >= 16,
    ensures
        match r {
            Ok(params) => if form.pwd_encrypt_salt@.len() == 0 {
                field_views(params@) == params_of(field_views(form.fields@), username@, None)
            } else {
                exists|iv: Seq<char>, prefix: Seq<char>|
                    cipher::is_nonce(iv, 16) && cipher::is_nonce(prefix, 64) && field_views(params@)
                        == params_of(
                        field_views(form.fields@),
                        username@,
                        Some(
                            #[trigger] cipher::sealed(
                                password@,
                                form.pwd_encrypt_salt@,
                                iv,
                                prefix,
                            ),
                        ),
                    ) && cipher::opens_to(
                        cipher::sealed(password@, form.pwd_encrypt_salt@, iv, prefix),
                        form.pwd_encrypt_salt@,
                        password@,
                    )
            },
            Err(_) => false,
        },
{
    if form.pwd_encrypt_salt.as_str().is_empty() {
        return Ok(params_with(&form.fields, username, None));
    }
    match encrypt_password(password, form.pwd_encrypt_salt.as_str()) {
        Ok(text) => Ok(params_with(&form.fields, username, Some(text))),
        Err(e) => Err(e),
    }
}

/// The page says that the username or the password is wrong.
pub open spec fn reports_bad_credentials(body: Seq<char>) -> bool {
    ||| text::holds(body, "用户名或密码错误"@)
    ||| text::holds(body, "账号或密码错误"@)
    ||| text::holds(body, "username or password is incorrect"@)
}

/// Judges a login that ended at `final_url`, whose host is `host`: on the student
/// portal it succeeded; else the page tells wrong credentials from an unexpected
/// landing.
pub fn landing_outcome(host: &Option<String>, final_url: &str, status: &str, body: &str) -> (r:
    Result<(), AuthError>)
    ensures
        match r {
            Ok(_) => text::opt_view(*host) == Some(JW_HOST@),
            Err(AuthError::InvalidCredentials) => text::opt_view(*host) != Some(JW_HOST@)
                && reports_bad_credentials(body@),
            Err(AuthError::UnexpectedLanding { final_url: at, status: code }) => text::opt_view(
                *host,
            ) != Some(JW_HOST@) && !reports_bad_credentials(body@) && at@ == final_url@ && code@
                == status@,
            Err(_) => false,
        },
{
    let on_portal: bool = match host {
        Some(h) => same_text(h.as_str(), JW_HOST),
        None => false,
    };
    if on_portal {
        return Ok(());
    }
    if contains(body, "用户名或密码错误") || contains(body, "账号或密码错误") || contains(
        body,
        "username or password is incorrect",
    ) {
        return Err(AuthError::InvalidCredentials);
    }
    Err(
        AuthError::UnexpectedLanding {
            final_url: final_url.to_owned(),
            status: status.to_owned(),
        },
    )
}

/// Judges where the login ended: on the student portal it succeeded; else the page
/// tells wrong credentials from an unexpected landing. A URL that only mentions the
/// portal, as that of the login page does, is not on it.
pub fn cas_outcome(final_url: &str, status: &str, body: &str) -> (r: Result<(), AuthError>)
    ensures
        match r {
            Ok(_) => page_url::url_host(final_url@) == Some(JW_HOST@),
            Err(AuthError::InvalidCredentials) => page_url::url_host(final_url@) != Some(JW_HOST@)
                && reports_bad_credentials(body@),
            Err(AuthError::UnexpectedLanding { final_url: at, status: code }) => page_url::url_host(
                final_url@,
            ) != Some(JW_HOST@) && !reports_bad_credentials(body@) && at@ == final_url@ && code@
                == status@,
            Err(_) => false,
        },
{
    landing_outcome(&host_of(final_url), final_url, status, body)
}

// ── info page ───────────────────────────────────────────────────────────────
/// Judges a fetched info page by the host that it came from and its text.
pub fn check_info_page(host: Option<String>, html: &str) -> (r: Result<(), AuthError>)
    ensures
        match r {
            Ok(_) => text::opt_view(host) == Some(INFO_HOST@) && !text::holds(
                html@,
                "authserver/login"@,
            ),
            Err(AuthError::UnexpectedInfoHost { host: at }) => text::opt_view(host) != Some(
                INFO_HOST@,
            ) && text::opt_view(at) == text::opt_view(host),
            Err(AuthError::InfoSessionExpired) => text::opt_view(host) == Some(INFO_HOST@)
                && text::holds(html@, "authserver/login"@),
            Err(_) => false,
        },
{
    let expected: bool = match &host {
        Some(h) => same_text(h.as_str(), INFO_HOST),
        None => false,
    };
    if !expected {
        return Err(AuthError::UnexpectedInfoHost { host });
    }
    if contains(html, "authserver/login") {
        return Err(AuthError::InfoSessionExpired);
    }
    Ok(())
}

/// Makes sure that the page `html` at `final_url` is a page of the info portal and
/// no login page.
pub fn ensure_authenticated(final_url: &PageUrl, html: &str) -> (r: Result<(), AuthError>)
    ensures
        match r {
            Ok(_) => page_url::url_host(final_url@) == Some(INFO_HOST@) && !text::holds(
                html@,
                "authserver/login"@,
            ),
            Err(AuthError::UnexpectedInfoHost { host: at }) => page_url::url_host(final_url@)
                != Some(INFO_HOST@) && text::opt_view(at) == page_url::url_host(final_url@),
            Err(AuthError::InfoSessionExpired) => page_url::url_host(final_url@) == Some(INFO_HOST@)
                && text::holds(html@, "authserver/login"@),
            Err(_) => false,
        },
{
    check_info_page(final_url.host_str(), html)
}

// ── laws ────────────────────────────────────────────────────────────────────
/// The name `name` has no field.
pub open spec fn lacks_name(fields: Seq<(Seq<char>, Seq<char>)>, name: Seq<char>) -> bool {
    forall|i: int| 0 <= i < fields.len() ==> (#[trigger] fields[i]).0 != name
}

proof fn lemma_without_name(fields: Seq<(Seq<char>, Seq<char>)>, name: Seq<char>)
    ensures
        lacks_name(without_name(fields, name), name),
        forall|f: (Seq<char>, Seq<char>)|
            #![trigger without_name(fields, name).contains(f)]
            #![trigger fields.contains(f)]
            without_name(fields, name).contains(f) <==> fields.contains(f) && f.0 != name,
        forall|other: Seq<char>| #[trigger]
            lacks_name(fields, other) ==> lacks_name(without_name(fields, name), other),
    decreases fields.len(),
{
    if fields.len() > 0 {
        let front = fields.drop_last();
        let last = fields.last();
        lemma_without_name(front, name);
        let kept = without_name(front, name);
        let all = without_name(fields, name);
        assert forall|f: (Seq<char>, Seq<char>)|
            #![trigger all.contains(f)]
            #![trigger fields.contains(f)]
            all.contains(f) <==> fields.contains(f) && f.0 != name by {
            if all.contains(f) {
                let i = choose|i: int| 0 <= i < all.len() && all[i] == f;
                if i < kept.len() {
                    assert(kept[i] == f);
                    assert(kept.contains(f));
                    let k = choose|k: int| 0 <= k < front.len() && front[k] == f;
                    assert(fields[k] == f);
                } else {
                    assert(fields[fields.len() - 1] == f);
                }
            }
            if fields.contains(f) && f.0 != name {
                let k = choose|k: int| 0 <= k < fields.len() && fields[k] == f;
                if k < front.len() {
                    assert(front[k] == f);
                    assert(front.contains(f));
                    let i = choose|i: int| 0 <= i < kept.len() && kept[i] == f;
                    assert(all[i] == f);
                } else {
                    assert(all[all.len() - 1] == f);
                }
            }
        }
        assert forall|i: int| 0 <= i < all.len() implies (#[trigger] all[i]).0 != name by {
            assert(all.contains(all[i]));
        }
        assert forall|other: Seq<char>| #[trigger] lacks_name(fields, other) implies lacks_name(
            all,
            other,
        ) by {
            assert forall|i: int| 0 <= i < all.len() implies (#[trigger] all[i]).0 != other by {
                assert(all.contains(all[i]));
                let k = choose|k: int| 0 <= k < fields.len() && fields[k] == all[i];
                assert(fields[k].0 != other);
            }
        }
    }
}

/// The form's fields hold no empty name and none that the login fills in itself.
pub proof fn law_form_fields_are_foreign(inputs: Seq<ElementView>)
    ensures
        forall|f: (Seq<char>, Seq<char>)| #[trigger]
            form_fields(inputs).contains(f) ==> f.0.len() > 0 && !is_own_field(f.0),
    decreases inputs.len(),
{
    if inputs.len() > 0 {
        let before = form_fields(inputs.drop_last());
        law_form_fields_are_foreign(inputs.drop_last());
        let input = inputs.last();
        if is_kept_input(input) {
            let name = or_empty(input.name);
            lemma_without_name(before, name);
            let kept = without_name(before, name);
            assert forall|f: (Seq<char>, Seq<char>)| #[trigger]
                form_fields(inputs).contains(f) implies f.0.len() > 0 && !is_own_field(f.0) by {
                let i = choose|i: int|
                    0 <= i < form_fields(inputs).len() && form_fields(inputs)[i] == f;
                if i < kept.len() {
                    assert(kept[i] == f);
                    assert(kept.contains(f));
                }
            }
        }
    }
}

/// No name occurs twice.
pub open spec fn names_differ(fields: Seq<(Seq<char>, Seq<char>)>) -> bool {
    forall|a: int, b: int|
        0 <= a < b < fields.len() ==> (#[trigger] fields[a]).0 != (#[trigger] fields[b]).0
}

proof fn lemma_without_name_keeps_apart(fields: Seq<(Seq<char>, Seq<char>)>, name: Seq<char>)
    requires
        names_differ(fields),
    ensures
        names_differ(without_name(fields, name)),
    decreases fields.len(),
{
    if fields.len() > 0 {
        let front = fields.drop_last();
        let last = fields.last();
        assert forall|a: int, b: int| 0 <= a < b < front.len() implies (#[trigger] front[a]).0 != (
        #[trigger] front[b]).0 by {
            assert(fields[a].0 != fields[b].0);
        }
        lemma_without_name_keeps_apart(front, name);
        lemma_without_name(front, name);
        let kept = without_name(front, name);
        let all = without_name(fields, name);
        assert forall|a: int, b: int| 0 <= a < b < all.len() implies (#[trigger] all[a]).0 != (
        #[trigger] all[b]).0 by {
            assert(all[a] == kept[a]);
            if b < kept.len() {
                assert(all[b] == kept[b]);
            } else {
                assert(kept.contains(kept[a]));
                let k = choose|k: int| 0 <= k < front.len() && front[k] == kept[a];
                assert(fields[k].0 != fields[fields.len() - 1].0);
            }
        }
    }
}

/// Each name has one field at most.
pub proof fn law_form_names_differ(inputs: Seq<ElementView>)
    ensures
        names_differ(form_fields(inputs)),
    decreases inputs.len(),
{
    if inputs.len() > 0 {
        let before = form_fields(inputs.drop_last());
        law_form_names_differ(inputs.drop_last());
        let input = inputs.last();
        if is_kept_input(input) {
            let name = or_empty(input.name);
            lemma_without_name(before, name);
            lemma_without_name_keeps_apart(before, name);
            let kept = without_name(before, name);
            let all = form_fields(inputs);
            assert forall|a: int, b: int| 0 <= a < b < all.len() implies (#[trigger] all[a]).0 != (
            #[trigger] all[b]).0 by {
                assert(all[a] == kept[a]);
                if b < kept.len() {
                    assert(all[b] == kept[b]);
                }
            }
        }
    }
}

/// The last input of a name decides: where no later input that is kept has its
/// name, a kept input is the one field of its name.
pub proof fn law_last_input_prevails(inputs: Seq<ElementView>, i: int)
    requires
        0 <= i < inputs.len(),
        is_kept_input(inputs[i]),
        forall|j: int|
            i < j < inputs.len() && is_kept_input(#[trigger] inputs[j]) ==> or_empty(inputs[j].name)
                != or_empty(inputs[i].name),
    ensures
        form_fields(inputs).contains((or_empty(inputs[i].name), or_empty(inputs[i].value))),
        forall|f: (Seq<char>, Seq<char>)| #[trigger]
            form_fields(inputs).contains(f) && f.0 == or_empty(inputs[i].name) ==> f.1 == or_empty(
                inputs[i].value,
            ),
        names_differ(form_fields(inputs)),
    decreases inputs.len(),
{
    law_form_names_differ(inputs);
    let before = form_fields(inputs.drop_last());
    let input = inputs.last();
    let all = form_fields(inputs);
    let name = or_empty(inputs[i].name);
    let value = or_empty(inputs[i].value);
    let last = inputs.len() - 1;
    if i == last {
        lemma_without_name(before, name);
        let kept = without_name(before, name);
        assert(all[all.len() - 1] == (name, value));
        assert forall|f: (Seq<char>, Seq<char>)| #[trigger]
            all.contains(f) && f.0 == name implies f.1 == value by {
            let k = choose|k: int| 0 <= k < all.len() && all[k] == f;
            if k < kept.len() {
                assert(kept[k] == f);
            }
        }
    } else {
        let front = inputs.drop_last();
        assert forall|j: int| i < j < front.len() && is_kept_input(#[trigger] front[j]) implies or_empty(
            front[j].name,
        ) != or_empty(front[i].name) by {
            assert(front[j] == inputs[j]);
        }
        law_last_input_prevails(front, i);
        if is_kept_input(input) {
            let other = or_empty(input.name);
            assert(inputs[last] == input);
            lemma_without_name(before, other);
            let kept = without_name(before, other);
            assert(kept.contains((name, value)));
            let k = choose|k: int| 0 <= k < kept.len() && kept[k] == (name, value);
            assert(all[k] == (name, value));
            assert forall|f: (Seq<char>, Seq<char>)| #[trigger]
                all.contains(f) && f.0 == name implies f.1 == value by {
                let m = choose|m: int| 0 <= m < all.len() && all[m] == f;
                if m < kept.len() {
                    assert(kept[m] == f);
                    assert(kept.contains(f));
                    assert(before.contains(f));
                }
            }
        }
    }
}

/// Where the services are: the hosts that a login and a page have to come from, and
/// the addresses that are asked.
pub proof fn law_services_have_their_addresses()
    ensures
        JW_HOST@ == "jw.hitsz.edu.cn"@,
        INFO_HOST@ == "info.hitsz.edu.cn"@,
        JW_PROFILE_URL@ == "http://jw.hitsz.edu.cn/UserManager/queryxsxx"@,
        INFO_DEFAULT_URL@ == "https://info.hitsz.edu.cn/"@,
        login_page() == "https://ids.hit.edu.cn"@ + "/authserver/login"@
            + "?type=userNameLogin&service="@ + text::query_encoded(
            "http://jw.hitsz.edu.cn/casLogin"@,
        ),
{
}

/// The contents of fields are their names and values, in order; a text that is not
/// there is an empty one.
pub proof fn law_field_contents(fields: Seq<(String, String)>, t: Seq<char>)
    ensures
        field_views(fields).len() == fields.len(),
        forall|i: int|
            0 <= i < fields.len() ==> (#[trigger] field_views(fields)[i]).0 == fields[i].0@
                && field_views(fields)[i].1 == fields[i].1@,
        or_empty(Some(t)) == t,
        or_empty(None).len() == 0,
{
}

/// The salt is the input with the id pwdEncryptSalt, unless it is empty. Every other
/// input with a name is kept, but for passwordText, password, username and
/// rememberMe.
pub proof fn law_kept_inputs(input: ElementView)
    ensures
        is_salt_input(input) <==> input.id == Some("pwdEncryptSalt"@) && input.value is Some
            && input.value->0.len() > 0,
        is_kept_input(input) <==> {
            &&& input.name is Some
            &&& input.name->0.len() > 0
            &&& input.name->0 != "passwordText"@
            &&& input.name->0 != "password"@
            &&& input.name->0 != "username"@
            &&& input.name->0 != "rememberMe"@
            &&& !(input.id == Some("pwdEncryptSalt"@) && input.value is Some
                && input.value->0.len() > 0)
        },
{
}

proof fn lemma_without_name_is_the_filter(fields: Seq<(Seq<char>, Seq<char>)>, name: Seq<char>)
    ensures
        without_name(fields, name) == fields.filter(|f: (Seq<char>, Seq<char>)| f.0 != name),
    decreases fields.len(),
{
    reveal(Seq::filter);
    if fields.len() > 0 {
        lemma_without_name_is_the_filter(fields.drop_last(), name);
    } else {
        assert(without_name(fields, name) =~= fields);
    }
}

/// What one more input changes: an input that is not kept changes nothing, and one
/// that is comes last, in place of a field of its name. Without inputs there are no
/// fields.
pub proof fn law_one_more_input(inputs: Seq<ElementView>, input: ElementView)
    ensures
        form_fields(Seq::empty()).len() == 0,
        !is_kept_input(input) ==> form_fields(inputs.push(input)) == form_fields(inputs),
        is_kept_input(input) ==> form_fields(inputs.push(input)) == form_fields(inputs).filter(
            |f: (Seq<char>, Seq<char>)| f.0 != or_empty(input.name),
        ).push((or_empty(input.name), or_empty(input.value))),
{
    assert(inputs.push(input).drop_last() =~= inputs);
    if is_kept_input(input) {
        lemma_without_name_is_the_filter(form_fields(inputs), or_empty(input.name));
    }
}

/// The salt is the value of the last salt input: inputs that hold none do not
/// change it, and without one it is empty.
pub proof fn law_last_salt_prevails(inputs: Seq<ElementView>, i: int)
    ensures
        0 <= i < inputs.len() && is_salt_input(inputs[i]) && (forall|j: int|
            i < j < inputs.len() ==> !is_salt_input(#[trigger] inputs[j])) ==> Some(
            form_salt(inputs),
        ) == inputs[i].value,
        (forall|j: int| 0 <= j < inputs.len() ==> !is_salt_input(#[trigger] inputs[j]))
            ==> form_salt(inputs).len() == 0,
    decreases inputs.len(),
{
    if inputs.len() > 0 {
        let front = inputs.drop_last();
        let end = inputs.len() - 1;
        law_last_salt_prevails(front, i);
        assert(inputs.last() == inputs[end]);
        if 0 <= i < end && is_salt_input(inputs[i]) && (forall|j: int|
            i < j < inputs.len() ==> !is_salt_input(#[trigger] inputs[j])) {
            assert(!is_salt_input(inputs[end]));
            assert(front[i] == inputs[i]);
            assert forall|j: int| i < j < front.len() implies !is_salt_input(
                #[trigger] front[j],
            ) by {
                assert(front[j] == inputs[j]);
            }
        }
        if forall|j: int| 0 <= j < inputs.len() ==> !is_salt_input(#[trigger] inputs[j]) {
            assert(!is_salt_input(inputs[end]));
            assert forall|j: int| 0 <= j < front.len() implies !is_salt_input(
                #[trigger] front[j],
            ) by {
                assert(front[j] == inputs[j]);
            }
        }
    }
}

/// The form is sent to where the first form of the page says; other forms do not
/// count.
pub proof fn law_first_form_decides(form: ElementView, others: Seq<ElementView>)
    ensures
        form_action(seq![form] + others) == or_empty(form.action),
        form_action(Seq::empty()).len() == 0,
{
    assert((seq![form] + others)[0] == form);
}

/// A path is one of the identity service, a form without an action goes to its own
/// page, and any other address stays as it is.
pub proof fn law_action_targets(action: Seq<char>, page: Seq<char>)
    ensures
        action_target(Seq::empty(), page) == page,
        action_target(seq!['/'] + action, page) == "https://ids.hit.edu.cn"@ + (seq!['/']
            + action),
        action.len() > 0 && action[0] != '/' ==> action_target(action, page) == action,
{
    assert((seq!['/'] + action)[0] == '/');
}

/// The parameters are the fields as they came, and behind them the username, the
/// sealed password where there is one, and the wish to be remembered.
pub proof fn law_params_are_complete(
    fields: Seq<(Seq<char>, Seq<char>)>,
    username: Seq<char>,
    sealed: Seq<char>,
)
    ensures
        params_of(fields, username, None) == fields + seq![
            ("username"@, username),
            ("rememberMe"@, "true"@),
        ],
        params_of(fields, username, Some(sealed)) == fields + seq![
            ("username"@, username),
            ("password"@, sealed),
            ("rememberMe"@, "true"@),
        ],
{
    assert(params_of(fields, username, None) =~= fields + seq![
        ("username"@, username),
        ("rememberMe"@, "true"@),
    ]);
    assert(params_of(fields, username, Some(sealed)) =~= fields + seq![
        ("username"@, username),
        ("password"@, sealed),
        ("rememberMe"@, "true"@),
    ]);
}

/// The sentences by which a page says that the credentials are wrong.
pub proof fn law_bad_credentials_are_reported(body: Seq<char>)
    ensures
        reports_bad_credentials(body) <==> text::holds(body, "用户名或密码错误"@) || text::holds(
            body,
            "账号或密码错误"@,
        ) || text::holds(body, "username or password is incorrect"@),
{
}

} // verus!
