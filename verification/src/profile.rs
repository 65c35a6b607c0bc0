//! Tokens made from the profile that the student portal hands out.

use crate::cookies::CookieMap;
use crate::error::AuthError;
use crate::json;
use crate::json::{JsonObject, JsonView};
use crate::models::{EasToken, EasTokenView, StudentType};
use crate::text;
use crate::text::{contains, first_visible, same_text, trim};
use vstd::prelude::*;

verus! {

/// What is wrong with a reply to the profile request.
#[derive(Debug, Clone, Copy, PartialEq, Eq, Structural)]
pub enum ProfileFault {
    SessionExpired,
    HtmlInsteadOfJson,
}

/// The fault that the text of a reply shows: the portal's word for an expired
/// session, or a page in place of data.
pub open spec fn profile_fault(reply: Seq<char>) -> Option<ProfileFault> {
    if text::holds(reply, "session已失效"@) {
        Some(ProfileFault::SessionExpired)
    } else if text::trimmed_start(reply).len() > 0 && text::trimmed_start(reply)[0] == '<' {
        Some(ProfileFault::HtmlInsteadOfJson)
    } else {
        None
    }
}

/// Looks for a fault in a reply to the profile request.
pub fn check_profile(reply: &str) -> (r: Result<(), ProfileFault>)
    ensures
        match r {
            Ok(_) => profile_fault(reply@) is None,
            Err(fault) => profile_fault(reply@) == Some(fault),
        },
{
    if contains(reply, "session已失效") {
        return Err(ProfileFault::SessionExpired);
    }
    match first_visible(reply) {
        Some('<') => Err(ProfileFault::HtmlInsteadOfJson),
        _ => Ok(()),
    }
}

/// The text of a profile's member, as it is.
pub fn str_val(profile: &JsonObject, key: &str) -> (r: Option<String>)
    ensures
        text::opt_view(r) == json::text_member(profile@, key@),
{
    profile.text(key)
}

/// The trimmed text of a profile's member, unless empty.
pub open spec fn trimmed_member(
    members: Map<Seq<char>, JsonView>,
    key: Seq<char>,
) -> Option<Seq<char>> {
    match json::text_member(members, key) {
        Some(t) => if text::trimmed(t).len() > 0 {
            Some(text::trimmed(t))
        } else {
            None
        },
        None => None,
    }
}

/// The trimmed text of a profile's member, unless empty.
pub fn get_string(profile: &JsonObject, key: &str) -> (r: Option<String>)
    ensures
        text::opt_view(r) == trimmed_member(profile@, key@),
{
    match profile.text(key) {
        Some(raw) => {
            let t: String = trim(raw.as_str());
            if t.as_str().is_empty() {
                None
            } else {
                Some(t)
            }
        },
        None => None,
    }
}

/// The type that the code of an HTTP login's profile stands for: graduate for
/// `2`, else undergraduate.
pub open spec fn eas_student_type(code: Option<Seq<char>>) -> StudentType {
    if code == Some("1"@) {
        StudentType::Undergrad
    } else if code == Some("2"@) {
        StudentType::Grad
    } else {
        StudentType::Undergrad
    }
}

/// The type that the code of a browser login's profile stands for: undergraduate
/// for `1`, else graduate.
pub open spec fn browser_student_type(code: Option<Seq<char>>) -> StudentType {
    if code == Some("1"@) {
        StudentType::Undergrad
    } else {
        StudentType::Grad
    }
}

/// The token of an HTTP login, from the members of the profile.
pub open spec fn eas_token_of(
    username: Seq<char>,
    password: Seq<char>,
    cookies: Map<Seq<char>, Seq<char>>,
    profile: Map<Seq<char>, JsonView>,
) -> EasTokenView {
    EasTokenView {
        cookies,
        username,
        password,
        name: json::text_member(profile, "XM"@),
        stutype: eas_student_type(json::text_member(profile, "PYLX"@)),
        picture: json::text_member(profile, "ZPBSLJ"@),
        id: json::text_member(profile, "ID"@),
        stu_id: json::text_member(profile, "XH"@),
        school: json::text_member(profile, "YXMC"@),
        major: json::text_member(profile, "ZYMC"@),
        grade: json::text_member(profile, "NJMC"@),
        sfxsx: json::text_member(profile, "sfxsx"@),
        email: json::text_member(profile, "DZYX"@),
        phone: json::text_member(profile, "LXDH"@),
    }
}

/// The token of a browser login, from the members of the profile. A username that
/// was not given is the student number of the profile.
pub open spec fn browser_token_of(
    username: Option<Seq<char>>,
    password: Option<Seq<char>>,
    cookies: Map<Seq<char>, Seq<char>>,
    profile: Map<Seq<char>, JsonView>,
) -> EasTokenView {
    EasTokenView {
        cookies,
        username: match username {
            Some(u) => u,
            None => match trimmed_member(profile, "XH"@) {
                Some(number) => number,
                None => Seq::empty(),
            },
        },
        password: match password {
            Some(p) => p,
            None => Seq::empty(),
        },
        name: trimmed_member(profile, "XM"@),
        stutype: browser_student_type(json::text_member(profile, "PYLX"@)),
        picture: trimmed_member(profile, "ZPBSLJ"@),
        id: trimmed_member(profile, "ID"@),
        stu_id: trimmed_member(profile, "XH"@),
        school: trimmed_member(profile, "YXMC"@),
        major: trimmed_member(profile, "ZYMC"@),
        grade: trimmed_member(profile, "NJMC"@),
        sfxsx: trimmed_member(profile, "sfxsx"@),
        email: trimmed_member(profile, "DZYX"@),
        phone: trimmed_member(profile, "LXDH"@),
    }
}

/// The token of an HTTP login, from the members of the profile.
pub fn eas_token_from(
    username: &str,
    password: &str,
    cookies: CookieMap,
    profile: &JsonObject,
) -> (r: EasToken)
    ensures
        r@ == eas_token_of(username@, password@, cookies@, profile@),
{
    let stutype: StudentType = match str_val(profile, "PYLX") {
        Some(code) => if same_text(code.as_str(), "1") {
            StudentType::Undergrad
        } else if same_text(code.as_str(), "2") {
            StudentType::Grad
        } else {
            StudentType::Undergrad
        },
        None => StudentType::Undergrad,
    };
    EasToken {
        cookies,
        username: username.to_owned(),
        password: password.to_owned(),
        name: str_val(profile, "XM"),
        stutype,
        picture: str_val(profile, "ZPBSLJ"),
        id: str_val(profile, "ID"),
        stu_id: str_val(profile, "XH"),
        school: str_val(profile, "YXMC"),
        major: str_val(profile, "ZYMC"),
        grade: str_val(profile, "NJMC"),
        sfxsx: str_val(profile, "sfxsx"),
        email: str_val(profile, "DZYX"),
        phone: str_val(profile, "LXDH"),
    }
}

/// The token of an HTTP login, from the text of the profile.
pub fn build_eas_token(
    username: &str,
    password: &str,
    cookies: CookieMap,
    profile_json: &str,
) -> (r: Result<EasToken, AuthError>)
    ensures
        match r {
            Ok(token) => json::json_members(profile_json@) matches Some(profile) && token@
                == eas_token_of(username@, password@, cookies@, profile),
            Err(e) => json::json_members(profile_json@) is None && e == AuthError::ProfileNotJson,
        },
{
    match JsonObject::parse(profile_json) {
        Some(profile) => Ok(eas_token_from(username, password, cookies, &profile)),
        None => Err(AuthError::ProfileNotJson),
    }
}

/// The token of a browser login, from the members of the profile.
pub fn browser_token_from(
    username: Option<&str>,
    password: Option<&str>,
    cookies: CookieMap,
    profile: &JsonObject,
) -> (r: EasToken)
    ensures
        r@ == browser_token_of(
            text::opt_str_view(username),
            text::opt_str_view(password),
            cookies@,
            profile@,
        ),
{
    let stutype: StudentType = match str_val(profile, "PYLX") {
        Some(code) => if same_text(code.as_str(), "1") {
            StudentType::Undergrad
        } else {
            StudentType::Grad
        },
        None => StudentType::Grad,
    };
    let username: String = match username {
        Some(u) => u.to_owned(),
        None => match get_string(profile, "XH") {
            Some(number) => number,
            None => String::new(),
        },
    };
    let password: String = match password {
        Some(p) => p.to_owned(),
        None => String::new(),
    };
    EasToken {
        cookies,
        username,
        password,
        name: get_string(profile, "XM"),
        stutype,
        picture: get_string(profile, "ZPBSLJ"),
        id: get_string(profile, "ID"),
        stu_id: get_string(profile, "XH"),
        school: get_string(profile, "YXMC"),
        major: get_string(profile, "ZYMC"),
        grade: get_string(profile, "NJMC"),
        sfxsx: get_string(profile, "sfxsx"),
        email: get_string(profile, "DZYX"),
        phone: get_string(profile, "LXDH"),
    }
}

/// A cookie as a browser or a cookie file holds it.
#[derive(Debug, Clone)]
pub struct SavedCookie {
    pub name: String,
    pub value: String,
    pub domain: String,
    pub path: String,
}

/// The values of the cookies by their names, the last one of a name prevailing.
pub open spec fn cookies_by_name(cookies: Seq<SavedCookie>) -> Map<Seq<char>, Seq<char>>
    decreases cookies.len(),
{
    if cookies.len() == 0 {
        Map::empty()
    } else {
        cookies_by_name(cookies.drop_last()).insert(cookies.last().name@, cookies.last().value@)
    }
}

/// The values of the cookies by their names, the last one of a name prevailing.
pub fn cookie_map(cookies: &Vec<SavedCookie>) -> (r: CookieMap)
    ensures
        r@ == cookies_by_name(cookies@),
{
    let mut map: CookieMap = CookieMap::new();
    let mut i: usize = 0;
    while i < cookies.len()
        invariant
            i <= cookies@.len(),
            map@ == cookies_by_name(cookies@.take(i as int)),
        decreases cookies@.len() - i,
    {
        map.insert(cookies[i].name.clone(), cookies[i].value.clone());
        assert(cookies@.take(i + 1).drop_last() =~= cookies@.take(i as int));
        i = i + 1;
    }
    assert(cookies@.take(cookies@.len() as int) =~= cookies@);
    map
}

/// The token of a browser login, from the browser's cookies and the text of the
/// profile.
pub fn build_browser_token(
    username: Option<&str>,
    password: Option<&str>,
    cookies: &Vec<SavedCookie>,
    profile_json: &str,
) -> (r: Result<EasToken, AuthError>)
    ensures
        match r {
            Ok(token) => json::json_members(profile_json@) matches Some(profile) && token@
                == browser_token_of(
                text::opt_str_view(username),
                text::opt_str_view(password),
                cookies_by_name(cookies@),
                profile,
            ),
            Err(e) => json::json_members(profile_json@) is None && e == AuthError::ProfileNotJson,
        },
{
    match JsonObject::parse(profile_json) {
        Some(profile) => Ok(
            browser_token_from(username, password, cookie_map(cookies), &profile),
        ),
        None => Err(AuthError::ProfileNotJson),
    }
}

/// The token of a session that only cookies stand for: nothing is known of the
/// student.
pub open spec fn anonymous_token_of(cookies: Map<Seq<char>, Seq<char>>) -> EasTokenView {
    EasTokenView {
        cookies,
        username: Seq::empty(),
        password: Seq::empty(),
        name: None,
        stutype: StudentType::Undergrad,
        picture: None,
        id: None,
        stu_id: None,
        school: None,
        major: None,
        grade: None,
        sfxsx: None,
        email: None,
        phone: None,
    }
}

/// The token of a session that only saved cookies stand for.
pub fn anonymous_token(cookies: &Vec<SavedCookie>) -> (r: EasToken)
    ensures
        r@ == anonymous_token_of(cookies_by_name(cookies@)),
{
    EasToken {
        cookies: cookie_map(cookies),
        username: String::new(),
        password: String::new(),
        name: None,
        stutype: StudentType::Undergrad,
        picture: None,
        id: None,
        stu_id: None,
        school: None,
        major: None,
        grade: None,
        sfxsx: None,
        email: None,
        phone: None,
    }
}

/// Both logins read a student type back from its code.
pub proof fn law_student_type_reads_back(stutype: StudentType)
    ensures
        eas_student_type(Some(stutype.code())) == stutype,
        browser_student_type(Some(stutype.code())) == stutype,
{
    reveal_strlit("1");
    reveal_strlit("2");
    assert("1"@[0] != "2"@[0]);
}

/// What a browser login's token says of the student is never empty and has no
/// white space at its ends.
pub proof fn law_browser_token_is_trimmed(members: Map<Seq<char>, JsonView>, key: Seq<char>)
    ensures
        trimmed_member(members, key) matches Some(t) ==> t.len() > 0 && text::trimmed(t) == t,
{
    if let Some(t) = json::text_member(members, key) {
        text::law_trimmed_twice(t);
    }
}

/// A cookie's value is the one that the last cookie of its name has.
pub proof fn law_last_cookie_prevails(cookies: Seq<SavedCookie>, i: int)
    requires
        0 <= i < cookies.len(),
        forall|j: int| i < j < cookies.len() ==> (#[trigger] cookies[j]).name@ != cookies[i].name@,
    ensures
        cookies_by_name(cookies).contains_key(cookies[i].name@),
        cookies_by_name(cookies)[cookies[i].name@] == cookies[i].value@,
    decreases cookies.len(),
{
    let last = cookies.len() - 1;
    if i < last {
        assert(cookies.last() == cookies[last]);
        law_last_cookie_prevails(cookies.drop_last(), i);
    }
}

/// A profile reads back field by field: what it holds under each key stands in the
/// field of that key in the tokens of both logins, which agree in all of them.
pub proof fn law_profile_reads_back(
    username: Seq<char>,
    password: Seq<char>,
    cookies: Map<Seq<char>, Seq<char>>,
    profile: Map<Seq<char>, JsonView>,
    student: EasTokenView,
)
    requires
        student.name matches Some(t) && t.len() > 0 && text::trimmed(t) == t
            && profile.contains_key("XM"@) && profile["XM"@] == JsonView::Text(t),
        student.stu_id matches Some(t) && t.len() > 0 && text::trimmed(t) == t
            && profile.contains_key("XH"@) && profile["XH"@] == JsonView::Text(t),
        student.school matches Some(t) && t.len() > 0 && text::trimmed(t) == t
            && profile.contains_key("YXMC"@) && profile["YXMC"@] == JsonView::Text(t),
        student.major matches Some(t) && t.len() > 0 && text::trimmed(t) == t
            && profile.contains_key("ZYMC"@) && profile["ZYMC"@] == JsonView::Text(t),
        student.grade matches Some(t) && t.len() > 0 && text::trimmed(t) == t
            && profile.contains_key("NJMC"@) && profile["NJMC"@] == JsonView::Text(t),
        student.email matches Some(t) && t.len() > 0 && text::trimmed(t) == t
            && profile.contains_key("DZYX"@) && profile["DZYX"@] == JsonView::Text(t),
        student.phone matches Some(t) && t.len() > 0 && text::trimmed(t) == t
            && profile.contains_key("LXDH"@) && profile["LXDH"@] == JsonView::Text(t),
        student.picture matches Some(t) && t.len() > 0 && text::trimmed(t) == t
            && profile.contains_key("ZPBSLJ"@) && profile["ZPBSLJ"@] == JsonView::Text(t),
        student.id matches Some(t) && t.len() > 0 && text::trimmed(t) == t
            && profile.contains_key("ID"@) && profile["ID"@] == JsonView::Text(t),
        student.sfxsx matches Some(t) && t.len() > 0 && text::trimmed(t) == t
            && profile.contains_key("sfxsx"@) && profile["sfxsx"@] == JsonView::Text(t),
    ensures
        ({
            let browser = browser_token_of(Some(username), Some(password), cookies, profile);
            let http = eas_token_of(username, password, cookies, profile);
            &&& browser.username == username && http.username == username
            &&& browser.password == password && http.password == password
            &&& browser.cookies == cookies && http.cookies == cookies
            &&& browser.name == student.name && http.name == student.name
            &&& browser.stu_id == student.stu_id && http.stu_id == student.stu_id
            &&& browser.school == student.school && http.school == student.school
            &&& browser.major == student.major && http.major == student.major
            &&& browser.grade == student.grade && http.grade == student.grade
            &&& browser.email == student.email && http.email == student.email
            &&& browser.phone == student.phone && http.phone == student.phone
            &&& browser.picture == student.picture && http.picture == student.picture
            &&& browser.id == student.id && http.id == student.id
            &&& browser.sfxsx == student.sfxsx && http.sfxsx == student.sfxsx
        }),
{
}

/// On any profile the token of a browser login says of the student what that of an
/// HTTP login says, trimmed, and nothing where that is nothing or white space.
pub proof fn law_browser_and_http_tokens_agree(
    username: Option<Seq<char>>,
    password: Option<Seq<char>>,
    cookies: Map<Seq<char>, Seq<char>>,
    profile: Map<Seq<char>, JsonView>,
)
    ensures
        ({
            let b = browser_token_of(username, password, cookies, profile);
            let h = eas_token_of(Seq::empty(), Seq::empty(), cookies, profile);
            &&& b.name is Some <==> h.name is Some && text::trimmed(h.name->0).len() > 0
            &&& b.name is Some ==> b.name->0 == text::trimmed(h.name->0)
            &&& b.stu_id is Some <==> h.stu_id is Some && text::trimmed(h.stu_id->0).len() > 0
            &&& b.stu_id is Some ==> b.stu_id->0 == text::trimmed(h.stu_id->0)
            &&& b.school is Some <==> h.school is Some && text::trimmed(h.school->0).len() > 0
            &&& b.school is Some ==> b.school->0 == text::trimmed(h.school->0)
            &&& b.major is Some <==> h.major is Some && text::trimmed(h.major->0).len() > 0
            &&& b.major is Some ==> b.major->0 == text::trimmed(h.major->0)
            &&& b.grade is Some <==> h.grade is Some && text::trimmed(h.grade->0).len() > 0
            &&& b.grade is Some ==> b.grade->0 == text::trimmed(h.grade->0)
            &&& b.email is Some <==> h.email is Some && text::trimmed(h.email->0).len() > 0
            &&& b.email is Some ==> b.email->0 == text::trimmed(h.email->0)
            &&& b.phone is Some <==> h.phone is Some && text::trimmed(h.phone->0).len() > 0
            &&& b.phone is Some ==> b.phone->0 == text::trimmed(h.phone->0)
            &&& b.picture is Some <==> h.picture is Some && text::trimmed(h.picture->0).len() > 0
            &&& b.picture is Some ==> b.picture->0 == text::trimmed(h.picture->0)
            &&& b.id is Some <==> h.id is Some && text::trimmed(h.id->0).len() > 0
            &&& b.id is Some ==> b.id->0 == text::trimmed(h.id->0)
            &&& b.sfxsx is Some <==> h.sfxsx is Some && text::trimmed(h.sfxsx->0).len() > 0
            &&& b.sfxsx is Some ==> b.sfxsx->0 == text::trimmed(h.sfxsx->0)
        }),
{
}

/// A key that a profile has no text for leaves its field empty, in the tokens of
/// both logins.
pub proof fn law_missing_members_stay_out(
    username: Seq<char>,
    password: Seq<char>,
    cookies: Map<Seq<char>, Seq<char>>,
    profile: Map<Seq<char>, JsonView>,
)
    ensures
        ({
            let b = browser_token_of(Some(username), Some(password), cookies, profile);
            let h = eas_token_of(username, password, cookies, profile);
            &&& !profile.contains_key("XM"@) || !(profile["XM"@] is Text) ==> b.name is None
                && h.name is None
            &&& !profile.contains_key("XH"@) || !(profile["XH"@] is Text) ==> b.stu_id is None
                && h.stu_id is None
            &&& !profile.contains_key("YXMC"@) || !(profile["YXMC"@] is Text) ==> b.school is None
                && h.school is None
            &&& !profile.contains_key("ZYMC"@) || !(profile["ZYMC"@] is Text) ==> b.major is None
                && h.major is None
            &&& !profile.contains_key("NJMC"@) || !(profile["NJMC"@] is Text) ==> b.grade is None
                && h.grade is None
            &&& !profile.contains_key("DZYX"@) || !(profile["DZYX"@] is Text) ==> b.email is None
                && h.email is None
            &&& !profile.contains_key("LXDH"@) || !(profile["LXDH"@] is Text) ==> b.phone is None
                && h.phone is None
            &&& !profile.contains_key("ZPBSLJ"@) || !(profile["ZPBSLJ"@] is Text) ==> b.picture is None
                && h.picture is None
            &&& !profile.contains_key("ID"@) || !(profile["ID"@] is Text) ==> b.id is None
                && h.id is None
            &&& !profile.contains_key("sfxsx"@) || !(profile["sfxsx"@] is Text) ==> b.sfxsx is None
                && h.sfxsx is None
        }),
{
}

/// The student type of an HTTP login is graduate for the code 2 alone; that of a
/// browser login is undergraduate for the code 1 alone.
pub proof fn law_student_type_goes_by_the_code(
    username: Seq<char>,
    password: Seq<char>,
    cookies: Map<Seq<char>, Seq<char>>,
    profile: Map<Seq<char>, JsonView>,
)
    ensures
        eas_token_of(username, password, cookies, profile).stutype is Grad <==> profile.contains_key(
            "PYLX"@,
        ) && profile["PYLX"@] == JsonView::Text("2"@),
        browser_token_of(Some(username), Some(password), cookies, profile).stutype is Undergrad
            <==> profile.contains_key("PYLX"@) && profile["PYLX"@] == JsonView::Text("1"@),
{
    reveal_strlit("1");
    reveal_strlit("2");
    assert("1"@[0] != "2"@[0]);
}

/// A browser login's token has the username and the password that were given, and
/// the cookies; without a username it has the student number of the profile, and
/// what is still missing is empty.
pub proof fn law_browser_token_says_who_logged_in(
    username: Option<Seq<char>>,
    password: Option<Seq<char>>,
    cookies: Map<Seq<char>, Seq<char>>,
    profile: Map<Seq<char>, JsonView>,
)
    ensures
        ({
            let b = browser_token_of(username, password, cookies, profile);
            &&& b.cookies == cookies
            &&& username matches Some(u) ==> b.username == u
            &&& password matches Some(p) ==> b.password == p
            &&& password is None ==> b.password.len() == 0
            &&& username is None && profile.contains_key("XH"@) ==> (profile["XH"@] matches
                JsonView::Text(number) ==> b.username == text::trimmed(number))
            &&& username is None && (!profile.contains_key("XH"@) || !(profile["XH"@] is Text))
                ==> b.username.len() == 0
        }),
{
    if username is None {
        if let Some(t) = json::text_member(profile, "XH"@) {
            if text::trimmed(t).len() == 0 {
                assert(text::trimmed(t) =~= Seq::<char>::empty());
            }
        }
    }
}

/// A token that only cookies stand for holds them and says nothing else.
pub proof fn law_anonymous_token_holds_cookies_alone(cookies: Map<Seq<char>, Seq<char>>)
    ensures
        ({
            let t = anonymous_token_of(cookies);
            &&& t.cookies == cookies
            &&& t.username.len() == 0 && t.password.len() == 0
            &&& t.stutype is Undergrad
            &&& t.name is None && t.picture is None && t.id is None && t.stu_id is None
            &&& t.school is None && t.major is None && t.grade is None && t.sfxsx is None
            &&& t.email is None && t.phone is None
        }),
{
}

/// The trimmed text of a member is there exactly where the member is a text that is
/// not white space alone.
pub proof fn law_trimmed_member_is_exact(members: Map<Seq<char>, JsonView>, key: Seq<char>)
    ensures
        match trimmed_member(members, key) {
            Some(t) => t.len() > 0 && members.contains_key(key) && (members[key] matches
                JsonView::Text(raw) && t == text::trimmed(raw)),
            None => members.contains_key(key) ==> (members[key] matches JsonView::Text(raw) ==> (
            forall|i: int| 0 <= i < raw.len() ==> text::is_white_space(#[trigger] raw[i]))),
        },
{
    if let Some(raw) = json::text_member(members, key) {
        text::law_trimmed_is_exact(raw);
    }
}

/// A reply is faulty exactly where it says that the session has expired, which
/// counts first, or starts as a page does, whatever white space stands in front.
pub proof fn law_profile_faults(reply: Seq<char>, white: Seq<char>, rest: Seq<char>)
    requires
        reply == white + rest,
        forall|i: int| 0 <= i < white.len() ==> text::is_white_space(#[trigger] white[i]),
        rest.len() > 0 ==> !text::is_white_space(rest[0]),
    ensures
        profile_fault(reply) == Some(ProfileFault::SessionExpired) <==> text::holds(
            reply,
            "session已失效"@,
        ),
        profile_fault(reply) == Some(ProfileFault::HtmlInsteadOfJson) <==> !text::holds(
            reply,
            "session已失效"@,
        ) && rest.len() > 0 && rest[0] == '<',
{
    text::law_trimmed_start_is_exact(reply);
    let t = text::trimmed_start(reply);
    let n = reply.len() - t.len();
    if n < white.len() {
        assert(t[0] == reply[n]);
        assert(reply[n] == white[n]);
    }
    if n > white.len() {
        assert(reply[white.len() as int] == rest[0]);
    }
    assert(t =~= rest);
}

/// A cookie map has the names of the cookies and no others.
pub proof fn law_cookie_map_has_their_names(cookies: Seq<SavedCookie>, name: Seq<char>)
    ensures
        cookies_by_name(cookies).contains_key(name) <==> exists|i: int|
            0 <= i < cookies.len() && (#[trigger] cookies[i]).name@ == name,
    decreases cookies.len(),
{
    if cookies.len() > 0 {
        let front = cookies.drop_last();
        let end = cookies.len() - 1;
        law_cookie_map_has_their_names(front, name);
        assert(cookies.last() == cookies[end]);
        if cookies_by_name(cookies).contains_key(name) && cookies[end].name@ != name {
            let i = choose|i: int| 0 <= i < front.len() && (#[trigger] front[i]).name@ == name;
            assert(cookies[i].name@ == name);
        }
        if exists|i: int| 0 <= i < cookies.len() && (#[trigger] cookies[i]).name@ == name {
            let i = choose|i: int| 0 <= i < cookies.len() && (#[trigger] cookies[i]).name@ == name;
            if i < end {
                assert(front[i].name@ == name);
            }
        }
    }
}

} // verus!
