//! The token of the unified identity, from the mobile service or from a browser
//! login.

use crate::cookies::CookieMap;
use crate::ldap;
use crate::ldap::{judge_reply, LdapResponse, LdapVerdict, LdapView};
use crate::models::{EasToken, EasTokenView};
use crate::text;
use crate::text::{copy_opt, same_opt, same_text};
use vstd::prelude::*;
use vstd::string::*;

verus! {

/// Who is logged in. Access and refresh token come from the mobile service only.
#[derive(Debug)]
pub struct HitToken {
    pub username: String,
    pub name: Option<String>,
    pub student_id: Option<String>,
    pub school: Option<String>,
    pub stutype: Option<String>,
    pub phone: Option<String>,
    pub access_token: Option<String>,
    pub refresh_token: Option<String>,
    pub cookies: CookieMap,
}

/// The contents of a `HitToken`.
pub struct HitTokenView {
    pub username: Seq<char>,
    pub name: Option<Seq<char>>,
    pub student_id: Option<Seq<char>>,
    pub school: Option<Seq<char>>,
    pub stutype: Option<Seq<char>>,
    pub phone: Option<Seq<char>>,
    pub access_token: Option<Seq<char>>,
    pub refresh_token: Option<Seq<char>>,
    pub cookies: Map<Seq<char>, Seq<char>>,
}

impl View for HitToken {
    type V = HitTokenView;

    open spec fn view(&self) -> HitTokenView {
        HitTokenView {
            username: self.username@,
            name: text::opt_view(self.name),
            student_id: text::opt_view(self.student_id),
            school: text::opt_view(self.school),
            stutype: text::opt_view(self.stutype),
            phone: text::opt_view(self.phone),
            access_token: text::opt_view(self.access_token),
            refresh_token: text::opt_view(self.refresh_token),
            cookies: self.cookies@,
        }
    }
}

impl Clone for HitToken {
    fn clone(&self) -> (r: HitToken)
        ensures
            r@ == self@,
    {
        HitToken {
            username: self.username.clone(),
            name: copy_opt(&self.name),
            student_id: copy_opt(&self.student_id),
            school: copy_opt(&self.school),
            stutype: copy_opt(&self.stutype),
            phone: copy_opt(&self.phone),
            access_token: copy_opt(&self.access_token),
            refresh_token: copy_opt(&self.refresh_token),
            cookies: self.cookies.clone(),
        }
    }
}

impl PartialEq for HitToken {
    fn eq(&self, other: &HitToken) -> (r: bool) {
        same_text(self.username.as_str(), other.username.as_str()) && same_opt(
            &self.name,
            &other.name,
        ) && same_opt(&self.student_id, &other.student_id) && same_opt(&self.school, &other.school)
            && same_opt(&self.stutype, &other.stutype) && same_opt(&self.phone, &other.phone)
            && same_opt(&self.access_token, &other.access_token) && same_opt(
            &self.refresh_token,
            &other.refresh_token,
        ) && self.cookies.same(&other.cookies)
    }
}

impl vstd::std_specs::cmp::PartialEqSpecImpl for HitToken {
    open spec fn obeys_eq_spec() -> bool {
        true
    }

    open spec fn eq_spec(&self, other: &HitToken) -> bool {
        self@ == other@
    }
}

/// The token of a login at the mobile service, from the reply that was accepted.
pub open spec fn hit_token_of(username: Seq<char>, reply: LdapView) -> HitTokenView {
    HitTokenView {
        username,
        name: ldap::name_in(reply),
        student_id: reply.stu_id,
        school: reply.school,
        stutype: reply.stutype,
        phone: reply.phone,
        access_token: reply.access_token,
        refresh_token: reply.refresh_token,
        cookies: Map::empty(),
    }
}

/// What a reply of the mobile service leads to.
#[derive(Debug, Clone)]
pub enum HitLdapStep {
    Token(HitToken),
    Rejected,
    NextRole,
}

fn hit_token_from(username: &str, reply: LdapResponse) -> (r: HitToken)
    ensures
        r@ == hit_token_of(username@, reply@),
{
    let (data_name, school, phone, stutype): (
        Option<String>,
        Option<String>,
        Option<String>,
        Option<String>,
    ) = match reply.data {
        Some(d) => (d.name, d.school, d.phone, d.stutype),
        None => (None, None, None, None),
    };
    let (stu_id, info_name): (Option<String>, Option<String>) = match reply.info {
        Some(i) => (i.stu_id, i.name),
        None => (None, None),
    };
    HitToken {
        username: username.to_owned(),
        name: match data_name {
            Some(n) => Some(n),
            None => info_name,
        },
        student_id: stu_id,
        school,
        stutype,
        phone,
        access_token: reply.access_token,
        refresh_token: reply.refresh_token,
        cookies: CookieMap::new(),
    }
}

/// What follows from the reply `body` of the mobile service, which parses to
/// `reply` if it does.
pub fn hit_ldap_step(username: &str, reply: Option<LdapResponse>, body: &str) -> (r: HitLdapStep)
    ensures
        match ldap::verdict_of(ldap::opt_reply_view(reply), body@) {
            LdapVerdict::Accepted => r matches HitLdapStep::Token(token) && token@ == hit_token_of(
                username@,
                reply->0@,
            ),
            LdapVerdict::Rejected => r is Rejected,
            LdapVerdict::NextRole => r is NextRole,
        },
{
    match judge_reply(&reply, body) {
        LdapVerdict::Accepted => match reply {
            Some(ldap) => HitLdapStep::Token(hit_token_from(username, ldap)),
            None => HitLdapStep::NextRole,
        },
        LdapVerdict::Rejected => HitLdapStep::Rejected,
        LdapVerdict::NextRole => HitLdapStep::NextRole,
    }
}

/// The header that carries the access token, or an empty one.
pub fn bearer_header(token: &HitToken) -> (r: String)
    ensures
        r@ == "bearer "@ + (match text::opt_view(token.access_token) {
            Some(t) => t,
            None => Seq::empty(),
        }),
{
    let mut header: String = "bearer ".to_owned();
    if let Some(t) = &token.access_token {
        header.append(t.as_str());
    }
    assert("bearer "@ + Seq::<char>::empty() =~= "bearer "@);
    header
}

/// The token of a browser login, from the profile's token: it has the session's
/// cookies and neither access nor refresh token.
pub open spec fn browser_hit_token_of(token: EasTokenView) -> HitTokenView {
    HitTokenView {
        username: token.username,
        name: token.name,
        student_id: token.stu_id,
        school: token.school,
        stutype: Some(token.stutype.word()),
        phone: token.phone,
        access_token: None,
        refresh_token: None,
        cookies: token.cookies,
    }
}

/// The token of a browser login, from the profile's token.
pub fn browser_hit_token(token: EasToken) -> (r: HitToken)
    ensures
        r@ == browser_hit_token_of(token@),
{
    HitToken {
        username: token.username,
        name: token.name,
        student_id: token.stu_id,
        school: token.school,
        stutype: Some(token.stutype.as_word().to_owned()),
        phone: token.phone,
        access_token: None,
        refresh_token: None,
        cookies: token.cookies,
    }
}

/// A token of the mobile service has an access token and no cookies; one of a
/// browser login has the session's cookies and no access token.
pub proof fn law_token_sources_differ(username: Seq<char>, reply: LdapView, body: Seq<char>, token: EasTokenView)
    requires
        ldap::verdict_of(Some(reply), body) == LdapVerdict::Accepted,
    ensures
        hit_token_of(username, reply).access_token matches Some(t) && t.len() > 0,
        hit_token_of(username, reply).cookies == Map::<Seq<char>, Seq<char>>::empty(),
        browser_hit_token_of(token).access_token is None,
        browser_hit_token_of(token).cookies == token.cookies,
{
}

/// The contents of a token are its fields, each under its own name.
pub proof fn law_hit_token_contents(t: HitToken)
    ensures
        t@.username == t.username@,
        t@.name == text::opt_view(t.name),
        t@.student_id == text::opt_view(t.student_id),
        t@.school == text::opt_view(t.school),
        t@.stutype == text::opt_view(t.stutype),
        t@.phone == text::opt_view(t.phone),
        t@.access_token == text::opt_view(t.access_token),
        t@.refresh_token == text::opt_view(t.refresh_token),
        t@.cookies == t.cookies@,
{
}

/// Two tokens are equal exactly where all that they say is.
pub proof fn law_equal_tokens(a: HitToken, b: HitToken)
    ensures
        vstd::std_specs::cmp::PartialEqSpec::eq_spec(&a, &b) <==> {
            &&& a.username@ == b.username@
            &&& text::opt_view(a.name) == text::opt_view(b.name)
            &&& text::opt_view(a.student_id) == text::opt_view(b.student_id)
            &&& text::opt_view(a.school) == text::opt_view(b.school)
            &&& text::opt_view(a.stutype) == text::opt_view(b.stutype)
            &&& text::opt_view(a.phone) == text::opt_view(b.phone)
            &&& text::opt_view(a.access_token) == text::opt_view(b.access_token)
            &&& text::opt_view(a.refresh_token) == text::opt_view(b.refresh_token)
            &&& a.cookies@ == b.cookies@
        },
{
}

/// A reply's token says of the student and of the session what the reply says, field
/// by field.
pub proof fn law_reply_reads_back(username: Seq<char>, reply: LdapView)
    ensures
        ({
            let t = hit_token_of(username, reply);
            &&& t.username == username
            &&& reply.data_name is Some ==> t.name == reply.data_name
            &&& reply.data_name is None ==> t.name == reply.info_name
            &&& t.student_id == reply.stu_id
            &&& t.school == reply.school
            &&& t.stutype == reply.stutype
            &&& t.phone == reply.phone
            &&& t.access_token == reply.access_token
            &&& t.refresh_token == reply.refresh_token
            &&& forall|name: Seq<char>| !#[trigger] t.cookies.contains_key(name)
        }),
{
}

/// The token of a browser login says of the student what the profile's token says,
/// field by field, with the student type in words.
pub proof fn law_profile_token_reads_back(token: EasTokenView)
    ensures
        ({
            let t = browser_hit_token_of(token);
            &&& t.username == token.username
            &&& t.name == token.name
            &&& t.student_id == token.stu_id
            &&& t.school == token.school
            &&& token.stutype is Undergrad ==> t.stutype == Some("undergrad"@)
            &&& token.stutype is Grad ==> t.stutype == Some("grad"@)
            &&& t.phone == token.phone
            &&& t.access_token is None
            &&& t.refresh_token is None
            &&& t.cookies == token.cookies
        }),
{
}

} // verus!
