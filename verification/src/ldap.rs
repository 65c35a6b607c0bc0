//! The reply of the mobile service to a login, and the roles it is tried with.

use crate::text;
use crate::text::contains;
use vstd::prelude::*;

verus! {

pub const MJW_BASE: &'static str = "https://mjw.hitsz.edu.cn/incoSpringBoot";

pub const BASIC_AUTH: &'static str = "Basic aW5jb246MTIzNDU=";

/// What the reply says of the person.
#[derive(Debug, Clone)]
pub struct LdapData {
    pub name: Option<String>,
    pub school: Option<String>,
    pub phone: Option<String>,
    pub stutype: Option<String>,
}

/// What the reply says of the account.
#[derive(Debug, Clone)]
pub struct LdapInfo {
    pub stu_id: Option<String>,
    pub name: Option<String>,
}

/// The reply to a login.
#[derive(Debug, Clone)]
pub struct LdapResponse {
    pub access_token: Option<String>,
    pub refresh_token: Option<String>,
    pub data: Option<LdapData>,
    pub info: Option<LdapInfo>,
}

/// What a reply comes down to: the tokens, and what it says of the student.
pub struct LdapView {
    pub access_token: Option<Seq<char>>,
    pub refresh_token: Option<Seq<char>>,
    pub data_name: Option<Seq<char>>,
    pub school: Option<Seq<char>>,
    pub phone: Option<Seq<char>>,
    pub stutype: Option<Seq<char>>,
    pub stu_id: Option<Seq<char>>,
    pub info_name: Option<Seq<char>>,
}

impl View for LdapResponse {
    type V = LdapView;

    open spec fn view(&self) -> LdapView {
        LdapView {
            access_token: text::opt_view(self.access_token),
            refresh_token: text::opt_view(self.refresh_token),
            data_name: match self.data {
                Some(d) => text::opt_view(d.name),
                None => None,
            },
            school: match self.data {
                Some(d) => text::opt_view(d.school),
                None => None,
            },
            phone: match self.data {
                Some(d) => text::opt_view(d.phone),
                None => None,
            },
            stutype: match self.data {
                Some(d) => text::opt_view(d.stutype),
                None => None,
            },
            stu_id: match self.info {
                Some(i) => text::opt_view(i.stu_id),
                None => None,
            },
            info_name: match self.info {
                Some(i) => text::opt_view(i.name),
                None => None,
            },
        }
    }
}

/// The contents of an optional reply.
pub open spec fn opt_reply_view(reply: Option<LdapResponse>) -> Option<LdapView> {
    match reply {
        Some(r) => Some(r@),
        None => None,
    }
}

/// What a reply means for the login.
#[derive(Debug, Clone, Copy, PartialEq, Eq, Structural)]
pub enum LdapVerdict {
    /// The login succeeded: the reply holds an access token.
    Accepted,
    /// The username or the password is wrong.
    Rejected,
    /// The next role is tried.
    NextRole,
}

/// The verdict on a reply: `reply` is what `body` parses to, if it does.
pub open spec fn verdict_of(reply: Option<LdapView>, body: Seq<char>) -> LdapVerdict {
    match reply {
        Some(r) => match r.access_token {
            Some(t) if t.len() > 0 => LdapVerdict::Accepted,
            _ => if text::holds(body, "用户名或密码错误"@) {
                LdapVerdict::Rejected
            } else {
                LdapVerdict::NextRole
            },
        },
        None => LdapVerdict::NextRole,
    }
}

/// The verdict on a reply: `reply` is what `body` parses to, if it does.
pub fn judge_reply(reply: &Option<LdapResponse>, body: &str) -> (r: LdapVerdict)
    ensures
        r == verdict_of(opt_reply_view(*reply), body@),
{
    match reply {
        Some(ldap) => {
            if let Some(token) = &ldap.access_token {
                if !token.as_str().is_empty() {
                    return LdapVerdict::Accepted;
                }
            }
            if contains(body, "用户名或密码错误") {
                LdapVerdict::Rejected
            } else {
                LdapVerdict::NextRole
            }
        },
        None => LdapVerdict::NextRole,
    }
}

/// The role that the login is tried with once `tried` roles did not do.
pub open spec fn role_of(tried: int) -> Option<Seq<char>> {
    if tried == 0 {
        Some("06"@)
    } else if tried == 1 {
        Some("01"@)
    } else {
        None
    }
}

/// The role that the login is tried with once `tried` roles did not do; none when
/// all have been tried.
pub fn role_code(tried: usize) -> (r: Option<&'static str>)
    ensures
        text::opt_str_view(r) == role_of(tried as int),
{
    if tried == 0 {
        Some("06")
    } else if tried == 1 {
        Some("01")
    } else {
        None
    }
}

/// The name that a reply gives: the person's, else the account's.
pub open spec fn name_in(reply: LdapView) -> Option<Seq<char>> {
    match reply.data_name {
        Some(n) => Some(n),
        None => reply.info_name,
    }
}

/// What a whole login comes to.
pub enum LdapRun {
    /// The reply at this place was accepted.
    Accepted(int),
    /// The reply at this place said that the credentials are wrong.
    Rejected(int),
    /// No role did.
    Exhausted,
}

/// What the replies to the roles come to, from the one at `tried` on.
pub open spec fn run_of(replies: Seq<(Option<LdapView>, Seq<char>)>, tried: int) -> LdapRun
    decreases replies.len() - tried,
{
    if tried < 0 || tried >= replies.len() || role_of(tried) is None {
        LdapRun::Exhausted
    } else {
        match verdict_of(replies[tried].0, replies[tried].1) {
            LdapVerdict::Accepted => LdapRun::Accepted(tried),
            LdapVerdict::Rejected => LdapRun::Rejected(tried),
            LdapVerdict::NextRole => run_of(replies, tried + 1),
        }
    }
}

/// The first reply that decides, decides the login, and at most two roles are
/// tried. A login succeeds only with an access token that is not empty; it is
/// rejected only where a reply says so.
pub proof fn law_first_decision_stands(replies: Seq<(Option<LdapView>, Seq<char>)>, tried: int)
    requires
        0 <= tried,
    ensures
        match run_of(replies, tried) {
            LdapRun::Accepted(i) => {
                &&& tried <= i < replies.len() && i < 2
                &&& replies[i].0 matches Some(reply) && reply.access_token matches Some(t)
                    && t.len() > 0
                &&& forall|j: int|
                    tried <= j < i ==> verdict_of((#[trigger] replies[j]).0, replies[j].1)
                        == LdapVerdict::NextRole
            },
            LdapRun::Rejected(i) => {
                &&& tried <= i < replies.len() && i < 2
                &&& text::holds(replies[i].1, "用户名或密码错误"@)
                &&& forall|j: int|
                    tried <= j < i ==> verdict_of((#[trigger] replies[j]).0, replies[j].1)
                        == LdapVerdict::NextRole
            },
            LdapRun::Exhausted => forall|j: int|
                tried <= j < replies.len() && j < 2 ==> verdict_of(
                    (#[trigger] replies[j]).0,
                    replies[j].1,
                ) == LdapVerdict::NextRole,
        },
    decreases replies.len() - tried,
{
    if tried < replies.len() && role_of(tried) is Some && verdict_of(
        replies[tried].0,
        replies[tried].1,
    ) == LdapVerdict::NextRole {
        law_first_decision_stands(replies, tried + 1);
    }
}

/// Where the mobile service is, and by which header it knows the client.
pub proof fn law_mobile_service_address()
    ensures
        MJW_BASE@ == "https://mjw.hitsz.edu.cn/incoSpringBoot"@,
        BASIC_AUTH@ == "Basic aW5jb246MTIzNDU="@,
{
}

/// The contents of a reply are its fields, each under its own name, and nothing for
/// a part that it lacks.
pub proof fn law_reply_contents(reply: LdapResponse)
    ensures
        reply@.access_token == text::opt_view(reply.access_token),
        reply@.refresh_token == text::opt_view(reply.refresh_token),
        reply.data matches Some(d) ==> {
            &&& reply@.data_name == text::opt_view(d.name)
            &&& reply@.school == text::opt_view(d.school)
            &&& reply@.phone == text::opt_view(d.phone)
            &&& reply@.stutype == text::opt_view(d.stutype)
        },
        reply.data is None ==> reply@.data_name is None && reply@.school is None && reply@.phone
            is None && reply@.stutype is None,
        reply.info matches Some(i) ==> reply@.stu_id == text::opt_view(i.stu_id)
            && reply@.info_name == text::opt_view(i.name),
        reply.info is None ==> reply@.stu_id is None && reply@.info_name is None,
        opt_reply_view(Some(reply)) == Some(reply@),
        opt_reply_view(None) is None,
{
}

/// A reply is accepted exactly where it holds an access token that is not empty,
/// whatever else it says; it is rejected where it holds none and says that the
/// credentials are wrong. A reply that cannot be read is neither.
pub proof fn law_verdicts(reply: LdapView, body: Seq<char>)
    ensures
        verdict_of(Some(reply), body) is Accepted <==> reply.access_token is Some
            && reply.access_token->0.len() > 0,
        verdict_of(Some(reply), body) is Rejected <==> !(reply.access_token is Some
            && reply.access_token->0.len() > 0) && text::holds(body, "用户名或密码错误"@),
        verdict_of(None, body) is NextRole,
{
}

/// Two roles are tried, students first.
pub proof fn law_roles_in_order(tried: int)
    ensures
        role_of(0) == Some("06"@),
        role_of(1) == Some("01"@),
        tried >= 2 ==> role_of(tried) is None,
{
}

/// The person's name counts before the account's.
pub proof fn law_name_of_the_person_counts(reply: LdapView)
    ensures
        reply.data_name is Some ==> name_in(reply) == reply.data_name,
        reply.data_name is None ==> name_in(reply) == reply.info_name,
{
}

} // verus!
