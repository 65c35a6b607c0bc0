//! The token of a login at the mobile service over plain HTTP.

use crate::hit_auth;
use crate::ldap;
use crate::ldap::{judge_reply, LdapResponse, LdapVerdict, LdapView};
use crate::text;
use vstd::prelude::*;

verus! {

/// Who is logged in at the mobile service.
#[derive(Debug, Clone)]
pub struct MjwToken {
    pub access_token: String,
    pub refresh_token: Option<String>,
    pub name: Option<String>,
    pub school: Option<String>,
    pub stu_id: Option<String>,
    pub stutype: Option<String>,
    pub phone: Option<String>,
}

/// The contents of a `MjwToken`.
pub struct MjwTokenView {
    pub access_token: Seq<char>,
    pub refresh_token: Option<Seq<char>>,
    pub name: Option<Seq<char>>,
    pub school: Option<Seq<char>>,
    pub stu_id: Option<Seq<char>>,
    pub stutype: Option<Seq<char>>,
    pub phone: Option<Seq<char>>,
}

impl View for MjwToken {
    type V = MjwTokenView;

    open spec fn view(&self) -> MjwTokenView {
        MjwTokenView {
            access_token: self.access_token@,
            refresh_token: text::opt_view(self.refresh_token),
            name: text::opt_view(self.name),
            school: text::opt_view(self.school),
            stu_id: text::opt_view(self.stu_id),
            stutype: text::opt_view(self.stutype),
            phone: text::opt_view(self.phone),
        }
    }
}

/// The token with the access token `access_token`, from the reply that was
/// accepted.
pub open spec fn mjw_token_of(access_token: Seq<char>, reply: LdapView) -> MjwTokenView {
    MjwTokenView {
        access_token,
        refresh_token: reply.refresh_token,
        name: ldap::name_in(reply),
        school: reply.school,
        stu_id: reply.stu_id,
        stutype: reply.stutype,
        phone: reply.phone,
    }
}

/// What a reply of the mobile service leads to.
#[derive(Debug, Clone)]
pub enum MjwLdapStep {
    Token(MjwToken),
    Rejected,
    NextRole,
}

fn mjw_token_from(access_token: String, reply: LdapResponse) -> (r: MjwToken)
    ensures
        r@ == mjw_token_of(access_token@, reply@),
{
    let (data_name, school, phone, stutype): (
        Option<String>,
        Option<String>,
        Option<String>,
        Option<String>,
    ) = match reply.data {
        Some(d) => (d.name, d.school, d.phone, d.stutype),
        None => (None, None, None, None),
    };
    let (stu_id, info_name): (Option<String>, Option<String>) = match reply.info {
        Some(i) => (i.stu_id, i.name),
        None => (None, None),
    };
    MjwToken {
        access_token,
        refresh_token: reply.refresh_token,
        name: match data_name {
            Some(n) => Some(n),
            None => info_name,
        },
        school,
        stu_id,
        stutype,
        phone,
    }
}

/// What follows from the reply `body` of the mobile service, which parses to
/// `reply` if it does.
pub fn mjw_ldap_step(reply: Option<LdapResponse>, body: &str) -> (r: MjwLdapStep)
    ensures
        match ldap::verdict_of(ldap::opt_reply_view(reply), body@) {
            LdapVerdict::Accepted => r matches MjwLdapStep::Token(token) && token@ == mjw_token_of(
                reply->0@.access_token->0,
                reply->0@,
            ),
            LdapVerdict::Rejected => r is Rejected,
            LdapVerdict::NextRole => r is NextRole,
        },
{
    match judge_reply(&reply, body) {
        LdapVerdict::Accepted => match reply {
            Some(ldap) => match &ldap.access_token {
                Some(t) => {
                    let access_token: String = t.clone();
                    MjwLdapStep::Token(mjw_token_from(access_token, ldap))
                },
                None => MjwLdapStep::NextRole,
            },
            None => MjwLdapStep::NextRole,
        },
        LdapVerdict::Rejected => MjwLdapStep::Rejected,
        LdapVerdict::NextRole => MjwLdapStep::NextRole,
    }
}

/// The two tokens that are made of one accepted reply say the same of the student
/// and of the session, and the access token is not empty.
pub proof fn law_tokens_agree(username: Seq<char>, reply: LdapView, body: Seq<char>)
    requires
        ldap::verdict_of(Some(reply), body) == LdapVerdict::Accepted,
    ensures
        ({
            let mjw = mjw_token_of(reply.access_token->0, reply);
            let hit = hit_auth::hit_token_of(username, reply);
            &&& mjw.access_token.len() > 0
            &&& hit.access_token == Some(mjw.access_token)
            &&& hit.refresh_token == mjw.refresh_token
            &&& hit.name == mjw.name
            &&& hit.school == mjw.school
            &&& hit.student_id == mjw.stu_id
            &&& hit.stutype == mjw.stutype
            &&& hit.phone == mjw.phone
        }),
{
}

/// The contents of a token are its fields, each under its own name.
pub proof fn law_mjw_token_contents(t: MjwToken)
    ensures
        t@.access_token == t.access_token@,
        t@.refresh_token == text::opt_view(t.refresh_token),
        t@.name == text::opt_view(t.name),
        t@.school == text::opt_view(t.school),
        t@.stu_id == text::opt_view(t.stu_id),
        t@.stutype == text::opt_view(t.stutype),
        t@.phone == text::opt_view(t.phone),
{
}

/// A token says of the student and of the session what the reply says, field by
/// field.
pub proof fn law_mjw_reply_reads_back(access_token: Seq<char>, reply: LdapView)
    ensures
        ({
            let t = mjw_token_of(access_token, reply);
            &&& t.access_token == access_token
            &&& t.refresh_token == reply.refresh_token
            &&& reply.data_name is Some ==> t.name == reply.data_name
            &&& reply.data_name is None ==> t.name == reply.info_name
            &&& t.school == reply.school
            &&& t.stu_id == reply.stu_id
            &&& t.stutype == reply.stutype
            &&& t.phone == reply.phone
        }),
{
}

} // verus!
