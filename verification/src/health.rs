//! Judges what the notice service answers to a health check.

use crate::json;
use crate::json::{JsonObject, JsonView};
use crate::text;
use crate::text::{same_text, to_chars};
use vstd::prelude::*;
use vstd::string::*;

verus! {

/// How much of a reply is shown where its status is bad.
pub const EXCERPT_CHARS: usize = 100;

/// What is wrong with the service.
#[derive(Debug, Clone)]
pub enum HealthFault {
    /// The HTTP status is no success; the reply starts with `excerpt`.
    BadStatus { status: String, excerpt: String },
    /// The reply is no JSON text.
    NotJson,
    /// The service says that it is not well.
    Unwell { status: String, notices: u64 },
}

/// The first characters of a reply.
pub open spec fn excerpt_of(body: Seq<char>) -> Seq<char> {
    if body.len() <= EXCERPT_CHARS {
        body
    } else {
        body.take(EXCERPT_CHARS as int)
    }
}

/// The state that the reply gives.
pub open spec fn state_of(reply: Map<Seq<char>, JsonView>) -> Seq<char> {
    match json::text_member(reply, "status"@) {
        Some(s) => s,
        None => "unknown"@,
    }
}

/// The number of notices that the reply gives.
pub open spec fn notices_of(reply: Map<Seq<char>, JsonView>) -> u64 {
    match json::count_member(reply, "notices"@) {
        Some(n) => n,
        None => 0,
    }
}

fn excerpt(body: &str) -> (r: String)
    ensures
        r@ == excerpt_of(body@),
{
    let n: usize = to_chars(body).len();
    if n <= EXCERPT_CHARS {
        body.to_owned()
    } else {
        body.substring_char(0, EXCERPT_CHARS).to_owned()
    }
}

/// Judges the members of a reply: the number of notices where the service is well.
pub fn judge_reply(reply: &JsonObject) -> (r: Result<u64, HealthFault>)
    ensures
        match r {
            Ok(n) => state_of(reply@) == "ok"@ && n == notices_of(reply@),
            Err(HealthFault::Unwell { status, notices }) => state_of(reply@) != "ok"@ && status@
                == state_of(reply@) && notices == notices_of(reply@),
            Err(_) => false,
        },
{
    let status: String = match reply.text("status") {
        Some(s) => s,
        None => "unknown".to_owned(),
    };
    let notices: u64 = match reply.count("notices") {
        Some(n) => n,
        None => 0,
    };
    if same_text(status.as_str(), "ok") {
        Ok(notices)
    } else {
        Err(HealthFault::Unwell { status, notices })
    }
}

/// Judges a reply to the health check: the number of notices where the service is
/// well.
pub fn check_health(success: bool, status: &str, body: &str) -> (r: Result<u64, HealthFault>)
    ensures
        match r {
            Ok(n) => success && (json::json_members(body@) matches Some(reply) && state_of(reply)
                == "ok"@ && n == notices_of(reply)),
            Err(HealthFault::BadStatus { status: s, excerpt: e }) => !success && s@ == status@
                && e@ == excerpt_of(body@),
            Err(HealthFault::NotJson) => success && json::json_members(body@) is None,
            Err(HealthFault::Unwell { status: s, notices }) => success && (json::json_members(
                body@,
            ) matches Some(reply) && state_of(reply) != "ok"@ && s@ == state_of(reply) && notices
                == notices_of(reply)),
        },
{
    if !success {
        return Err(
            HealthFault::BadStatus { status: status.to_owned(), excerpt: excerpt(body) },
        );
    }
    match JsonObject::parse(body) {
        Some(reply) => judge_reply(&reply),
        None => Err(HealthFault::NotJson),
    }
}

/// An excerpt is the start of the reply, and never long.
pub proof fn law_excerpt_is_a_start(body: Seq<char>)
    ensures
        excerpt_of(body).len() <= EXCERPT_CHARS,
        text::occurs_at(body, excerpt_of(body), 0),
{
    let e = excerpt_of(body);
    assert(body.subrange(0, e.len() as int) =~= e);
}

/// A reply of up to a hundred characters is shown whole, and of a longer one the
/// first hundred are.
pub proof fn law_excerpt_is_exact(body: Seq<char>, rest: Seq<char>)
    ensures
        body.len() <= 100 ==> excerpt_of(body) == body,
        body.len() == 100 ==> excerpt_of(body + rest) == body,
{
    if body.len() == 100 {
        assert((body + rest).take(100) =~= body);
        if rest.len() == 0 {
            assert(body + rest =~= body);
        }
    }
}

/// A reply gives its state and its number of notices under these names; a state
/// that it does not give is unknown, and a number 0.
pub proof fn law_reply_is_read(reply: Map<Seq<char>, JsonView>, state: Seq<char>, notices: u64)
    ensures
        state_of(reply.insert("status"@, JsonView::Text(state))) == state,
        notices_of(reply.insert("notices"@, JsonView::Count(notices))) == notices,
        !reply.contains_key("status"@) || !(reply["status"@] is Text) ==> state_of(reply)
            == "unknown"@,
        !reply.contains_key("notices"@) || !(reply["notices"@] is Count) ==> notices_of(reply) == 0,
{
}

} // verus!
