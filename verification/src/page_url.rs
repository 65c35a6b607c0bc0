//! Absolute URLs, held as the text that they serialise to.

use crate::text;
use vstd::prelude::*;

verus! {

/// What `url::Url::parse` makes of `input`, serialised; nothing where it refuses it.
pub uninterp spec fn url_parsed(input: Seq<char>) -> Option<Seq<char>>;

/// What `url::Url::join` makes of `reference` against the URL `base`, serialised;
/// nothing where either is refused.
pub uninterp spec fn url_joined(base: Seq<char>, reference: Seq<char>) -> Option<Seq<char>>;

/// What `url::Url::host_str` says of the URL `input`; nothing where `input` is no
/// URL or has no host.
pub uninterp spec fn url_host(input: Seq<char>) -> Option<Seq<char>>;

/// Calls `url::Url::parse` and serialises what it yields. The result depends on
/// the text alone and has the name `url_parsed`.
#[verifier::external_body]
fn parse_url(input: &str) -> (r: Option<String>)
    ensures
        text::opt_view(r) == url_parsed(input@),
{
    url::Url::parse(input).ok().map(|u| u.to_string())
}

/// Calls `url::Url::join` on the URL that `base` spells and serialises what it
/// yields. The result depends on the two texts alone and has the name `url_joined`.
#[verifier::external_body]
fn join_url(base: &str, reference: &str) -> (r: Option<String>)
    ensures
        text::opt_view(r) == url_joined(base@, reference@),
{
    match url::Url::parse(base) {
        Ok(b) => b.join(reference).ok().map(|u| u.to_string()),
        Err(_) => None,
    }
}

/// Calls `url::Url::host_str` on the URL that `input` spells. The result depends
/// on the text alone and has the name `url_host`.
#[verifier::external_body]
fn read_host(input: &str) -> (r: Option<String>)
    ensures
        text::opt_view(r) == url_host(input@),
{
    match url::Url::parse(input) {
        Ok(u) => u.host_str().map(str::to_owned),
        Err(_) => None,
    }
}

/// The host of the URL that `input` spells, if it spells one that has a host.
pub fn host_of(input: &str) -> (r: Option<String>)
    ensures
        text::opt_view(r) == url_host(input@),
{
    read_host(input)
}

/// An absolute URL.
#[derive(Debug)]
pub struct PageUrl {
    text: String,
}

impl Clone for PageUrl {
    fn clone(&self) -> (r: PageUrl)
        ensures
            r@ == self@,
    {
        PageUrl { text: self.text.clone() }
    }
}

impl View for PageUrl {
    type V = Seq<char>;

    closed spec fn view(&self) -> Seq<char> {
        self.text@
    }
}

/// The characters of an optional URL.
pub open spec fn opt_url_view(url: Option<PageUrl>) -> Option<Seq<char>> {
    match url {
        Some(u) => Some(u@),
        None => None,
    }
}

impl PageUrl {
    /// Reads an absolute URL.
    pub fn parse(input: &str) -> (r: Option<PageUrl>)
        ensures
            opt_url_view(r) == url_parsed(input@),
    {
        match parse_url(input) {
            Some(text) => Some(PageUrl { text }),
            None => None,
        }
    }

    /// The URL that `reference` means on the page at this URL.
    pub fn join(&self, reference: &str) -> (r: Option<PageUrl>)
        ensures
            opt_url_view(r) == url_joined(self@, reference@),
    {
        match join_url(self.text.as_str(), reference) {
            Some(text) => Some(PageUrl { text }),
            None => None,
        }
    }

    /// The URL as text.
    pub fn as_str(&self) -> (r: &str)
        ensures
            r@ == self@,
    {
        self.text.as_str()
    }

    /// The host that the URL names.
    pub fn host_str(&self) -> (r: Option<String>)
        ensures
            text::opt_view(r) == url_host(self@),
    {
        read_host(self.text.as_str())
    }
}

// ── laws ────────────────────────────────────────────────────────────────────
/// An optional URL is there or not as its text is.
pub proof fn law_optional_url_shows(u: PageUrl)
    ensures
        opt_url_view(Some(u)) == Some(u@),
        opt_url_view(None) is None,
{
}

} // verus!
