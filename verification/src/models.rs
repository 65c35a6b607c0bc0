//! What the fetcher hands out: the student's token, notices and page snapshots.

use crate::cookies::CookieMap;
use crate::text;
use vstd::prelude::*;

verus! {

/// What a student studies for.
#[derive(Debug, Clone, Copy, PartialEq, Eq, Structural)]
pub enum StudentType {
    Undergrad,
    Grad,
}

impl StudentType {
    /// The code that the profile service uses for this type.
    pub open spec fn code(self) -> Seq<char> {
        match self {
            StudentType::Undergrad => "1"@,
            StudentType::Grad => "2"@,
        }
    }

    /// The word that stands for this type in tokens.
    pub open spec fn word(self) -> Seq<char> {
        match self {
            StudentType::Undergrad => "undergrad"@,
            StudentType::Grad => "grad"@,
        }
    }

    /// The code that the profile service uses for this type.
    pub fn as_code(&self) -> (r: &'static str)
        ensures
            r@ == self.code(),
    {
        match self {
            StudentType::Undergrad => "1",
            StudentType::Grad => "2",
        }
    }

    /// The word that stands for this type in tokens.
    pub fn as_word(&self) -> (r: &'static str)
        ensures
            r@ == self.word(),
    {
        match self {
            StudentType::Undergrad => "undergrad",
            StudentType::Grad => "grad",
        }
    }
}

/// Who is logged in, with the session's cookies.
#[derive(Debug, Clone)]
pub struct EasToken {
    pub cookies: CookieMap,
    pub username: String,
    pub password: String,
    pub name: Option<String>,
    pub stutype: StudentType,
    pub picture: Option<String>,
    pub id: Option<String>,
    pub stu_id: Option<String>,
    pub school: Option<String>,
    pub major: Option<String>,
    pub grade: Option<String>,
    pub sfxsx: Option<String>,
    pub email: Option<String>,
    pub phone: Option<String>,
}

/// The contents of an `EasToken`.
pub struct EasTokenView {
    pub cookies: Map<Seq<char>, Seq<char>>,
    pub username: Seq<char>,
    pub password: Seq<char>,
    pub name: Option<Seq<char>>,
    pub stutype: StudentType,
    pub picture: Option<Seq<char>>,
    pub id: Option<Seq<char>>,
    pub stu_id: Option<Seq<char>>,
    pub school: Option<Seq<char>>,
    pub major: Option<Seq<char>>,
    pub grade: Option<Seq<char>>,
    pub sfxsx: Option<Seq<char>>,
    pub email: Option<Seq<char>>,
    pub phone: Option<Seq<char>>,
}

impl View for EasToken {
    type V = EasTokenView;

    open spec fn view(&self) -> EasTokenView {
        EasTokenView {
            cookies: self.cookies@,
            username: self.username@,
            password: self.password@,
            name: text::opt_view(self.name),
            stutype: self.stutype,
            picture: text::opt_view(self.picture),
            id: text::opt_view(self.id),
            stu_id: text::opt_view(self.stu_id),
            school: text::opt_view(self.school),
            major: text::opt_view(self.major),
            grade: text::opt_view(self.grade),
            sfxsx: text::opt_view(self.sfxsx),
            email: text::opt_view(self.email),
            phone: text::opt_view(self.phone),
        }
    }
}

/// A link of a page: its text and where it leads.
#[derive(Debug, Clone)]
pub struct ExtractedLink {
    pub title: String,
    pub url: String,
}

/// The contents of an `ExtractedLink`.
pub struct LinkView {
    pub title: Seq<char>,
    pub url: Seq<char>,
}

impl View for ExtractedLink {
    type V = LinkView;

    open spec fn view(&self) -> LinkView {
        LinkView { title: self.title@, url: self.url@ }
    }
}

/// One notice of the portal's list.
#[derive(Debug)]
pub struct NoticeItem {
    pub title: String,
    pub url: String,
    pub date: String,
    pub department: String,
    pub category: String,
}

impl Clone for NoticeItem {
    fn clone(&self) -> (r: NoticeItem)
        ensures
            r@ == self@,
    {
        NoticeItem {
            title: self.title.clone(),
            url: self.url.clone(),
            date: self.date.clone(),
            department: self.department.clone(),
            category: self.category.clone(),
        }
    }
}

/// The contents of a `NoticeItem`.
pub struct NoticeView {
    pub title: Seq<char>,
    pub url: Seq<char>,
    pub date: Seq<char>,
    pub department: Seq<char>,
    pub category: Seq<char>,
}

impl View for NoticeItem {
    type V = NoticeView;

    open spec fn view(&self) -> NoticeView {
        NoticeView {
            title: self.title@,
            url: self.url@,
            date: self.date@,
            department: self.department@,
            category: self.category@,
        }
    }
}

/// The contents of each notice.
pub open spec fn notice_views(notices: Seq<NoticeItem>) -> Seq<NoticeView> {
    Seq::new(notices.len(), |i: int| notices[i]@)
}

/// The contents of each link.
pub open spec fn link_views(links: Seq<ExtractedLink>) -> Seq<LinkView> {
    Seq::new(links.len(), |i: int| links[i]@)
}

/// The notices of a date range, and how many list pages were read for them.
#[derive(Debug, Clone)]
pub struct NoticeList {
    pub notices: Vec<NoticeItem>,
    pub pages_fetched: usize,
}

/// A page as it was fetched, with its title and its links.
#[derive(Debug, Clone)]
pub struct PageSnapshot {
    pub final_url: String,
    pub title: Option<String>,
    pub links: Vec<ExtractedLink>,
    pub html: String,
}

/// The contents of a `PageSnapshot`.
pub struct SnapshotView {
    pub final_url: Seq<char>,
    pub title: Option<Seq<char>>,
    pub links: Seq<LinkView>,
    pub html: Seq<char>,
}

impl View for PageSnapshot {
    type V = SnapshotView;

    open spec fn view(&self) -> SnapshotView {
        SnapshotView {
            final_url: self.final_url@,
            title: text::opt_view(self.title),
            links: link_views(self.links@),
            html: self.html@,
        }
    }
}

/// What one run of the fetcher yields.
#[derive(Debug, Clone)]
pub struct AuthenticatedFetchResult {
    pub token: EasToken,
    pub fetched_page: PageSnapshot,
    pub today_notices: Option<NoticeList>,
}

// ── laws ────────────────────────────────────────────────────────────────────
/// Undergraduates have the code 1 and graduates the code 2, and each type has its
/// word.
pub proof fn law_student_types_are_told_apart(t: StudentType)
    ensures
        t.code() == "1"@ <==> t is Undergrad,
        t.code() == "2"@ <==> t is Grad,
        t.word() == "undergrad"@ <==> t is Undergrad,
        t.word() == "grad"@ <==> t is Grad,
{
    reveal_strlit("1");
    reveal_strlit("2");
    reveal_strlit("undergrad");
    reveal_strlit("grad");
    assert("1"@[0] != "2"@[0]);
    assert("undergrad"@.len() != "grad"@.len());
}

/// The contents of a token are its fields, each under its own name.
pub proof fn law_token_contents(t: EasToken)
    ensures
        t@.cookies == t.cookies@,
        t@.username == t.username@,
        t@.password == t.password@,
        t@.name == text::opt_view(t.name),
        t@.stutype == t.stutype,
        t@.picture == text::opt_view(t.picture),
        t@.id == text::opt_view(t.id),
        t@.stu_id == text::opt_view(t.stu_id),
        t@.school == text::opt_view(t.school),
        t@.major == text::opt_view(t.major),
        t@.grade == text::opt_view(t.grade),
        t@.sfxsx == text::opt_view(t.sfxsx),
        t@.email == text::opt_view(t.email),
        t@.phone == text::opt_view(t.phone),
{
}

/// The contents of notices are their fields, one notice for each, in order.
pub proof fn law_notice_contents(notices: Seq<NoticeItem>)
    ensures
        notice_views(notices).len() == notices.len(),
        forall|i: int|
            0 <= i < notices.len() ==> {
                &&& (#[trigger] notice_views(notices)[i]).title == notices[i].title@
                &&& notice_views(notices)[i].url == notices[i].url@
                &&& notice_views(notices)[i].date == notices[i].date@
                &&& notice_views(notices)[i].department == notices[i].department@
                &&& notice_views(notices)[i].category == notices[i].category@
            },
{
}

/// The contents of a snapshot are its fields, one link for each, in order.
pub proof fn law_snapshot_contents(s: PageSnapshot)
    ensures
        s@.final_url == s.final_url@,
        s@.title == text::opt_view(s.title),
        s@.html == s.html@,
        s@.links == link_views(s.links@),
        link_views(s.links@).len() == s.links@.len(),
        forall|i: int|
            0 <= i < s.links@.len() ==> (#[trigger] link_views(s.links@)[i]).title
                == s.links@[i].title@ && link_views(s.links@)[i].url == s.links@[i].url@,
{
}

} // verus!
