//! Reads the portal's pages: title and links of any page, the notices of a list
//! page, and the link to the list's next page.

use crate::dom;
use crate::dom::{select_all, select_first_inside, Element, ElementView};
use crate::models;
use crate::models::{ExtractedLink, LinkView, NoticeItem, NoticeView, PageSnapshot, SnapshotView};
use crate::page_url;
use crate::page_url::PageUrl;
use crate::text;
use crate::text::{contains, copy_opt, find_chars, squeeze, to_chars, trim};
use vstd::prelude::*;
use vstd::string::*;

verus! {

/// A link as it stands on a page: its text, and the URL that it leads to if its
/// reference can be resolved.
#[derive(Debug, Clone)]
pub struct Anchor {
    pub text: String,
    pub target: Option<String>,
}

/// The contents of an `Anchor`.
pub struct AnchorView {
    pub text: Seq<char>,
    pub target: Option<Seq<char>>,
}

impl View for Anchor {
    type V = AnchorView;

    open spec fn view(&self) -> AnchorView {
        AnchorView { text: self.text@, target: text::opt_view(self.target) }
    }
}

/// The contents of each anchor.
pub open spec fn anchor_views(anchors: Seq<Anchor>) -> Seq<AnchorView> {
    Seq::new(anchors.len(), |i: int| anchors[i]@)
}

/// The element as a link of the page at `base`.
pub open spec fn anchor_on(element: ElementView, base: Seq<char>) -> AnchorView {
    AnchorView {
        text: element.text,
        target: match element.href {
            Some(href) => page_url::url_joined(base, href),
            None => None,
        },
    }
}

/// The elements as links of the page at `base`.
pub open spec fn anchors_on(elements: Seq<ElementView>, base: Seq<char>) -> Seq<AnchorView> {
    Seq::new(elements.len(), |i: int| anchor_on(elements[i], base))
}

/// Resolves the reference of a link against the page that it stands on.
pub fn resolve_anchor(element: &Element, base: &PageUrl) -> (r: Anchor)
    ensures
        r@ == anchor_on(element@, base@),
{
    let target: Option<String> = match &element.href {
        Some(href) => match base.join(href.as_str()) {
            Some(url) => Some(url.as_str().to_owned()),
            None => None,
        },
        None => None,
    };
    Anchor { text: element.text.clone(), target }
}

fn resolve_anchors(elements: &Vec<Element>, base: &PageUrl) -> (r: Vec<Anchor>)
    ensures
        anchor_views(r@) == anchors_on(dom::element_views(elements@), base@),
{
    let mut out: Vec<Anchor> = Vec::new();
    let mut i: usize = 0;
    while i < elements.len()
        invariant
            i <= elements@.len(),
            out@.len() == i,
            forall|j: int| 0 <= j < i ==> (#[trigger] out@[j])@ == anchor_on(elements@[j]@, base@),
        decreases elements@.len() - i,
    {
        out.push(resolve_anchor(&elements[i], base));
        i = i + 1;
    }
    assert(anchor_views(out@) =~= anchors_on(dom::element_views(elements@), base@));
    out
}

// ── page snapshot ───────────────────────────────────────────────────────────
/// The page's title: the trimmed text of the first title element, unless empty.
pub open spec fn title_among(titles: Seq<ElementView>) -> Option<Seq<char>> {
    if titles.len() > 0 && text::trimmed(titles[0].text).len() > 0 {
        Some(text::trimmed(titles[0].text))
    } else {
        None
    }
}

/// The link that an anchor makes: none without a text or without a target.
pub open spec fn link_of(anchor: AnchorView) -> Option<LinkView> {
    match anchor.target {
        Some(url) => if text::squeezed(anchor.text).len() > 0 {
            Some(LinkView { title: text::squeezed(anchor.text), url })
        } else {
            None
        },
        None => None,
    }
}

/// The links that the anchors make, in order.
pub open spec fn links_of(anchors: Seq<AnchorView>) -> Seq<LinkView>
    decreases anchors.len(),
{
    if anchors.len() == 0 {
        Seq::empty()
    } else {
        let before = links_of(anchors.drop_last());
        match link_of(anchors.last()) {
            Some(link) => before.push(link),
            None => before,
        }
    }
}

/// The snapshot of the page `html` at `url`.
pub open spec fn snapshot_of(url: Seq<char>, html: Seq<char>) -> SnapshotView {
    SnapshotView {
        final_url: url,
        title: title_among(dom::selected(html, "title"@)),
        links: links_of(anchors_on(dom::selected(html, "a[href]"@), url)),
        html,
    }
}

/// The page's title: the trimmed text of the first title element, unless empty.
pub fn page_title(titles: &Vec<Element>) -> (r: Option<String>)
    ensures
        text::opt_view(r) == title_among(dom::element_views(titles@)),
{
    if titles.len() == 0 {
        return None;
    }
    let title: String = trim(titles[0].text.as_str());
    if title.as_str().is_empty() {
        None
    } else {
        Some(title)
    }
}

/// The links that the anchors make, in order: those with a text and a target.
pub fn collect_links(anchors: &Vec<Anchor>) -> (r: Vec<ExtractedLink>)
    ensures
        models::link_views(r@) == links_of(anchor_views(anchors@)),
{
    let mut out: Vec<ExtractedLink> = Vec::new();
    let mut i: usize = 0;
    let ghost all = anchor_views(anchors@);
    assert(models::link_views(out@) =~= links_of(all.take(0)));
    while i < anchors.len()
        invariant
            i <= anchors@.len(),
            all == anchor_views(anchors@),
            models::link_views(out@) == links_of(all.take(i as int)),
        decreases anchors@.len() - i,
    {
        let ghost before = out@;
        assert(all.take(i + 1).drop_last() =~= all.take(i as int));
        assert(all.take(i + 1).last() == anchors@[i as int]@);
        let title: String = squeeze(anchors[i].text.as_str());
        if !title.as_str().is_empty() {
            if let Some(url) = &anchors[i].target {
                let link = ExtractedLink { title, url: url.clone() };
                out.push(link);
                assert(models::link_views(out@) =~= models::link_views(before).push(link@));
            }
        }
        i = i + 1;
    }
    assert(all.take(all.len() as int) =~= all);
    out
}

/// The title, the links and the text of the page `html` at `final_url`.
pub fn extract_page_snapshot(final_url: &PageUrl, html: &str) -> (r: PageSnapshot)
    ensures
        r@ == snapshot_of(final_url@, html@),
{
    let title: Option<String> = page_title(&select_all(html, "title"));
    let anchors: Vec<Anchor> = resolve_anchors(&select_all(html, "a[href]"), final_url);
    let links: Vec<ExtractedLink> = collect_links(&anchors);
    PageSnapshot { final_url: final_url.as_str().to_owned(), title, links, html: html.to_owned() }
}

// ── next page ───────────────────────────────────────────────────────────────
/// The label of a link to the next page.
pub open spec fn is_next_label(text: Seq<char>) -> bool {
    text::holds(text, "下页"@) || text::holds(text, "下一页"@)
}

/// The reference of the first link that is labelled as leading to the next page.
pub open spec fn next_href(anchors: Seq<ElementView>) -> Option<Seq<char>>
    decreases anchors.len(),
{
    if anchors.len() == 0 {
        None
    } else if is_next_label(anchors[0].text) {
        anchors[0].href
    } else {
        next_href(anchors.drop_first())
    }
}

/// The URL of the next page, for the page `html` at `base`.
pub open spec fn next_page_of(html: Seq<char>, base: Seq<char>) -> Option<Seq<char>> {
    match next_href(dom::selected(html, "a[href]"@)) {
        Some(href) => page_url::url_joined(base, href),
        None => None,
    }
}

/// The reference of the first link that is labelled as leading to the next page.
pub fn next_page_href(anchors: &Vec<Element>) -> (r: Option<String>)
    ensures
        text::opt_view(r) == next_href(dom::element_views(anchors@)),
        r is Some ==> exists|i: int|
            0 <= i < anchors@.len() && text::opt_view((#[trigger] anchors@[i]).href)
                == text::opt_view(r) && (text::holds(anchors@[i].text@, "下页"@) || text::holds(
                anchors@[i].text@,
                "下一页"@,
            )) && forall|j: int|
                0 <= j < i ==> !text::holds((#[trigger] anchors@[j]).text@, "下页"@)
                    && !text::holds(anchors@[j].text@, "下一页"@),
{
    let ghost all = dom::element_views(anchors@);
    let mut i: usize = 0;
    assert(all.skip(0) =~= all);
    while i < anchors.len()
        invariant
            i <= anchors@.len(),
            all == dom::element_views(anchors@),
            next_href(all) == next_href(all.skip(i as int)),
            forall|j: int|
                0 <= j < i ==> !text::holds((#[trigger] anchors@[j]).text@, "下页"@)
                    && !text::holds(anchors@[j].text@, "下一页"@),
        decreases anchors@.len() - i,
    {
        let text: &str = anchors[i].text.as_str();
        assert(all.skip(i as int)[0] == anchors@[i as int]@);
        if contains(text, "下页") || contains(text, "下一页") {
            return copy_opt(&anchors[i].href);
        }
        assert(all.skip(i as int).drop_first() =~= all.skip(i + 1));
        i = i + 1;
    }
    None
}

/// The URL of the "next page" link, if there is one.
pub fn find_next_page_url(html: &str, base_url: &PageUrl) -> (r: Option<PageUrl>)
    ensures
        page_url::opt_url_view(r) == next_page_of(html@, base_url@),
{
    match next_page_href(&select_all(html, "a[href]")) {
        Some(href) => base_url.join(href.as_str()),
        None => None,
    }
}

// ── notices ─────────────────────────────────────────────────────────────────
/// A row of the notice list: its whole text, the text of its first span, and its
/// first link.
#[derive(Debug, Clone)]
pub struct NoticeRow {
    pub text: String,
    pub span: Option<String>,
    pub anchor: Option<Anchor>,
}

/// The contents of a `NoticeRow`.
pub struct RowView {
    pub text: Seq<char>,
    pub span: Option<Seq<char>>,
    pub anchor: Option<AnchorView>,
}

impl View for NoticeRow {
    type V = RowView;

    open spec fn view(&self) -> RowView {
        RowView {
            text: self.text@,
            span: text::opt_view(self.span),
            anchor: match self.anchor {
                Some(a) => Some(a@),
                None => None,
            },
        }
    }
}

/// The contents of each row.
pub open spec fn row_views(rows: Seq<NoticeRow>) -> Seq<RowView> {
    Seq::new(rows.len(), |i: int| rows[i]@)
}

/// A decimal digit.
pub open spec fn is_digit(c: char) -> bool {
    '0' <= c <= '9'
}

/// Four digits, a dash, two digits, a dash and two digits, as in `2026-06-16`.
pub open spec fn is_date_like(s: Seq<char>) -> bool {
    &&& s.len() == 10
    &&& s[4] == '-'
    &&& s[7] == '-'
    &&& forall|i: int| 0 <= i < s.len() && i != 4 && i != 7 ==> is_digit(#[trigger] s[i])
}

/// A span's department and date. The date is the last ten characters of the
/// trimmed span where they read like one; else there is none, and the whole
/// trimmed span is the department.
pub open spec fn span_parts(raw: Seq<char>) -> (Seq<char>, Seq<char>) {
    let t = text::trimmed(raw);
    if t.len() >= 10 && is_date_like(t.skip(t.len() - 10)) {
        (text::trimmed(t.take(t.len() - 10)), t.skip(t.len() - 10))
    } else {
        (t, Seq::empty())
    }
}

/// `text` without `prefix`, where it starts with it.
pub open spec fn without_prefix(text: Seq<char>, prefix: Seq<char>) -> Seq<char> {
    if text::occurs_at(text, prefix, 0) {
        text.skip(prefix.len() as int)
    } else {
        text
    }
}

/// `text` without `suffix`, where it ends with it.
pub open spec fn without_suffix(text: Seq<char>, suffix: Seq<char>) -> Seq<char> {
    if text::occurs_at(text, suffix, text.len() - suffix.len()) {
        text.take(text.len() - suffix.len())
    } else {
        text
    }
}

/// What of `text` lies from the first `【` to the first `】` behind it, or to the
/// end without one; nothing without a `【`.
pub open spec fn bracketed(text: Seq<char>) -> Seq<char> {
    match text::find_from(text, seq!['【'], 0) {
        Some(start) => match text::find_from(text, seq!['】'], start) {
            Some(end) => text.subrange(start, end + 1),
            None => text.skip(start),
        },
        None => Seq::empty(),
    }
}

/// The bracket tag of a row's text, once the span in front and the title behind
/// are taken off.
pub open spec fn tag_of(full: Seq<char>, span: Seq<char>, title: Seq<char>) -> Seq<char> {
    let behind = text::trimmed(without_prefix(full, span));
    let between = text::trimmed(without_suffix(behind, title));
    text::trimmed(bracketed(between))
}

/// The title and the URL that a row's link gives; both empty where the row has no
/// link or the link no target.
pub open spec fn row_link(anchor: Option<AnchorView>) -> (Seq<char>, Seq<char>) {
    match anchor {
        Some(a) => match a.target {
            Some(url) => (text::trimmed(a.text), url),
            None => (Seq::empty(), Seq::empty()),
        },
        None => (Seq::empty(), Seq::empty()),
    }
}

/// The notice that a row holds: none without a date or without a title.
pub open spec fn notice_of(row: RowView) -> Option<NoticeView> {
    let span = match row.span {
        Some(s) => s,
        None => Seq::empty(),
    };
    let (department, date) = span_parts(span);
    let (title, url) = row_link(row.anchor);
    if date.len() > 0 && title.len() > 0 {
        Some(
            NoticeView {
                title,
                url,
                date,
                department,
                category: tag_of(text::trimmed(row.text), span, title),
            },
        )
    } else {
        None
    }
}

/// The notices that the rows hold, in order.
pub open spec fn notices_of(rows: Seq<RowView>) -> Seq<NoticeView>
    decreases rows.len(),
{
    if rows.len() == 0 {
        Seq::empty()
    } else {
        let before = notices_of(rows.drop_last());
        match notice_of(rows.last()) {
            Some(notice) => before.push(notice),
            None => before,
        }
    }
}

/// The rows of the notice list on the page `html` at `base`.
pub open spec fn rows_on(html: Seq<char>, base: Seq<char>) -> Seq<RowView> {
    let list = dom::selected(html, ".Newslist ul li"@);
    let spans = dom::first_inside(html, ".Newslist ul li"@, "span"@);
    let links = dom::first_inside(html, ".Newslist ul li"@, "a[href]"@);
    Seq::new(
        list.len(),
        |i: int|
            RowView {
                text: list[i].text,
                span: match spans[i] {
                    Some(e) => Some(e.text),
                    None => None,
                },
                anchor: match links[i] {
                    Some(e) => Some(anchor_on(e, base)),
                    None => None,
                },
            },
    )
}

/// The notices on the list page `html` at `base`.
pub open spec fn notices_on(html: Seq<char>, base: Seq<char>) -> Seq<NoticeView> {
    notices_of(rows_on(html, base))
}

fn reads_like_date(cs: &Vec<char>, from: usize) -> (r: bool)
    requires
        from <= cs@.len(),
    ensures
        r == is_date_like(cs@.skip(from as int)),
{
    let ghost tail = cs@.skip(from as int);
    let n: usize = cs.len();
    if n - from != 10 {
        return false;
    }
    let mut i: usize = 0;
    while i < 10
        invariant
            from + 10 == n == cs@.len(),
            tail == cs@.skip(from as int),
            i <= 10,
            i > 4 ==> tail[4] == '-',
            i > 7 ==> tail[7] == '-',
            forall|j: int| 0 <= j < i && j != 4 && j != 7 ==> is_digit(#[trigger] tail[j]),
        decreases 10 - i,
    {
        let c: char = cs[from + i];
        assert(tail[i as int] == c);
        if i == 4 || i == 7 {
            if c != '-' {
                return false;
            }
        } else if !('0' <= c && c <= '9') {
            return false;
        }
        i = i + 1;
    }
    true
}

/// Splits a span like "人力资源处   2026-06-03" into department and date.
pub fn split_span(raw: &str) -> (r: (String, String))
    ensures
        (r.0@, r.1@) == span_parts(raw@),
{
    let t: String = trim(raw);
    let cs: Vec<char> = to_chars(t.as_str());
    let n: usize = cs.len();
    if n >= 10 && reads_like_date(&cs, n - 10) {
        let department: String = trim(t.as_str().substring_char(0, n - 10));
        let date: String = t.as_str().substring_char(n - 10, n).to_owned();
        assert(cs@.subrange(0, n - 10) =~= cs@.take(n - 10));
        assert(cs@.subrange(n - 10, n as int) =~= cs@.skip(n - 10));
        (department, date)
    } else {
        (t, String::new())
    }
}

fn starts_at(text: &Vec<char>, part: &Vec<char>, at: usize) -> (r: bool)
    ensures
        r == text::occurs_at(text@, part@, at as int),
{
    let n: usize = text.len();
    let m: usize = part.len();
    if at > n || m > n - at {
        return false;
    }
    let mut k: usize = 0;
    while k < m
        invariant
            n == text@.len(),
            m == part@.len(),
            at + m <= n,
            k <= m,
            forall|j: int| 0 <= j < k ==> text@[at + j] == part@[j],
        decreases m - k,
    {
        if text[at + k] != part[k] {
            assert(text@.subrange(at as int, at + m)[k as int] != part@[k as int]);
            return false;
        }
        k = k + 1;
    }
    assert(text@.subrange(at as int, at + m) =~= part@);
    true
}

/// Takes `span` off the front of a row's text and `title` off its end, and yields
/// the 【…】 tag of what is left.
pub fn extract_bracket_tag(full_text: &str, span: &str, title: &str) -> (r: String)
    ensures
        r@ == tag_of(full_text@, span@, title@),
{
    let full: Vec<char> = to_chars(full_text);
    let front: Vec<char> = to_chars(span);
    let behind: String = if starts_at(&full, &front, 0) {
        assert(full@.subrange(front@.len() as int, full@.len() as int) =~= full@.skip(
            front@.len() as int,
        ));
        trim(full_text.substring_char(front.len(), full.len()))
    } else {
        trim(full_text)
    };
    assert(behind@ == text::trimmed(without_prefix(full_text@, span@)));

    let rest: Vec<char> = to_chars(behind.as_str());
    let back: Vec<char> = to_chars(title);
    let between: String = if back.len() <= rest.len() && starts_at(
        &rest,
        &back,
        rest.len() - back.len(),
    ) {
        assert(rest@.subrange(0, rest@.len() - back@.len()) =~= rest@.take(
            rest@.len() - back@.len(),
        ));
        trim(behind.as_str().substring_char(0, rest.len() - back.len()))
    } else {
        trim(behind.as_str())
    };
    assert(between@ == text::trimmed(without_suffix(behind@, title@)));

    let cs: Vec<char> = to_chars(between.as_str());
    let n: usize = cs.len();
    let mut open: Vec<char> = Vec::new();
    open.push('【');
    let mut close: Vec<char> = Vec::new();
    close.push('】');
    assert(open@ =~= seq!['【']);
    assert(close@ =~= seq!['】']);
    match find_chars(&cs, &open, 0) {
        Some(start) => {
            proof {
                text::lemma_find_from(cs@, open@, 0);
                text::lemma_find_from(cs@, close@, start as int);
            }
            match find_chars(&cs, &close, start) {
                Some(end) => trim(between.as_str().substring_char(start, end + 1)),
                None => {
                    assert(cs@.subrange(start as int, cs@.len() as int) =~= cs@.skip(start as int));
                    trim(between.as_str().substring_char(start, n))
                },
            }
        },
        None => String::new(),
    }
}

/// The notice that a row of the list holds: none without a date or a title.
pub fn notice_from_row(row: &NoticeRow) -> (r: Option<NoticeItem>)
    ensures
        match r {
            Some(notice) => notice_of(row@) == Some(notice@),
            None => notice_of(row@) is None,
        },
{
    let span: String = match &row.span {
        Some(s) => s.clone(),
        None => String::new(),
    };
    let (department, date) = split_span(span.as_str());
    let (title, url): (String, String) = match &row.anchor {
        Some(a) => match &a.target {
            Some(u) => (trim(a.text.as_str()), u.clone()),
            None => (String::new(), String::new()),
        },
        None => (String::new(), String::new()),
    };
    let whole: String = trim(row.text.as_str());
    let category: String = extract_bracket_tag(whole.as_str(), span.as_str(), title.as_str());
    if !date.as_str().is_empty() && !title.as_str().is_empty() {
        Some(NoticeItem { title, url, date, department, category })
    } else {
        None
    }
}

/// The notices that the rows hold, in order.
pub fn notices_from_rows(rows: &Vec<NoticeRow>) -> (r: Vec<NoticeItem>)
    ensures
        models::notice_views(r@) == notices_of(row_views(rows@)),
{
    let mut out: Vec<NoticeItem> = Vec::new();
    let mut i: usize = 0;
    let ghost all = row_views(rows@);
    assert(models::notice_views(out@) =~= notices_of(all.take(0)));
    while i < rows.len()
        invariant
            i <= rows@.len(),
            all == row_views(rows@),
            models::notice_views(out@) == notices_of(all.take(i as int)),
        decreases rows@.len() - i,
    {
        let ghost before = out@;
        assert(all.take(i + 1).drop_last() =~= all.take(i as int));
        assert(all.take(i + 1).last() == rows@[i as int]@);
        if let Some(notice) = notice_from_row(&rows[i]) {
            out.push(notice);
            assert(models::notice_views(out@) =~= models::notice_views(before).push(notice@));
        }
        i = i + 1;
    }
    assert(all.take(all.len() as int) =~= all);
    out
}

/// The notices of the portal's list page `html`. Each is an `<li>` inside
/// `.Newslist ul`: `<span>部门  日期</span>【分类】<a href="...">标题</a>`.
pub fn extract_notice_items(html: &str, base_url: &PageUrl) -> (r: Vec<NoticeItem>)
    ensures
        models::notice_views(r@) == notices_on(html@, base_url@),
{
    let list: Vec<Element> = select_all(html, ".Newslist ul li");
    let spans: Vec<Option<Element>> = select_first_inside(html, ".Newslist ul li", "span");
    let links: Vec<Option<Element>> = select_first_inside(html, ".Newslist ul li", "a[href]");
    let ghost l = dom::selected(html@, ".Newslist ul li"@);
    let ghost s = dom::first_inside(html@, ".Newslist ul li"@, "span"@);
    let ghost k = dom::first_inside(html@, ".Newslist ul li"@, "a[href]"@);
    let mut rows: Vec<NoticeRow> = Vec::new();
    let mut i: usize = 0;
    assert(dom::element_views(list@).len() == list@.len());
    while i < list.len()
        invariant
            i <= list@.len(),
            l == dom::element_views(list@),
            s == dom::opt_element_views(spans@),
            k == dom::opt_element_views(links@),
            spans@.len() == list@.len(),
            links@.len() == list@.len(),
            l == dom::selected(html@, ".Newslist ul li"@),
            s == dom::first_inside(html@, ".Newslist ul li"@, "span"@),
            k == dom::first_inside(html@, ".Newslist ul li"@, "a[href]"@),
            rows@.len() == i,
            forall|j: int| 0 <= j < i ==> (#[trigger] rows@[j])@ == rows_on(html@, base_url@)[j],
        decreases list@.len() - i,
    {
        assert(l[i as int] == list@[i as int]@);
        let span: Option<String> = match &spans[i] {
            Some(e) => Some(e.text.clone()),
            None => None,
        };
        let anchor: Option<Anchor> = match &links[i] {
            Some(e) => Some(resolve_anchor(e, base_url)),
            None => None,
        };
        rows.push(NoticeRow { text: list[i].text.clone(), span, anchor });
        i = i + 1;
    }
    assert(row_views(rows@) =~= rows_on(html@, base_url@));
    notices_from_rows(&rows)
}

// ── laws ────────────────────────────────────────────────────────────────────
/// A date that a span yields reads like one.
pub proof fn law_span_date_shape(raw: Seq<char>)
    ensures
        span_parts(raw).1.len() > 0 ==> is_date_like(span_parts(raw).1),
{
}

/// A span's department and date make up the trimmed span again, with nothing but
/// white space between them.
pub proof fn law_span_parts_rejoin(raw: Seq<char>)
    ensures
        exists|gap: Seq<char>|
            #![trigger span_parts(raw).0 + gap + span_parts(raw).1]
            text::all_white(gap) && text::trimmed(raw) == span_parts(raw).0 + gap
                + span_parts(raw).1,
{
    let t = text::trimmed(raw);
    let (department, date) = span_parts(raw);
    if t.len() >= 10 && is_date_like(t.skip(t.len() - 10)) {
        let head = t.take(t.len() - 10);
        text::law_trimmed(raw);
        text::law_trimmed(head);
        let (before, after) = choose|before: Seq<char>, after: Seq<char>|
            #![trigger before + text::trimmed(head) + after]
            head == before + text::trimmed(head) + after && text::all_white(before)
                && text::all_white(after);
        if before.len() > 0 {
            assert(text::is_white_space(before[0]));
            assert(head[0] == before[0]);
            assert(t[0] == head[0]);
        }
        assert(before =~= Seq::<char>::empty());
        assert(t =~= head + date);
        assert(t =~= department + after + date);
    } else {
        let gap = Seq::<char>::empty();
        assert(t =~= department + gap + date);
    }
}

/// A span written as a department, white space and a date splits into just these.
pub proof fn law_span_splits(department: Seq<char>, gap: Seq<char>, date: Seq<char>)
    requires
        text::trimmed(department) == department,
        text::all_white(gap),
        is_date_like(date),
    ensures
        span_parts(department + gap + date) == (department, date),
{
    let raw = department + gap + date;
    lemma_date_ends(date);
    text::law_trimmed(department);
    let nothing = Seq::<char>::empty();
    if department.len() > 0 {
        assert(nothing + raw + nothing =~= raw);
        assert(raw[0] == department[0]);
        assert(raw.last() == date.last());
        text::law_trimmed_of_padded(nothing, raw, nothing);
        assert(raw.skip(raw.len() - 10) =~= date);
        assert(raw.take(raw.len() - 10) =~= nothing + department + gap);
        text::law_trimmed_of_padded(nothing, department, gap);
    } else {
        assert(raw =~= gap + date + nothing);
        text::law_trimmed_of_padded(gap, date, nothing);
        assert(date.skip(0) =~= date);
        assert(date.take(0) =~= nothing);
        assert(department =~= nothing);
    }
}

proof fn lemma_date_ends(date: Seq<char>)
    requires
        is_date_like(date),
    ensures
        !text::is_white_space(date[0]),
        !text::is_white_space(date.last()),
{
    assert(is_digit(date[0]));
    assert(is_digit(date[9]));
}

/// A bracket tag: `【`, a body without `】`, and `】`.
pub open spec fn is_tag(tag: Seq<char>) -> bool {
    &&& tag.len() >= 2
    &&& tag[0] == '【'
    &&& tag.last() == '】'
    &&& forall|i: int| 0 < i < tag.len() - 1 ==> tag[i] != '】'
}

/// A tag between a span and a title is found again, whatever white space pads it.
pub proof fn law_tag_between(
    span: Seq<char>,
    tag: Seq<char>,
    pad: Seq<char>,
    title: Seq<char>,
)
    requires
        is_tag(tag),
        text::all_white(pad),
        text::trimmed(title) == title,
    ensures
        tag_of(span + tag + pad + title, span, title) == tag,
{
    let nothing = Seq::<char>::empty();
    let rest = tag + pad;
    assert(span + tag + pad + title =~= span + (rest + title));
    law_tag_without_its_span(rest, span, rest + title, title);
    if title.len() > 0 {
        law_tag_without_its_title(rest, rest, title);
    } else {
        assert(rest + title =~= rest);
        assert(title =~= nothing);
    }
    assert(rest =~= nothing + rest);
    lemma_tag_counts(nothing, tag, pad);
}

proof fn lemma_tag_counts(before: Seq<char>, tag: Seq<char>, after: Seq<char>)
    requires
        is_tag(tag),
        forall|i: int| 0 <= i < before.len() ==> #[trigger] before[i] != '【',
    ensures
        tag_of(before + (tag + after), Seq::empty(), Seq::empty()) == tag,
{
    let body = tag.subrange(1, tag.len() - 1);
    assert(tag =~= seq!['【'] + body + seq!['】']);
    assert forall|i: int| 0 <= i < body.len() implies #[trigger] body[i] != '】' by {
        assert(body[i] == tag[i + 1]);
    }
    assert(before + (tag + after) =~= before + seq!['【'] + body + seq!['】'] + after);
    law_first_tag_counts(before, body, after);
}

/// A tag behind a date is found as well where the span, which starts with white
/// space that the row's trimmed text has lost, cannot be taken off.
proof fn lemma_tag_behind_date(
    gap: Seq<char>,
    date: Seq<char>,
    tag: Seq<char>,
    pad: Seq<char>,
    title: Seq<char>,
)
    requires
        gap.len() > 0,
        text::all_white(gap),
        is_date_like(date),
        is_tag(tag),
        text::all_white(pad),
        title.len() > 0,
        text::trimmed(title) == title,
    ensures
        tag_of(date + tag + pad + title, gap + date, title) == tag,
{
    let full = date + tag + pad + title;
    let span = gap + date;
    let rest = date + (tag + pad);
    lemma_date_ends(date);
    assert(full =~= rest + title);
    assert forall|r: Seq<char>| full != #[trigger] (span + r) by {
        assert(text::is_white_space(gap[0]));
        assert((span + r)[0] == gap[0]);
        assert(full[0] == date[0]);
    }
    law_tag_without_its_span(full, span, rest, title);
    law_tag_without_its_title(full, rest, title);
    assert forall|i: int| 0 <= i < date.len() implies #[trigger] date[i] != '【' by {
        assert(i == 4 || i == 7 || is_digit(date[i]));
    }
    lemma_tag_counts(date, tag, pad);
}

/// A row that is laid out as the portal lays it out, a span with department and
/// date, a bracket tag and a link, gives the notice with just these parts.
pub proof fn law_row_reads_back(
    department: Seq<char>,
    gap: Seq<char>,
    date: Seq<char>,
    tag: Seq<char>,
    pad: Seq<char>,
    title: Seq<char>,
    url: Seq<char>,
)
    requires
        text::trimmed(department) == department,
        text::all_white(gap),
        is_date_like(date),
        is_tag(tag),
        text::all_white(pad),
        title.len() > 0,
        text::trimmed(title) == title,
    ensures
        notice_of(
            (RowView {
                text: department + gap + date + tag + pad + title,
                span: Some(department + gap + date),
                anchor: Some(AnchorView { text: pad + title, target: Some(url) }),
            }),
        ) == Some((NoticeView { title, url, date, department, category: tag })),
{
    let span = department + gap + date;
    let full = span + tag + pad + title;
    let nothing = Seq::<char>::empty();
    law_span_splits(department, gap, date);
    lemma_date_ends(date);
    text::law_trimmed(department);
    text::law_trimmed(title);
    assert(pad + title + nothing =~= pad + title);
    text::law_trimmed_of_padded(pad, title, nothing);
    if department.len() == 0 && gap.len() > 0 {
        let rest = date + tag + pad + title;
        assert(span =~= gap + date);
        assert(full =~= gap + rest + nothing);
        assert(rest[0] == date[0]);
        assert(rest.last() == title.last());
        text::law_trimmed_of_padded(gap, rest, nothing);
        lemma_tag_behind_date(gap, date, tag, pad, title);
    } else {
        law_tag_between(span, tag, pad, title);
        if department.len() > 0 {
            assert(full[0] == department[0]);
        } else {
            assert(full[0] == date[0]);
        }
        assert(full.last() == title.last());
        assert(nothing + full + nothing =~= full);
        text::law_trimmed_of_padded(nothing, full, nothing);
    }
}

/// Every notice of a list has a title, and a date that reads like one; its tag is
/// empty or opens with `【`.
pub proof fn law_notices_are_complete(rows: Seq<RowView>)
    ensures
        forall|i: int|
            0 <= i < notices_of(rows).len() ==> {
                &&& (#[trigger] notices_of(rows)[i]).title.len() > 0
                &&& is_date_like(notices_of(rows)[i].date)
                &&& notices_of(rows)[i].category.len() > 0 ==> notices_of(rows)[i].category[0]
                    == '【'
            },
    decreases rows.len(),
{
    if rows.len() > 0 {
        law_notices_are_complete(rows.drop_last());
        if let Some(notice) = notice_of(rows.last()) {
            let row = rows.last();
            let span = match row.span {
                Some(s) => s,
                None => Seq::empty(),
            };
            law_span_date_shape(span);
            lemma_tag_opens(text::trimmed(row.text), span, notice.title);
        }
        let before = notices_of(rows.drop_last());
        assert forall|i: int| 0 <= i < notices_of(rows).len() implies {
            &&& (#[trigger] notices_of(rows)[i]).title.len() > 0
            &&& is_date_like(notices_of(rows)[i].date)
            &&& notices_of(rows)[i].category.len() > 0 ==> notices_of(rows)[i].category[0] == '【'
        } by {
            if i < before.len() {
                assert(notices_of(rows)[i] == before[i]);
            }
        }
    }
}

proof fn lemma_tag_opens(full: Seq<char>, span: Seq<char>, title: Seq<char>)
    ensures
        tag_of(full, span, title).len() > 0 ==> tag_of(full, span, title)[0] == '【',
{
    let behind = text::trimmed(without_prefix(full, span));
    let between = text::trimmed(without_suffix(behind, title));
    let b = bracketed(between);
    text::lemma_find_from(between, seq!['【'], 0);
    if let Some(start) = text::find_from(between, seq!['【'], 0) {
        text::lemma_find_from(between, seq!['】'], start);
        assert(between.subrange(start, start + 1)[0] == between[start]);
        assert(seq!['【'][0] == '【');
        assert(b[0] == '【');
        text::law_trimmed(b);
        let (before, after) = choose|before: Seq<char>, after: Seq<char>|
            #![trigger before + text::trimmed(b) + after]
            b == before + text::trimmed(b) + after && text::all_white(before) && text::all_white(
                after,
            );
        if before.len() > 0 {
            assert(text::is_white_space(before[0]));
            assert(b[0] == before[0]);
        } else if text::trimmed(b).len() > 0 {
            assert(b[0] == text::trimmed(b)[0]);
        }
    } else {
        text::law_trimmed_of_white(b);
    }
}

/// Every link of a snapshot has a title, without white space at its ends.
pub proof fn law_links_have_titles(anchors: Seq<AnchorView>)
    ensures
        forall|i: int|
            0 <= i < links_of(anchors).len() ==> (#[trigger] links_of(anchors)[i]).title.len() > 0
                && text::trimmed(links_of(anchors)[i].title) == links_of(anchors)[i].title,
    decreases anchors.len(),
{
    if anchors.len() > 0 {
        law_links_have_titles(anchors.drop_last());
        text::law_squeezed_is_trimmed(anchors.last().text);
        let before = links_of(anchors.drop_last());
        assert forall|i: int| 0 <= i < links_of(anchors).len() implies (
        #[trigger] links_of(anchors)[i]).title.len() > 0 && text::trimmed(
            links_of(anchors)[i].title,
        ) == links_of(anchors)[i].title by {
            if i < before.len() {
                assert(links_of(anchors)[i] == before[i]);
            }
        }
    }
}

// ── what a page is read as ──────────────────────────────────────────────────
/// An element is a link with its own text, to where its reference leads from the
/// page; the contents of links and rows are their fields, in order.
pub proof fn law_anchor_contents(
    element: ElementView,
    base: Seq<char>,
    anchors: Seq<Anchor>,
    rows: Seq<NoticeRow>,
)
    ensures
        anchor_on(element, base).text == element.text,
        element.href is None ==> anchor_on(element, base).target is None,
        element.href matches Some(href) ==> anchor_on(element, base).target == page_url::url_joined(
            base,
            href,
        ),
        anchor_views(anchors).len() == anchors.len(),
        forall|i: int|
            0 <= i < anchors.len() ==> (#[trigger] anchor_views(anchors)[i]).text
                == anchors[i].text@ && anchor_views(anchors)[i].target == text::opt_view(
                anchors[i].target,
            ),
        row_views(rows).len() == rows.len(),
        forall|i: int|
            0 <= i < rows.len() ==> {
                &&& (#[trigger] row_views(rows)[i]).text == rows[i].text@
                &&& row_views(rows)[i].span == text::opt_view(rows[i].span)
                &&& rows[i].anchor is None ==> row_views(rows)[i].anchor is None
                &&& rows[i].anchor matches Some(a) ==> row_views(rows)[i].anchor == Some(a@)
            },
{
}

/// A page's title is what trimming leaves of the text of its first title element;
/// it has none where there is no such element or nothing is left.
pub proof fn law_title_is_the_first(titles: Seq<ElementView>)
    ensures
        match title_among(titles) {
            Some(title) => titles.len() > 0 && title.len() > 0 && title == text::trimmed(
                titles[0].text,
            ),
            None => titles.len() == 0 || forall|i: int|
                0 <= i < titles[0].text.len() ==> text::is_white_space(
                    #[trigger] titles[0].text[i],
                ),
        },
{
    if titles.len() > 0 {
        text::law_trimmed_is_exact(titles[0].text);
    }
}

/// The links of anchors are made one by one: of two lists in a row they are those
/// of the one and then those of the other.
pub proof fn law_links_go_one_by_one(a: Seq<AnchorView>, b: Seq<AnchorView>)
    ensures
        links_of(a + b) == links_of(a) + links_of(b),
    decreases b.len(),
{
    if b.len() == 0 {
        assert(a + b =~= a);
        assert(links_of(a) + links_of(b) =~= links_of(a));
    } else {
        assert((a + b).drop_last() =~= a + b.drop_last());
        law_links_go_one_by_one(a, b.drop_last());
        assert(links_of(a + b) =~= links_of(a) + links_of(b));
    }
}

/// One anchor makes one link, to its target and with its text squeezed, exactly
/// where it has a target and a text to show.
pub proof fn law_link_of_one_anchor(anchor: AnchorView)
    ensures
        anchor.target is None || text::squeezed(anchor.text).len() == 0 ==> links_of(
            seq![anchor],
        ).len() == 0,
        anchor.target is Some && text::squeezed(anchor.text).len() > 0 ==> links_of(seq![anchor])
            == seq![LinkView { title: text::squeezed(anchor.text), url: anchor.target->0 }],
{
    let one = seq![anchor];
    assert(one.drop_last() =~= Seq::<AnchorView>::empty());
    assert(links_of(one.drop_last()) =~= Seq::<LinkView>::empty());
    if let Some(link) = link_of(anchor) {
        assert(links_of(one) =~= seq![link]);
    }
}

/// A snapshot holds the page as it was fetched, the title among its title elements,
/// and the links that its elements with a reference make, resolved against the
/// page's own URL.
pub proof fn law_snapshot_is_of_its_page(
    url: Seq<char>,
    html: Seq<char>,
    anchors: Seq<AnchorView>,
)
    requires
        anchors.len() == dom::selected(html, "a[href]"@).len(),
        forall|i: int|
            0 <= i < anchors.len() ==> (#[trigger] anchors[i]).text == dom::selected(
                html,
                "a[href]"@,
            )[i].text && anchors[i].target == (match dom::selected(html, "a[href]"@)[i].href {
                Some(href) => page_url::url_joined(url, href),
                None => None,
            }),
    ensures
        snapshot_of(url, html).final_url == url,
        snapshot_of(url, html).html == html,
        snapshot_of(url, html).title == title_among(dom::selected(html, "title"@)),
        snapshot_of(url, html).links == links_of(anchors),
{
    assert(anchors =~= anchors_on(dom::selected(html, "a[href]"@), url));
}

/// The link to the next page is the first one whose text holds 下页 or 下一页: its
/// reference is what is found, and nothing is found where no text holds either, or
/// where that link has no reference.
pub proof fn law_next_link_is_the_first_labelled(anchors: Seq<ElementView>)
    ensures
        match next_href(anchors) {
            Some(href) => exists|i: int|
                0 <= i < anchors.len() && (#[trigger] anchors[i]).href == Some(href) && (
                text::holds(anchors[i].text, "下页"@) || text::holds(anchors[i].text, "下一页"@))
                    && forall|j: int|
                    0 <= j < i ==> !text::holds((#[trigger] anchors[j]).text, "下页"@)
                        && !text::holds(anchors[j].text, "下一页"@),
            None => forall|i: int|
                0 <= i < anchors.len() && (text::holds((#[trigger] anchors[i]).text, "下页"@)
                    || text::holds(anchors[i].text, "下一页"@)) && (forall|j: int|
                    0 <= j < i ==> !text::holds((#[trigger] anchors[j]).text, "下页"@)
                        && !text::holds(anchors[j].text, "下一页"@)) ==> anchors[i].href is None,
        },
    decreases anchors.len(),
{
    if anchors.len() > 0 && !is_next_label(anchors[0].text) {
        let rest = anchors.drop_first();
        law_next_link_is_the_first_labelled(rest);
        match next_href(rest) {
            Some(href) => {
                let i = choose|i: int|
                    0 <= i < rest.len() && (#[trigger] rest[i]).href == Some(href) && (
                    text::holds(rest[i].text, "下页"@) || text::holds(rest[i].text, "下一页"@))
                        && forall|j: int|
                        0 <= j < i ==> !text::holds((#[trigger] rest[j]).text, "下页"@)
                            && !text::holds(rest[j].text, "下一页"@);
                assert(anchors[i + 1] == rest[i]);
                assert forall|j: int| 0 <= j < i + 1 implies !text::holds(
                    (#[trigger] anchors[j]).text,
                    "下页"@,
                ) && !text::holds(anchors[j].text, "下一页"@) by {
                    if j > 0 {
                        assert(anchors[j] == rest[j - 1]);
                    }
                }
            },
            None => {
                assert forall|i: int|
                    0 <= i < anchors.len() && (text::holds((#[trigger] anchors[i]).text, "下页"@)
                        || text::holds(anchors[i].text, "下一页"@)) && (forall|j: int|
                        0 <= j < i ==> !text::holds((#[trigger] anchors[j]).text, "下页"@)
                            && !text::holds(anchors[j].text, "下一页"@)) implies anchors[i].href
                    is None by {
                    assert(i > 0);
                    assert(rest[i - 1] == anchors[i]);
                    assert forall|j: int| 0 <= j < i - 1 implies !text::holds(
                        (#[trigger] rest[j]).text,
                        "下页"@,
                    ) && !text::holds(rest[j].text, "下一页"@) by {
                        assert(rest[j] == anchors[j + 1]);
                    }
                }
            },
        }
    }
}

/// Links whose text holds neither label change nothing where they stand in front,
/// and a labelled link decides, whatever stands behind it.
pub proof fn law_other_links_do_not_count(
    front: Seq<ElementView>,
    next: ElementView,
    behind: Seq<ElementView>,
)
    requires
        forall|j: int|
            0 <= j < front.len() ==> !text::holds((#[trigger] front[j]).text, "下页"@)
                && !text::holds(front[j].text, "下一页"@),
    ensures
        next_href(front + behind) == next_href(behind),
        text::holds(next.text, "下页"@) || text::holds(next.text, "下一页"@) ==> next_href(
            front + seq![next] + behind,
        ) == next.href,
    decreases front.len(),
{
    let all = front + seq![next] + behind;
    if front.len() == 0 {
        assert(front + behind =~= behind);
        assert(all[0] == next);
    } else {
        let rest = front.drop_first();
        assert forall|j: int| 0 <= j < rest.len() implies !text::holds(
            (#[trigger] rest[j]).text,
            "下页"@,
        ) && !text::holds(rest[j].text, "下一页"@) by {
            assert(rest[j] == front[j + 1]);
        }
        law_other_links_do_not_count(rest, next, behind);
        assert((front + behind)[0] == front[0]);
        assert((front + behind).drop_first() =~= rest + behind);
        assert(all[0] == front[0]);
        assert(all.drop_first() =~= rest + seq![next] + behind);
    }
}

/// The next page is where the reference of that link leads from the page itself.
pub proof fn law_next_page_is_resolved(html: Seq<char>, base: Seq<char>)
    ensures
        next_href(dom::selected(html, "a[href]"@)) is None ==> next_page_of(html, base) is None,
        next_href(dom::selected(html, "a[href]"@)) matches Some(href) ==> next_page_of(html, base)
            == page_url::url_joined(base, href),
{
}

/// What reads like a date is four digits, a dash, two digits, a dash and two digits,
/// and nothing else does.
pub proof fn law_date_shape(s: Seq<char>)
    ensures
        is_date_like(s) <==> s.len() == 10 && '0' <= s[0] <= '9' && '0' <= s[1] <= '9' && '0'
            <= s[2] <= '9' && '0' <= s[3] <= '9' && s[4] == '-' && '0' <= s[5] <= '9' && '0'
            <= s[6] <= '9' && s[7] == '-' && '0' <= s[8] <= '9' && '0' <= s[9] <= '9',
{
    if is_date_like(s) {
        assert(is_digit(s[0]) && is_digit(s[1]) && is_digit(s[2]) && is_digit(s[3]));
        assert(is_digit(s[5]) && is_digit(s[6]) && is_digit(s[8]) && is_digit(s[9]));
    }
    if s.len() == 10 && '0' <= s[0] <= '9' && '0' <= s[1] <= '9' && '0' <= s[2] <= '9' && '0'
        <= s[3] <= '9' && s[4] == '-' && '0' <= s[5] <= '9' && '0' <= s[6] <= '9' && s[7] == '-'
        && '0' <= s[8] <= '9' && '0' <= s[9] <= '9' {
        assert forall|i: int| 0 <= i < s.len() && i != 4 && i != 7 implies is_digit(
            #[trigger] s[i],
        ) by {
            assert(i == 0 || i == 1 || i == 2 || i == 3 || i == 5 || i == 6 || i == 8 || i == 9);
        }
    }
}

/// A span has a date exactly where its trimmed text ends in one, and then that end
/// is the date and the department is what trimming leaves of the rest. Without a
/// date all of it is the department.
pub proof fn law_span_parts_are_exact(raw: Seq<char>)
    ensures
        ({
            let t = text::trimmed(raw);
            let ends_in_date = t.len() >= 10 && '0' <= t[t.len() - 10] <= '9' && '0' <= t[t.len()
                - 9] <= '9' && '0' <= t[t.len() - 8] <= '9' && '0' <= t[t.len() - 7] <= '9'
                && t[t.len() - 6] == '-' && '0' <= t[t.len() - 5] <= '9' && '0' <= t[t.len() - 4]
                <= '9' && t[t.len() - 3] == '-' && '0' <= t[t.len() - 2] <= '9' && '0' <= t[t.len()
                - 1] <= '9';
            &&& ends_in_date ==> span_parts(raw).1 == t.skip(t.len() - 10) && span_parts(raw).0
                == text::trimmed(t.take(t.len() - 10))
            &&& !ends_in_date ==> span_parts(raw).1.len() == 0 && span_parts(raw).0 == t
        }),
{
    let t = text::trimmed(raw);
    if t.len() >= 10 {
        law_date_shape(t.skip(t.len() - 10));
    }
}

/// White space around a span does not count.
pub proof fn law_span_padding_does_not_count(
    before: Seq<char>,
    raw: Seq<char>,
    after: Seq<char>,
)
    requires
        forall|i: int| 0 <= i < before.len() ==> text::is_white_space(#[trigger] before[i]),
        forall|i: int| 0 <= i < after.len() ==> text::is_white_space(#[trigger] after[i]),
    ensures
        span_parts(before + raw + after) == span_parts(raw),
{
    text::law_padding_does_not_count(before, raw, after);
}

/// The notices of rows are read row by row: of two lists in a row they are those of
/// the one and then those of the other.
pub proof fn law_notices_go_row_by_row(a: Seq<RowView>, b: Seq<RowView>)
    ensures
        notices_of(a + b) == notices_of(a) + notices_of(b),
    decreases b.len(),
{
    if b.len() == 0 {
        assert(a + b =~= a);
        assert(notices_of(a) + notices_of(b) =~= notices_of(a));
    } else {
        assert((a + b).drop_last() =~= a + b.drop_last());
        law_notices_go_row_by_row(a, b.drop_last());
        assert(notices_of(a + b) =~= notices_of(a) + notices_of(b));
    }
}

/// One row gives one notice exactly where its span has a date and its link has a
/// target and a text to show. The notice has that date, the span's department, the
/// trimmed text and the target of the link, and the row's tag; a row without a span
/// has no date.
pub proof fn law_notice_of_one_row(row: RowView)
    ensures
        row.span is None ==> notices_of(seq![row]).len() == 0,
        row.anchor is None ==> notices_of(seq![row]).len() == 0,
        row.span matches Some(span) ==> (row.anchor matches Some(a) ==> {
            let dated = span_parts(span).1.len() > 0;
            let titled = a.target is Some && text::trimmed(a.text).len() > 0;
            &&& !dated || !titled ==> notices_of(seq![row]).len() == 0
            &&& dated && titled ==> notices_of(seq![row]) == seq![
                NoticeView {
                    title: text::trimmed(a.text),
                    url: a.target->0,
                    date: span_parts(span).1,
                    department: span_parts(span).0,
                    category: tag_of(text::trimmed(row.text), span, text::trimmed(a.text)),
                },
            ]
        }),
        notice_of(row) is None ==> notices_of(seq![row]).len() == 0,
        notice_of(row) matches Some(notice) ==> notices_of(seq![row]) == seq![notice],
{
    let one = seq![row];
    assert(one.drop_last() =~= Seq::<RowView>::empty());
    assert(notices_of(one.drop_last()) =~= Seq::<NoticeView>::empty());
    if row.span is None {
        let nothing = Seq::<char>::empty();
        text::law_trimmed_of_white(nothing);
    }
    if let Some(notice) = notice_of(row) {
        assert(notices_of(one) =~= seq![notice]);
    }
}

/// As many rows as give a notice, as many notices: never more than there are rows,
/// and all of them where each row gives one, the first for the first and so on.
pub proof fn law_each_row_gives_its_notice(rows: Seq<RowView>)
    ensures
        notices_of(rows).len() <= rows.len(),
        (forall|i: int| 0 <= i < rows.len() ==> notice_of(#[trigger] rows[i]) is Some) ==> (
        notices_of(rows).len() == rows.len() && forall|i: int|
            0 <= i < rows.len() ==> Some(#[trigger] notices_of(rows)[i]) == notice_of(rows[i])),
    decreases rows.len(),
{
    if rows.len() > 0 {
        let front = rows.drop_last();
        law_each_row_gives_its_notice(front);
        if forall|i: int| 0 <= i < rows.len() ==> notice_of(#[trigger] rows[i]) is Some {
            assert forall|i: int| 0 <= i < front.len() implies notice_of(
                #[trigger] front[i],
            ) is Some by {
                assert(front[i] == rows[i]);
            }
            assert(notice_of(rows[rows.len() - 1]) is Some);
            assert forall|i: int| 0 <= i < rows.len() implies Some(#[trigger] notices_of(rows)[i])
                == notice_of(rows[i]) by {
                if i < front.len() {
                    assert(notices_of(rows)[i] == notices_of(front)[i]);
                    assert(front[i] == rows[i]);
                }
            }
        }
    }
}

/// The notices of a page are those of its list rows, each read from the list item,
/// its first span and its first link with a reference.
pub proof fn law_page_rows_are_the_list(html: Seq<char>, base: Seq<char>, rows: Seq<RowView>)
    requires
        rows.len() == dom::selected(html, ".Newslist ul li"@).len(),
        forall|i: int|
            0 <= i < rows.len() ==> {
                &&& (#[trigger] rows[i]).text == dom::selected(html, ".Newslist ul li"@)[i].text
                &&& rows[i].span == (match dom::first_inside(
                    html,
                    ".Newslist ul li"@,
                    "span"@,
                )[i] {
                    Some(e) => Some(e.text),
                    None => None,
                })
                &&& rows[i].anchor == (match dom::first_inside(
                    html,
                    ".Newslist ul li"@,
                    "a[href]"@,
                )[i] {
                    Some(e) => Some(anchor_on(e, base)),
                    None => None,
                })
            },
    ensures
        notices_on(html, base) == notices_of(rows),
{
    assert(rows =~= rows_on(html, base));
}

// ── tags ────────────────────────────────────────────────────────────────────
/// The span in front is taken off where the row starts with it, and does not count
/// where it does not.
pub proof fn law_tag_without_its_span(
    full: Seq<char>,
    span: Seq<char>,
    rest: Seq<char>,
    title: Seq<char>,
)
    ensures
        tag_of(span + rest, span, title) == tag_of(rest, Seq::empty(), title),
        (forall|r: Seq<char>| full != #[trigger] (span + r)) ==> tag_of(full, span, title)
            == tag_of(full, Seq::empty(), title),
{
    let nothing = Seq::<char>::empty();
    let whole = span + rest;
    assert(whole.subrange(0, span.len() as int) =~= span);
    assert(whole.skip(span.len() as int) =~= rest);
    assert(rest.subrange(0, 0) =~= nothing);
    assert(rest.skip(0) =~= rest);
    assert(full.subrange(0, 0) =~= nothing);
    assert(full.skip(0) =~= full);
    if text::occurs_at(full, span, 0) {
        assert(full =~= span + full.skip(span.len() as int));
    }
}

/// The title behind is taken off where the row ends with it, and does not count
/// where the trimmed row does not.
pub proof fn law_tag_without_its_title(full: Seq<char>, rest: Seq<char>, title: Seq<char>)
    requires
        text::trimmed(title) == title,
        title.len() > 0,
    ensures
        tag_of(rest + title, Seq::empty(), title) == tag_of(rest, Seq::empty(), Seq::empty()),
        (forall|r: Seq<char>| text::trimmed(full) != #[trigger] (r + title)) ==> tag_of(
            full,
            Seq::empty(),
            title,
        ) == tag_of(full, Seq::empty(), Seq::empty()),
{
    lemma_tag_without_span(rest + title, title);
    lemma_tag_of_what_is_left(rest);
    lemma_trimmed_before_title(rest, title);
    lemma_title_taken_off(text::trimmed_start(rest), title);

    lemma_tag_without_span(full, title);
    lemma_tag_of_what_is_left(full);
    lemma_trimmed_is_trimmed(full);
    let f = text::trimmed(full);
    if text::occurs_at(f, title, f.len() - title.len()) {
        assert(f =~= f.take(f.len() - title.len()) + title);
    }
}

proof fn lemma_tag_without_span(full: Seq<char>, title: Seq<char>)
    ensures
        tag_of(full, Seq::empty(), title) == text::trimmed(
            bracketed(text::trimmed(without_suffix(text::trimmed(full), title))),
        ),
{
    assert(full.subrange(0, 0) =~= Seq::<char>::empty());
    assert(full.skip(0) =~= full);
}

proof fn lemma_title_taken_off(rest: Seq<char>, title: Seq<char>)
    ensures
        without_suffix(rest + title, title) == rest,
{
    let whole = rest + title;
    let at = whole.len() - title.len();
    assert(whole.subrange(at, at + title.len()) =~= title);
    assert(whole.take(at) =~= rest);
}

proof fn lemma_trimmed_before_title(rest: Seq<char>, title: Seq<char>)
    requires
        text::trimmed(title) == title,
        title.len() > 0,
    ensures
        text::trimmed(rest + title) == text::trimmed_start(rest) + title,
        text::trimmed(text::trimmed_start(rest)) == text::trimmed(rest),
{
    let nothing = Seq::<char>::empty();
    let start = text::trimmed_start(rest);
    let white = rest.take(rest.len() - start.len());
    let core = start + title;
    text::law_trimmed(title);
    text::law_trimmed_start_is_exact(rest);
    assert forall|i: int| 0 <= i < white.len() implies text::is_white_space(
        #[trigger] white[i],
    ) by {
        assert(white[i] == rest[i]);
    }
    assert(rest =~= white + start + nothing);
    assert(rest + title =~= white + core + nothing);
    assert(core.last() == title.last());
    if start.len() > 0 {
        assert(core[0] == start[0]);
    } else {
        assert(core[0] == title[0]);
    }
    text::law_trimmed_of_padded(white, core, nothing);
    text::law_padding_does_not_count(white, start, nothing);
}

proof fn lemma_trimmed_is_trimmed(t: Seq<char>)
    ensures
        text::trimmed(text::trimmed(t)) == text::trimmed(t),
{
    let nothing = Seq::<char>::empty();
    let s = text::trimmed(t);
    text::law_trimmed(t);
    if s.len() > 0 {
        assert(nothing + s + nothing =~= s);
        text::law_trimmed_of_padded(nothing, s, nothing);
    } else {
        text::law_trimmed_of_white(s);
    }
}

/// What is left holds a tag where it holds `【`: from the first `【` to the first
/// `】` behind it, whatever stands around the two.
pub proof fn law_first_tag_counts(before: Seq<char>, body: Seq<char>, after: Seq<char>)
    requires
        forall|i: int| 0 <= i < before.len() ==> #[trigger] before[i] != '【',
        forall|i: int| 0 <= i < body.len() ==> #[trigger] body[i] != '】',
    ensures
        tag_of(before + seq!['【'] + body + seq!['】'] + after, Seq::empty(), Seq::empty())
            == seq!['【'] + body + seq!['】'],
{
    let tag = seq!['【'] + body + seq!['】'];
    let whole = before + seq!['【'] + body + seq!['】'] + after;
    let p = before.len() as int;
    let q = p + 1 + body.len();
    assert(whole[p] == '【');
    assert(whole[q] == '】');
    assert(whole.subrange(p, q + 1) =~= tag);
    assert forall|j: int| 0 <= j < p implies #[trigger] whole[j] != '【' by {
        assert(whole[j] == before[j]);
    }
    assert forall|j: int| p <= j < q implies #[trigger] whole[j] != '】' by {
        if j > p {
            assert(whole[j] == body[j - p - 1]);
        }
    }
    lemma_tag_of_what_is_left(whole);
    let (a, b) = lemma_trimmed_around(whole, p);
    lemma_trimmed_reaches(whole, a, b, q);
    let t = text::trimmed(whole);
    assert(bracketed(t) == tag) by {
        assert forall|j: int| 0 <= j < p - a implies #[trigger] t[j] != '【' by {
            assert(t[j] == whole[a + j]);
        }
        assert forall|j: int| p - a <= j < q - a implies #[trigger] t[j] != '】' by {
            assert(t[j] == whole[a + j]);
        }
        lemma_bracketed_is(t, p - a, q - a);
        assert(t.subrange(p - a, q - a + 1) =~= whole.subrange(p, q + 1));
    }
    let nothing = Seq::<char>::empty();
    assert(nothing + tag + nothing =~= tag);
    assert(tag[0] == '【');
    assert(tag.last() == '】');
    text::law_trimmed_of_padded(nothing, tag, nothing);
}

/// Trimming keeps a place that shows something.
proof fn lemma_trimmed_around(whole: Seq<char>, p: int) -> (ends: (int, int))
    requires
        0 <= p < whole.len(),
        !text::is_white_space(whole[p]),
    ensures
        0 <= ends.0 <= p < ends.1 <= whole.len(),
        text::trimmed(whole) == whole.subrange(ends.0, ends.1),
        forall|i: int| ends.1 <= i < whole.len() ==> text::is_white_space(#[trigger] whole[i]),
{
    let t = text::trimmed(whole);
    text::law_trimmed_is_exact(whole);
    let (a, b) = choose|a: int, b: int|
        0 <= a <= b <= whole.len() && t == #[trigger] whole.subrange(a, b) && (forall|i: int|
            0 <= i < a || b <= i < whole.len() ==> text::is_white_space(#[trigger] whole[i])) && (a
            < b ==> !text::is_white_space(whole[a]) && !text::is_white_space(whole[b - 1]));
    (a, b)
}

proof fn lemma_trimmed_reaches(whole: Seq<char>, a: int, b: int, q: int)
    requires
        0 <= a <= b <= whole.len(),
        forall|i: int| b <= i < whole.len() ==> text::is_white_space(#[trigger] whole[i]),
        0 <= q < whole.len(),
        !text::is_white_space(whole[q]),
    ensures
        q < b,
{
}

proof fn lemma_bracketed_is(t: Seq<char>, start: int, end: int)
    requires
        0 <= start < end < t.len(),
        t[start] == '【',
        t[end] == '】',
        forall|j: int| 0 <= j < start ==> #[trigger] t[j] != '【',
        forall|j: int| start <= j < end ==> #[trigger] t[j] != '】',
    ensures
        bracketed(t) == t.subrange(start, end + 1),
{
    lemma_bracket_is_found(t, '【', 0, start);
    lemma_bracket_is_found(t, '】', start, end);
}

proof fn lemma_bracketed_to_the_end(t: Seq<char>, start: int)
    requires
        0 <= start < t.len(),
        t[start] == '【',
        forall|j: int| 0 <= j < start ==> #[trigger] t[j] != '【',
        forall|j: int| start <= j < t.len() ==> #[trigger] t[j] != '】',
    ensures
        bracketed(t) == t.skip(start),
{
    lemma_bracket_is_found(t, '【', 0, start);
    text::lemma_find_from(t, seq!['】'], start);
    if let Some(end) = text::find_from(t, seq!['】'], start) {
        assert(t.subrange(end, end + 1)[0] == t[end]);
        assert(seq!['】'][0] == '】');
        assert(false);
    }
}

proof fn lemma_bracket_is_found(t: Seq<char>, c: char, from: int, at: int)
    requires
        0 <= from <= at < t.len(),
        t[at] == c,
        forall|j: int| from <= j < at ==> #[trigger] t[j] != c,
    ensures
        text::find_from(t, seq![c], from) == Some(at),
{
    assert(t.subrange(at, at + 1) =~= seq![c]);
    assert forall|j: int| from <= j < at implies !text::occurs_at(t, seq![c], j) by {
        assert(t.subrange(j, j + 1)[0] == t[j]);
        assert(seq![c][0] == c);
    }
    text::lemma_find_from_is(t, seq![c], from, at);
}

/// A tag that nothing closes reaches as far as the text.
pub proof fn law_open_tag_reaches_to_the_end(before: Seq<char>, body: Seq<char>)
    requires
        forall|i: int| 0 <= i < before.len() ==> #[trigger] before[i] != '【',
        forall|i: int| 0 <= i < body.len() ==> #[trigger] body[i] != '】',
    ensures
        tag_of(before + seq!['【'] + body, Seq::empty(), Seq::empty()) == text::trimmed(
            seq!['【'] + body,
        ),
{
    let nothing = Seq::<char>::empty();
    let whole = before + seq!['【'] + body;
    let p = before.len() as int;
    assert(whole[p] == '【');
    assert forall|j: int| 0 <= j < p implies #[trigger] whole[j] != '【' by {
        assert(whole[j] == before[j]);
    }
    assert forall|j: int| p <= j < whole.len() implies #[trigger] whole[j] != '】' by {
        if j > p {
            assert(whole[j] == body[j - p - 1]);
        }
    }
    lemma_tag_of_what_is_left(whole);
    let (a, b) = lemma_trimmed_around(whole, p);
    let t = text::trimmed(whole);
    let open = t.skip(p - a);
    assert(bracketed(t) == open) by {
        assert forall|j: int| 0 <= j < p - a implies #[trigger] t[j] != '【' by {
            assert(t[j] == whole[a + j]);
        }
        assert forall|j: int| p - a <= j < t.len() implies #[trigger] t[j] != '】' by {
            assert(t[j] == whole[a + j]);
        }
        lemma_bracketed_to_the_end(t, p - a);
    }
    let pad = whole.skip(b);
    assert(whole.skip(p) =~= seq!['【'] + body);
    assert(whole.skip(p) =~= nothing + open + pad);
    assert forall|i: int| 0 <= i < pad.len() implies text::is_white_space(#[trigger] pad[i]) by {
        assert(pad[i] == whole[b + i]);
    }
    text::law_padding_does_not_count(nothing, open, pad);
}

/// A text without `【` has no tag.
pub proof fn law_no_bracket_no_tag(whole: Seq<char>)
    requires
        forall|i: int| 0 <= i < whole.len() ==> #[trigger] whole[i] != '【',
    ensures
        tag_of(whole, Seq::empty(), Seq::empty()).len() == 0,
{
    lemma_tag_of_what_is_left(whole);
    let t = text::trimmed(whole);
    text::law_trimmed_is_exact(whole);
    let (a, b) = choose|a: int, b: int|
        0 <= a <= b <= whole.len() && t == #[trigger] whole.subrange(a, b) && (forall|i: int|
            0 <= i < a || b <= i < whole.len() ==> text::is_white_space(#[trigger] whole[i])) && (a
            < b ==> !text::is_white_space(whole[a]) && !text::is_white_space(whole[b - 1]));
    text::lemma_find_from(t, seq!['【'], 0);
    if let Some(at) = text::find_from(t, seq!['【'], 0) {
        assert(t.subrange(at, at + 1)[0] == t[at]);
        assert(seq!['【'][0] == '【');
        assert(t[at] == whole[a + at]);
        assert(false);
    }
    text::law_trimmed_of_white(Seq::empty());
}

proof fn lemma_tag_of_what_is_left(whole: Seq<char>)
    ensures
        tag_of(whole, Seq::empty(), Seq::empty()) == text::trimmed(
            bracketed(text::trimmed(whole)),
        ),
{
    let nothing = Seq::<char>::empty();
    let t = text::trimmed(whole);
    assert(whole.subrange(0, 0) =~= nothing);
    assert(whole.skip(0) =~= whole);
    assert(t.subrange(t.len() as int, t.len() as int) =~= nothing);
    assert(t.take(t.len() as int) =~= t);
    lemma_trimmed_is_trimmed(whole);
}

} // verus!
