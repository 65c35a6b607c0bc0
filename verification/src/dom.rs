//! Elements of HTML documents, as far as the portal's pages are read.

use crate::text;
use vstd::prelude::*;

verus! {

/// An element of a document: the text inside it and the attributes that are read.
#[derive(Debug, Clone)]
pub struct Element {
    pub text: String,
    pub id: Option<String>,
    pub name: Option<String>,
    pub value: Option<String>,
    pub href: Option<String>,
    pub action: Option<String>,
}

/// The contents of an `Element`.
pub struct ElementView {
    pub text: Seq<char>,
    pub id: Option<Seq<char>>,
    pub name: Option<Seq<char>>,
    pub value: Option<Seq<char>>,
    pub href: Option<Seq<char>>,
    pub action: Option<Seq<char>>,
}

impl View for Element {
    type V = ElementView;

    open spec fn view(&self) -> ElementView {
        ElementView {
            text: self.text@,
            id: text::opt_view(self.id),
            name: text::opt_view(self.name),
            value: text::opt_view(self.value),
            href: text::opt_view(self.href),
            action: text::opt_view(self.action),
        }
    }
}

/// The contents of each element.
pub open spec fn element_views(elements: Seq<Element>) -> Seq<ElementView> {
    Seq::new(elements.len(), |i: int| elements[i]@)
}

/// The contents of each element that is there.
pub open spec fn opt_element_views(elements: Seq<Option<Element>>) -> Seq<Option<ElementView>> {
    Seq::new(
        elements.len(),
        |i: int|
            match elements[i] {
                Some(e) => Some(e@),
                None => None,
            },
    )
}

/// The selectors that the portal's pages are read with.
pub open spec fn is_page_selector(css: Seq<char>) -> bool {
    ||| css == "title"@
    ||| css == "a[href]"@
    ||| css == ".Newslist ul li"@
    ||| css == "span"@
    ||| css == "input"@
    ||| css == "form"@
}

/// The elements that `scraper::Html::select` yields for the selector `css` on the
/// document that `scraper::Html::parse_document` makes of `html`.
pub uninterp spec fn selected(html: Seq<char>, css: Seq<char>) -> Seq<ElementView>;

/// For each element of `selected(html, outer)`, in the same order, the first one
/// that `scraper::ElementRef::select` yields inside it for the selector `inner`.
pub uninterp spec fn first_inside(
    html: Seq<char>,
    outer: Seq<char>,
    inner: Seq<char>,
) -> Seq<Option<ElementView>>;

/// Calls `scraper::Html::parse_document` and `scraper::Html::select`, and copies
/// out of each element its text, its id and its attributes. The result depends on
/// the two texts alone and has the name `selected`. `scraper::Selector::parse`
/// accepts each of the selectors that `is_page_selector` lists.
#[verifier::external_body]
pub(crate) fn select_all(html: &str, css: &str) -> (r: Vec<Element>)
    requires
        is_page_selector(css@),
    ensures
        element_views(r@) == selected(html@, css@),
{
    let selector = scraper::Selector::parse(css).expect("valid selector");
    let copy = |e: scraper::ElementRef| Element {
        text: e.text().collect(),
        id: e.value().id().map(str::to_owned),
        name: e.attr("name").map(str::to_owned),
        value: e.attr("value").map(str::to_owned),
        href: e.attr("href").map(str::to_owned),
        action: e.attr("action").map(str::to_owned),
    };
    scraper::Html::parse_document(html).select(&selector).map(copy).collect()
}

/// Calls `scraper::ElementRef::select` on each element that `select_all` yields
/// for `outer`, and copies out the first element of each call. The result depends
/// on the three texts alone, has the name `first_inside`, and has one place for
/// each element of `selected(html, outer)`.
#[verifier::external_body]
pub(crate) fn select_first_inside(html: &str, outer: &str, inner: &str) -> (r: Vec<Option<Element>>)
    requires
        is_page_selector(outer@),
        is_page_selector(inner@),
    ensures
        opt_element_views(r@) == first_inside(html@, outer@, inner@),
        r@.len() == selected(html@, outer@).len(),
{
    let outer = scraper::Selector::parse(outer).expect("valid selector");
    let inner = scraper::Selector::parse(inner).expect("valid selector");
    let copy = |e: scraper::ElementRef| Element {
        text: e.text().collect(),
        id: e.value().id().map(str::to_owned),
        name: e.attr("name").map(str::to_owned),
        value: e.attr("value").map(str::to_owned),
        href: e.attr("href").map(str::to_owned),
        action: e.attr("action").map(str::to_owned),
    };
    scraper::Html::parse_document(html).select(&outer).map(|e| e.select(&inner).next().map(copy)).collect()
}

// ── laws ────────────────────────────────────────────────────────────────────
/// The contents of elements are their fields, one element for each, in order.
pub proof fn law_element_contents(elements: Seq<Element>)
    ensures
        element_views(elements).len() == elements.len(),
        forall|i: int|
            0 <= i < elements.len() ==> {
                &&& (#[trigger] element_views(elements)[i]).text == elements[i].text@
                &&& element_views(elements)[i].id == text::opt_view(elements[i].id)
                &&& element_views(elements)[i].name == text::opt_view(elements[i].name)
                &&& element_views(elements)[i].value == text::opt_view(elements[i].value)
                &&& element_views(elements)[i].href == text::opt_view(elements[i].href)
                &&& element_views(elements)[i].action == text::opt_view(elements[i].action)
            },
{
}

/// The contents of elements that may be absent are those of the ones that are
/// there, each in its place.
pub proof fn law_optional_element_contents(elements: Seq<Option<Element>>)
    ensures
        opt_element_views(elements).len() == elements.len(),
        forall|i: int|
            0 <= i < elements.len() ==> {
                &&& (#[trigger] opt_element_views(elements)[i]) is None <==> elements[i] is None
                &&& elements[i] matches Some(e) ==> opt_element_views(elements)[i] == Some(e@)
            },
{
}

} // verus!
