//! Collects the notices of a date range over the pages of the list, which holds
//! the newest notices first.

use crate::extract;
use crate::extract::{extract_notice_items, find_next_page_url};
use crate::models;
use crate::models::{NoticeItem, NoticeList, NoticeView};
use crate::page_url;
use crate::page_url::PageUrl;
use crate::text;
use crate::text::text_precedes;
use vstd::prelude::*;

verus! {

/// The first day that is asked for where none is given.
pub const EARLIEST: &'static str = "0000-01-01";

/// The last day that is asked for where none is given.
pub const LATEST: &'static str = "9999-12-31";

/// The days that notices are asked for, both ends counted in.
#[derive(Debug, Clone)]
pub struct DateWindow {
    pub lower: String,
    pub upper: String,
}

/// The window for the bounds that were given: none without any bound.
pub open spec fn window_of(from: Option<Seq<char>>, to: Option<Seq<char>>) -> Option<
    (Seq<char>, Seq<char>),
> {
    if from is None && to is None {
        None
    } else {
        Some(
            (
                match from {
                    Some(d) => d,
                    None => EARLIEST@,
                },
                match to {
                    Some(d) => d,
                    None => LATEST@,
                },
            ),
        )
    }
}

/// The window for the bounds that were given: none without any bound.
pub fn date_window(from: Option<&str>, to: Option<&str>) -> (r: Option<DateWindow>)
    ensures
        match r {
            Some(w) => window_of(text::opt_str_view(from), text::opt_str_view(to)) == Some(
                (w.lower@, w.upper@),
            ),
            None => window_of(text::opt_str_view(from), text::opt_str_view(to)) is None,
        },
{
    if from.is_none() && to.is_none() {
        return None;
    }
    let lower: String = match from {
        Some(d) => d.to_owned(),
        None => EARLIEST.to_owned(),
    };
    let upper: String = match to {
        Some(d) => d.to_owned(),
        None => LATEST.to_owned(),
    };
    Some(DateWindow { lower, upper })
}

/// The date is no earlier than `lower` and no later than `upper`.
pub open spec fn in_window(date: Seq<char>, lower: Seq<char>, upper: Seq<char>) -> bool {
    !text::precedes(date, lower) && !text::precedes(upper, date)
}

/// The notices whose date is in the window, in order.
pub open spec fn windowed(
    notices: Seq<NoticeView>,
    lower: Seq<char>,
    upper: Seq<char>,
) -> Seq<NoticeView>
    decreases notices.len(),
{
    if notices.len() == 0 {
        Seq::empty()
    } else {
        let before = windowed(notices.drop_last(), lower, upper);
        if in_window(notices.last().date, lower, upper) {
            before.push(notices.last())
        } else {
            before
        }
    }
}

/// What has been collected: the notices of the pages that were read, how many
/// pages those are, and the URL of the last one.
#[derive(Debug)]
pub struct NoticePager {
    window: DateWindow,
    notices: Vec<NoticeItem>,
    pages_fetched: usize,
    current_url: PageUrl,
}

/// The contents of a `NoticePager`.
pub struct PagerView {
    pub lower: Seq<char>,
    pub upper: Seq<char>,
    pub notices: Seq<NoticeView>,
    pub pages: int,
    pub url: Seq<char>,
}

impl View for NoticePager {
    type V = PagerView;

    closed spec fn view(&self) -> PagerView {
        PagerView {
            lower: self.window.lower@,
            upper: self.window.upper@,
            notices: models::notice_views(self.notices@),
            pages: self.pages_fetched as int,
            url: self.current_url@,
        }
    }
}

/// More pages can hold notices of the window: the oldest notice so far, the last
/// one, is not from before it.
pub open spec fn wants_more_pages(pager: PagerView) -> bool {
    pager.notices.len() > 0 && !text::precedes(pager.notices.last().date, pager.lower)
}

/// What is collected once the notices of the page at `url` are added: a page
/// without notices adds nothing.
pub open spec fn with_page(pager: PagerView, url: Seq<char>, notices: Seq<NoticeView>) -> PagerView {
    if notices.len() == 0 {
        pager
    } else {
        PagerView { notices: pager.notices + notices, pages: pager.pages + 1, url, ..pager }
    }
}

/// What is collected after the first page.
pub open spec fn first_page(
    lower: Seq<char>,
    upper: Seq<char>,
    url: Seq<char>,
    notices: Seq<NoticeView>,
) -> PagerView {
    PagerView { lower, upper, notices, pages: 1, url }
}

impl NoticePager {
    /// At least one page was read, and each page but a first one without notices
    /// added at least one notice.
    #[verifier::type_invariant]
    pub closed spec fn wf(self) -> bool {
        &&& self.pages_fetched >= 1
        &&& self.pages_fetched == 1 || self.pages_fetched <= self.notices@.len()
    }

    /// Starts with the notices of the first page, which was read at `url`.
    pub fn start_with(window: DateWindow, url: &PageUrl, notices: Vec<NoticeItem>) -> (r: NoticePager)
        ensures
            r@ == first_page(window.lower@, window.upper@, url@, models::notice_views(notices@)),
    {
        NoticePager { window, notices, pages_fetched: 1, current_url: url.clone() }
    }

    /// Starts with the first page `html`, which was read at `url`.
    pub fn start(window: DateWindow, url: &PageUrl, html: &str) -> (r: NoticePager)
        ensures
            r@ == first_page(
                window.lower@,
                window.upper@,
                url@,
                extract::notices_on(html@, url@),
            ),
    {
        NoticePager::start_with(window, url, extract_notice_items(html, url))
    }

    /// Whether more pages can hold notices of the window.
    pub fn wants_more(&self) -> (r: bool)
        ensures
            r == wants_more_pages(self@),
    {
        let n: usize = self.notices.len();
        if n == 0 {
            return false;
        }
        assert(self@.notices.last() == self.notices@[n - 1]@);
        !text_precedes(self.notices[n - 1].date.as_str(), self.window.lower.as_str())
    }

    /// The page to read next: the one behind the page `html`, which is the last one
    /// that was read, as long as more pages can hold notices of the window.
    pub fn next_page(&self, html: &str) -> (r: Option<PageUrl>)
        ensures
            page_url::opt_url_view(r) == (if wants_more_pages(self@) {
                extract::next_page_of(html@, self@.url)
            } else {
                None
            }),
    {
        if self.wants_more() {
            find_next_page_url(html, &self.current_url)
        } else {
            None
        }
    }

    /// Adds the notices of the page at `url`. A page without notices ends the
    /// collection: nothing is added and the answer is `false`.
    pub fn add_notices(&mut self, url: &PageUrl, notices: Vec<NoticeItem>) -> (r: bool)
        requires
            wants_more_pages(old(self)@),
        ensures
            final(self)@ == with_page(old(self)@, url@, models::notice_views(notices@)),
            r == (notices@.len() > 0),
    {
        proof {
            use_type_invariant(&*self);
        }
        if notices.len() == 0 {
            return false;
        }
        let ghost before = self.notices@;
        let mut more: Vec<NoticeItem> = notices;
        let mut all: Vec<NoticeItem> = Vec::new();
        let pages: usize = self.pages_fetched;
        self.pages_fetched = 1;
        std::mem::swap(&mut all, &mut self.notices);
        all.append(&mut more);
        let total: usize = all.len();
        assert(pages < total);
        self.notices = all;
        self.pages_fetched = pages + 1;
        self.current_url = url.clone();
        assert(models::notice_views(self.notices@) =~= models::notice_views(before)
            + models::notice_views(notices@));
        true
    }

    /// Adds the notices of the page `html` at `url`.
    pub fn add_page(&mut self, url: &PageUrl, html: &str) -> (r: bool)
        requires
            wants_more_pages(old(self)@),
        ensures
            final(self)@ == with_page(old(self)@, url@, extract::notices_on(html@, url@)),
            r == (extract::notices_on(html@, url@).len() > 0),
    {
        let notices: Vec<NoticeItem> = extract_notice_items(html, url);
        assert(models::notice_views(notices@).len() == notices@.len());
        self.add_notices(url, notices)
    }

    /// The collected notices of the window, in order, and the number of pages.
    pub fn finish(self) -> (r: NoticeList)
        ensures
            models::notice_views(r.notices@) == windowed(self@.notices, self@.lower, self@.upper),
            models::notice_views(r.notices@) == self@.notices.filter(
                |n: NoticeView|
                    !text::precedes(n.date, self@.lower) && !text::precedes(self@.upper, n.date),
            ),
            r.notices@.len() <= self@.notices.len(),
            r.pages_fetched == self@.pages,
    {
        let ghost all = self@.notices;
        let mut kept: Vec<NoticeItem> = Vec::new();
        let mut i: usize = 0;
        assert(models::notice_views(kept@) =~= windowed(all.take(0), self@.lower, self@.upper));
        while i < self.notices.len()
            invariant
                i <= self.notices@.len(),
                all == self@.notices,
                models::notice_views(kept@) == windowed(
                    all.take(i as int),
                    self@.lower,
                    self@.upper,
                ),
            decreases self.notices@.len() - i,
        {
            let notice: &NoticeItem = &self.notices[i];
            let ghost before = kept@;
            assert(all.take(i + 1).drop_last() =~= all.take(i as int));
            assert(all.take(i + 1).last() == notice@);
            let date: &str = notice.date.as_str();
            if !text_precedes(date, self.window.lower.as_str()) && !text_precedes(
                self.window.upper.as_str(),
                date,
            ) {
                let copy: NoticeItem = notice.clone();
                kept.push(copy);
                assert(models::notice_views(kept@) =~= models::notice_views(before).push(copy@));
            }
            i = i + 1;
        }
        assert(all.take(all.len() as int) =~= all);
        proof {
            law_windowed_is_the_filter(all, self@.lower, self@.upper);
            assert(models::notice_views(kept@).len() == kept@.len());
        }
        NoticeList { notices: kept, pages_fetched: self.pages_fetched }
    }
}

// ── laws ────────────────────────────────────────────────────────────────────
/// The window keeps the notices of its days and no others.
pub proof fn law_windowed_is_exact(
    notices: Seq<NoticeView>,
    lower: Seq<char>,
    upper: Seq<char>,
)
    ensures
        forall|n: NoticeView| #[trigger]
            windowed(notices, lower, upper).contains(n) <==> notices.contains(n) && in_window(
                n.date,
                lower,
                upper,
            ),
    decreases notices.len(),
{
    let kept = windowed(notices, lower, upper);
    if notices.len() > 0 {
        let front = notices.drop_last();
        let last = notices.last();
        let before = windowed(front, lower, upper);
        law_windowed_is_exact(front, lower, upper);
        assert forall|n: NoticeView| #[trigger] kept.contains(n) <==> notices.contains(n)
            && in_window(n.date, lower, upper) by {
            if kept.contains(n) {
                let i = choose|i: int| 0 <= i < kept.len() && kept[i] == n;
                if i < before.len() {
                    assert(before[i] == n);
                    assert(before.contains(n));
                    let k = choose|k: int| 0 <= k < front.len() && front[k] == n;
                    assert(notices[k] == n);
                } else {
                    assert(notices[notices.len() - 1] == n);
                }
            }
            if notices.contains(n) && in_window(n.date, lower, upper) {
                let k = choose|k: int| 0 <= k < notices.len() && notices[k] == n;
                if k < front.len() {
                    assert(front[k] == n);
                    assert(front.contains(n));
                    assert(before.contains(n));
                    let i = choose|i: int| 0 <= i < before.len() && before[i] == n;
                    assert(kept[i] == n);
                } else {
                    assert(kept[kept.len() - 1] == n);
                }
            }
        }
    }
}

/// Both ends of a window belong to it.
pub proof fn law_window_holds_its_ends(lower: Seq<char>, upper: Seq<char>)
    requires
        !text::precedes(upper, lower),
    ensures
        in_window(lower, lower, upper),
        in_window(upper, lower, upper),
{
    text::law_precedes_is_strict_total_order(lower, lower, lower);
    text::law_precedes_is_strict_total_order(upper, upper, upper);
}

/// The window goes page by page: of two lists in a row it keeps what it keeps of
/// each.
pub proof fn law_windowed_splits(
    a: Seq<NoticeView>,
    b: Seq<NoticeView>,
    lower: Seq<char>,
    upper: Seq<char>,
)
    ensures
        windowed(a + b, lower, upper) == windowed(a, lower, upper) + windowed(b, lower, upper),
    decreases b.len(),
{
    if b.len() == 0 {
        assert(a + b =~= a);
        assert(windowed(a, lower, upper) + windowed(b, lower, upper) =~= windowed(
            a,
            lower,
            upper,
        ));
    } else {
        assert((a + b).drop_last() =~= a + b.drop_last());
        law_windowed_splits(a, b.drop_last(), lower, upper);
        assert(windowed(a + b, lower, upper) =~= windowed(a, lower, upper) + windowed(
            b,
            lower,
            upper,
        ));
    }
}

/// The newest notices stand first: no notice is from before a later one.
pub open spec fn newest_first(notices: Seq<NoticeView>) -> bool {
    forall|i: int, j: int|
        0 <= i < j < notices.len() ==> !text::precedes(
            (#[trigger] notices[i]).date,
            (#[trigger] notices[j]).date,
        )
}

/// Stopping is safe: on a list with the newest notices first, once the last notice
/// that was read is from before the window, the notices behind it hold nothing of
/// the window, so that what was read gives what the whole list would give.
pub proof fn law_stopping_loses_nothing(
    read: Seq<NoticeView>,
    behind: Seq<NoticeView>,
    lower: Seq<char>,
    upper: Seq<char>,
)
    requires
        newest_first(read + behind),
        read.len() > 0,
        text::precedes(read.last().date, lower),
    ensures
        windowed(read + behind, lower, upper) == windowed(read, lower, upper),
{
    let all = read + behind;
    assert forall|j: int| 0 <= j < behind.len() implies text::precedes(
        (#[trigger] behind[j]).date,
        lower,
    ) by {
        let last = read.len() - 1;
        assert(all[last] == read.last());
        assert(all[read.len() + j] == behind[j]);
        assert(!text::precedes(all[last].date, all[read.len() + j].date));
        text::law_precedes_is_strict_total_order(read.last().date, behind[j].date, lower);
        text::law_precedes_is_strict_total_order(behind[j].date, read.last().date, lower);
    }
    law_windowed_splits(read, behind, lower, upper);
    lemma_windowed_of_earlier(behind, lower, upper);
    assert(windowed(read, lower, upper) + Seq::<NoticeView>::empty() =~= windowed(
        read,
        lower,
        upper,
    ));
}

proof fn lemma_windowed_of_earlier(
    notices: Seq<NoticeView>,
    lower: Seq<char>,
    upper: Seq<char>,
)
    requires
        forall|j: int|
            0 <= j < notices.len() ==> text::precedes((#[trigger] notices[j]).date, lower),
    ensures
        windowed(notices, lower, upper) == Seq::<NoticeView>::empty(),
    decreases notices.len(),
{
    if notices.len() > 0 {
        let front = notices.drop_last();
        assert forall|j: int| 0 <= j < front.len() implies text::precedes(
            (#[trigger] front[j]).date,
            lower,
        ) by {
            assert(front[j] == notices[j]);
        }
        lemma_windowed_of_earlier(front, lower, upper);
        assert(notices.last() == notices[notices.len() - 1]);
    }
}

/// What is collected after further pages, given with their URLs.
pub open spec fn after_pages(
    pager: PagerView,
    pages: Seq<(Seq<char>, Seq<NoticeView>)>,
) -> PagerView
    decreases pages.len(),
{
    if pages.len() == 0 {
        pager
    } else {
        with_page(after_pages(pager, pages.drop_last()), pages.last().0, pages.last().1)
    }
}

/// The notices of all pages, in order.
pub open spec fn all_notices(pages: Seq<(Seq<char>, Seq<NoticeView>)>) -> Seq<NoticeView>
    decreases pages.len(),
{
    if pages.len() == 0 {
        Seq::empty()
    } else {
        all_notices(pages.drop_last()) + pages.last().1
    }
}

/// Pages with notices are collected whole and in order, each is counted, and the
/// window stays as it was.
pub proof fn law_pages_accumulate(pager: PagerView, pages: Seq<(Seq<char>, Seq<NoticeView>)>)
    requires
        forall|i: int| 0 <= i < pages.len() ==> (#[trigger] pages[i]).1.len() > 0,
    ensures
        after_pages(pager, pages).notices == pager.notices + all_notices(pages),
        after_pages(pager, pages).pages == pager.pages + pages.len(),
        after_pages(pager, pages).lower == pager.lower,
        after_pages(pager, pages).upper == pager.upper,
    decreases pages.len(),
{
    if pages.len() == 0 {
        assert(pager.notices + all_notices(pages) =~= pager.notices);
    } else {
        let front = pages.drop_last();
        assert forall|i: int| 0 <= i < front.len() implies (#[trigger] front[i]).1.len() > 0 by {
            assert(front[i] == pages[i]);
        }
        law_pages_accumulate(pager, front);
        assert(pages.last() == pages[pages.len() - 1]);
        assert(after_pages(pager, pages).notices =~= pager.notices + all_notices(pages));
    }
}

/// The whole collection is complete: where the list holds the newest notices first
/// and the last notice that was read is from before the window, the notices kept
/// of the pages that were read are those that the window keeps of the whole list.
pub proof fn law_collection_is_complete(
    first: PagerView,
    pages: Seq<(Seq<char>, Seq<NoticeView>)>,
    behind: Seq<NoticeView>,
)
    requires
        forall|i: int| 0 <= i < pages.len() ==> (#[trigger] pages[i]).1.len() > 0,
        newest_first(first.notices + all_notices(pages) + behind),
        after_pages(first, pages).notices.len() > 0,
        !wants_more_pages(after_pages(first, pages)),
    ensures
        windowed(
            after_pages(first, pages).notices,
            after_pages(first, pages).lower,
            after_pages(first, pages).upper,
        ) == windowed(first.notices + all_notices(pages) + behind, first.lower, first.upper),
{
    law_pages_accumulate(first, pages);
    law_stopping_loses_nothing(
        first.notices + all_notices(pages),
        behind,
        first.lower,
        first.upper,
    );
}

/// The window takes notices out and does nothing else: what it keeps is what
/// filtering by the date leaves, in the order of the list, and never more than
/// there was.
pub proof fn law_windowed_is_the_filter(
    notices: Seq<NoticeView>,
    lower: Seq<char>,
    upper: Seq<char>,
)
    ensures
        windowed(notices, lower, upper) == notices.filter(
            |n: NoticeView| !text::precedes(n.date, lower) && !text::precedes(upper, n.date),
        ),
        windowed(notices, lower, upper).len() <= notices.len(),
    decreases notices.len(),
{
    reveal(Seq::filter);
    if notices.len() > 0 {
        law_windowed_is_the_filter(notices.drop_last(), lower, upper);
    } else {
        assert(windowed(notices, lower, upper) =~= notices);
    }
}

/// The window keeps a notice of its days as often as it was collected, and a notice
/// of another day not at all.
pub proof fn law_windowed_keeps_each_as_often(
    notices: Seq<NoticeView>,
    lower: Seq<char>,
    upper: Seq<char>,
    n: NoticeView,
)
    ensures
        windowed(notices, lower, upper).to_multiset().count(n) == (if !text::precedes(n.date, lower)
            && !text::precedes(upper, n.date) {
            notices.to_multiset().count(n)
        } else {
            0
        }),
    decreases notices.len(),
{
    let kept = windowed(notices, lower, upper);
    kept.to_multiset_ensures();
    notices.to_multiset_ensures();
    if notices.len() > 0 {
        let front = notices.drop_last();
        let before = windowed(front, lower, upper);
        law_windowed_keeps_each_as_often(front, lower, upper, n);
        front.to_multiset_ensures();
        before.to_multiset_ensures();
        assert(front.push(notices.last()) =~= notices);
        assert(notices.to_multiset() =~= front.to_multiset().insert(notices.last()));
        if in_window(notices.last().date, lower, upper) {
            assert(kept.to_multiset() =~= before.to_multiset().insert(notices.last()));
        }
    } else {
        assert(kept =~= notices);
        assert(kept.to_multiset().len() == 0);
        assert(notices.to_multiset().len() == 0);
    }
}

/// Two notices that the window keeps stand in the order in which they were
/// collected.
pub proof fn law_windowed_keeps_the_order(
    notices: Seq<NoticeView>,
    lower: Seq<char>,
    upper: Seq<char>,
    i: int,
    j: int,
)
    requires
        0 <= i < j < windowed(notices, lower, upper).len(),
    ensures
        exists|k: int, l: int|
            0 <= k < l < notices.len() && #[trigger] notices[k] == windowed(
                notices,
                lower,
                upper,
            )[i] && #[trigger] notices[l] == windowed(notices, lower, upper)[j],
    decreases notices.len(),
{
    let kept = windowed(notices, lower, upper);
    let front = notices.drop_last();
    let before = windowed(front, lower, upper);
    if j < before.len() {
        law_windowed_keeps_the_order(front, lower, upper, i, j);
        let (k, l) = choose|k: int, l: int|
            0 <= k < l < front.len() && #[trigger] front[k] == before[i] && #[trigger] front[l]
                == before[j];
        assert(notices[k] == kept[i] && notices[l] == kept[j]);
    } else {
        law_windowed_is_exact(front, lower, upper);
        assert(before.contains(before[i]));
        let k = choose|k: int| 0 <= k < front.len() && front[k] == before[i];
        assert(notices[k] == kept[i]);
        assert(notices[notices.len() - 1] == kept[j]);
    }
}

/// A bound that is given is the end of the window, and one that is not leaves that
/// end open: as far as ten characters reach. Without any bound there is no window.
pub proof fn law_window_takes_the_bounds(from: Option<Seq<char>>, to: Option<Seq<char>>)
    ensures
        window_of(from, to) is None <==> from is None && to is None,
        window_of(from, to) matches Some((lower, upper)) ==> {
            &&& from is Some ==> lower == from->0
            &&& from is None ==> lower == "0000-01-01"@
            &&& to is Some ==> upper == to->0
            &&& to is None ==> upper == "9999-12-31"@
        },
{
}

/// Reading goes on exactly as long as something was read and the last notice is not
/// from before the window.
pub proof fn law_reading_goes_on(pager: PagerView)
    ensures
        pager.notices.len() == 0 ==> !wants_more_pages(pager),
        pager.notices.len() > 0 ==> (wants_more_pages(pager) <==> !text::precedes(
            pager.notices[pager.notices.len() - 1].date,
            pager.lower,
        )),
{
}

/// The first page counts as one, with its notices; a further page with notices adds
/// them behind the others, counts one more and is where reading goes on; and a page
/// without notices leaves everything as it was.
pub proof fn law_page_is_added(
    lower: Seq<char>,
    upper: Seq<char>,
    url: Seq<char>,
    notices: Seq<NoticeView>,
    pager: PagerView,
)
    ensures
        first_page(lower, upper, url, notices).notices == notices,
        first_page(lower, upper, url, notices).pages == 1,
        first_page(lower, upper, url, notices).url == url,
        first_page(lower, upper, url, notices).lower == lower,
        first_page(lower, upper, url, notices).upper == upper,
        notices.len() == 0 ==> with_page(pager, url, notices) == pager,
        with_page(pager, url, notices).notices == pager.notices + notices,
        with_page(pager, url, notices).lower == pager.lower,
        with_page(pager, url, notices).upper == pager.upper,
        notices.len() > 0 ==> with_page(pager, url, notices).pages == pager.pages + 1,
        notices.len() > 0 ==> with_page(pager, url, notices).url == url,
{
    if notices.len() == 0 {
        assert(pager.notices + notices =~= pager.notices);
    }
}

} // verus!
