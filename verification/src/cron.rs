//! The unattended run: which days it fetches, with which session, and how it adds
//! what it fetched to the notices that it keeps.

use crate::calendar;
use crate::calendar::{date_text, subtract_days, Day};
use crate::extract;
use crate::models;
use crate::models::{NoticeItem, NoticeView};
use crate::text;
use crate::text::same_text;
use vstd::prelude::*;

verus! {

// ── the days ────────────────────────────────────────────────────────────────
/// The first and the last day of a run on the day `today` over `days` days, as they
/// are written: `1` means that day alone. Nothing where the calendar has no such
/// day or does not reach the first one.
pub open spec fn run_window(today: Day, days: int) -> Option<(Seq<char>, Seq<char>)> {
    match (calendar::day_reached(today, days - 1), calendar::day_reached(today, 0)) {
        (Some(from), Some(to)) => Some((calendar::date_text_of(from), calendar::date_text_of(to))),
        _ => None,
    }
}

/// The first and the last day of a run on the given day over `days` days.
pub fn cron_window(year: i32, month: u32, day: u32, days: u32) -> (r: Option<(String, String)>)
    ensures
        match r {
            Some((from, to)) => run_window(calendar::day_of((year, month, day)), days as int)
                == Some((from@, to@)),
            None => run_window(calendar::day_of((year, month, day)), days as int) is None,
        },
{
    let back: i64 = days as i64 - 1;
    match (subtract_days(year, month, day, back), subtract_days(year, month, day, 0)) {
        (Some((y, m, d)), Some((v, n, e))) => Some((date_text(y, m, d), date_text(v, n, e))),
        _ => None,
    }
}

// ── the session ─────────────────────────────────────────────────────────────
/// How a run goes on once the saved session was tried.
#[derive(Debug, Clone)]
pub enum CronStep {
    /// The saved session is live: what it fetched counts.
    UseSaved,
    /// A browser login is needed, and can be made with these credentials.
    Login { username: String, password: String },
    /// A browser login is needed, and the username is not known.
    MissingUsername,
    /// A browser login is needed, and the password is not known.
    MissingPassword,
}

/// Decides how a run goes on once the saved session was tried. Credentials are
/// needed only where it is not live.
pub fn after_saved_session(
    live: bool,
    username: Option<String>,
    password: Option<String>,
) -> (r: CronStep)
    ensures
        live ==> r is UseSaved,
        !live && username is None ==> r is MissingUsername,
        !live && username is Some && password is None ==> r is MissingPassword,
        !live && username is Some && password is Some ==> (r matches CronStep::Login {
            username: u,
            password: p,
        } && u@ == username->0@ && p@ == password->0@),
{
    if live {
        return CronStep::UseSaved;
    }
    match username {
        Some(username) => match password {
            Some(password) => CronStep::Login { username, password },
            None => CronStep::MissingPassword,
        },
        None => CronStep::MissingUsername,
    }
}

/// True where a run that fetched so many notices writes the file: one that fetched
/// none leaves it as it is.
pub fn writes_notices(fetched: usize) -> (r: bool)
    ensures
        r == (fetched > 0),
{
    fetched > 0
}

// ── the notices ─────────────────────────────────────────────────────────────
/// Some notice has the URL `url`.
pub open spec fn has_url(notices: Seq<NoticeView>, url: Seq<char>) -> bool {
    exists|i: int| 0 <= i < notices.len() && (#[trigger] notices[i]).url == url
}

/// The fetched notices whose URL none of the kept ones has, in order, each URL once:
/// of several notices with one URL the first counts.
pub open spec fn fresh(kept: Seq<NoticeView>, fetched: Seq<NoticeView>) -> Seq<NoticeView>
    decreases fetched.len(),
{
    if fetched.len() == 0 {
        Seq::empty()
    } else {
        let before = fresh(kept, fetched.drop_last());
        let notice = fetched.last();
        if has_url(kept, notice.url) || has_url(fetched.drop_last(), notice.url) {
            before
        } else {
            before.push(notice)
        }
    }
}

/// The kept notices with the fresh ones in front of them.
pub open spec fn merged(kept: Seq<NoticeView>, fetched: Seq<NoticeView>) -> Seq<NoticeView> {
    fresh(kept, fetched) + kept
}

fn knows_url(urls: &Vec<String>, url: &str) -> (r: bool)
    ensures
        r == exists|i: int| 0 <= i < urls@.len() && (#[trigger] urls@[i])@ == url@,
{
    let mut i: usize = 0;
    while i < urls.len()
        invariant
            i <= urls@.len(),
            forall|j: int| 0 <= j < i ==> (#[trigger] urls@[j])@ != url@,
        decreases urls@.len() - i,
    {
        if same_text(urls[i].as_str(), url) {
            return true;
        }
        i = i + 1;
    }
    false
}

/// Adds to the kept notices, in front and in their order, those of the fetched
/// ones whose URL is not among them yet, each URL once, and says how many those
/// are.
pub fn merge_notices(kept: Vec<NoticeItem>, fetched: Vec<NoticeItem>) -> (r: (
    Vec<NoticeItem>,
    usize,
))
    ensures
        models::notice_views(r.0@) == merged(
            models::notice_views(kept@),
            models::notice_views(fetched@),
        ),
        r.1 == fresh(models::notice_views(kept@), models::notice_views(fetched@)).len(),
        r.0@.len() == r.1 + kept@.len(),
        models::notice_views(r.0@).skip(r.1 as int) == models::notice_views(kept@),
{
    let ghost old_views = models::notice_views(kept@);
    let ghost new_views = models::notice_views(fetched@);
    let mut urls: Vec<String> = Vec::new();
    let mut i: usize = 0;
    while i < kept.len()
        invariant
            i <= kept@.len(),
            urls@.len() == i,
            forall|j: int| 0 <= j < i ==> (#[trigger] urls@[j])@ == kept@[j].url@,
        decreases kept@.len() - i,
    {
        urls.push(kept[i].url.clone());
        i = i + 1;
    }
    let mut all: Vec<NoticeItem> = Vec::new();
    let mut i: usize = 0;
    assert(old_views + new_views.take(0) =~= old_views);
    assert(models::notice_views(all@) =~= fresh(old_views, new_views.take(0)));
    while i < fetched.len()
        invariant
            i <= fetched@.len(),
            new_views == models::notice_views(fetched@),
            models::notice_views(all@) == fresh(old_views, new_views.take(i as int)),
            urls@.len() == old_views.len() + i,
            forall|j: int|
                0 <= j < urls@.len() ==> (#[trigger] urls@[j])@ == (old_views + new_views.take(
                    i as int,
                ))[j].url,
        decreases fetched@.len() - i,
    {
        let notice: &NoticeItem = &fetched[i];
        let ghost front = new_views.take(i as int);
        let ghost next = new_views.take(i + 1);
        let ghost both = old_views + front;
        assert(next.drop_last() =~= front);
        assert(next.last() == notice@);
        let known: bool = knows_url(&urls, notice.url.as_str());
        proof {
            if has_url(old_views, notice.url@) {
                let k = choose|k: int|
                    0 <= k < old_views.len() && (#[trigger] old_views[k]).url == notice.url@;
                assert(both[k] == old_views[k]);
                assert(urls@[k]@ == notice.url@);
            }
            if has_url(front, notice.url@) {
                let k = choose|k: int|
                    0 <= k < front.len() && (#[trigger] front[k]).url == notice.url@;
                assert(both[old_views.len() + k] == front[k]);
                assert(urls@[old_views.len() + k]@ == notice.url@);
            }
            if known {
                let k = choose|k: int|
                    0 <= k < urls@.len() && (#[trigger] urls@[k])@ == notice.url@;
                if k < old_views.len() {
                    assert(old_views[k].url == notice.url@);
                } else {
                    assert(front[k - old_views.len()].url == notice.url@);
                }
            }
        }
        let ghost before = all@;
        let ghost urls_before = urls@;
        if !known {
            let copy: NoticeItem = notice.clone();
            all.push(copy);
            assert(models::notice_views(all@) =~= models::notice_views(before).push(copy@));
        }
        urls.push(notice.url.clone());
        proof {
            assert forall|j: int| 0 <= j < urls@.len() implies (#[trigger] urls@[j])@ == (old_views
                + next)[j].url by {
                if j < urls_before.len() {
                    assert(urls@[j] == urls_before[j]);
                    assert((old_views + next)[j] == both[j]);
                } else {
                    assert((old_views + next)[j] == notice@);
                }
            }
        }
        i = i + 1;
    }
    assert(new_views.take(new_views.len() as int) =~= new_views);
    let added: usize = all.len();
    let ghost front = all@;
    let mut rest: Vec<NoticeItem> = kept;
    all.append(&mut rest);
    assert(models::notice_views(all@) =~= models::notice_views(front) + old_views);
    assert(models::notice_views(all@).skip(added as int) =~= old_views);
    (all, added)
}

// ── laws ────────────────────────────────────────────────────────────────────
/// A run over one day starts and ends on the same day.
pub proof fn law_one_day_run(today: Day)
    ensures
        run_window(today, 1) matches Some((from, to)) ==> from == to,
{
}

/// A run on a day of the years 0 to 9999 has its days, whatever number of them is
/// asked for up to some two hundred thousand.
pub proof fn law_run_window_is_reached(today: Day, days: int)
    requires
        calendar::is_day(today),
        0 <= today.year <= 9999,
        0 <= days <= 262144,
    ensures
        run_window(today, days) is Some,
{
    if days > 0 {
        calendar::law_days_before_lie_before(today, days - 1);
    } else {
        assert(calendar::days_before(today, 0) == today);
        assert(calendar::days_before(today, -1) == calendar::next_day(today));
    }
}

/// The days of a run are written as the portal writes the dates of its notices, and
/// in that order the first one does not come behind the last one, where both lie in
/// the years 0 to 9999.
pub proof fn law_run_window_is_a_date_range(today: Day, days: int)
    requires
        calendar::is_day(today),
        today.year <= 9999,
        days >= 1,
        calendar::days_before(today, days - 1).year >= 0,
    ensures
        run_window(today, days) matches Some((from, to)) ==> {
            &&& extract::is_date_like(from)
            &&& extract::is_date_like(to)
            &&& !text::precedes(to, from)
        },
{
    let first = calendar::days_before(today, days - 1);
    let from = calendar::date_text_of(first);
    let to = calendar::date_text_of(today);
    calendar::law_days_before_lie_before(today, days - 1);
    calendar::law_date_text_reads_like_a_date(first);
    calendar::law_date_text_reads_like_a_date(today);
    if days > 1 {
        calendar::law_date_texts_keep_the_order(first, today);
    }
    text::law_precedes_is_strict_total_order(from, to, from);
}

proof fn lemma_fresh(kept: Seq<NoticeView>, fetched: Seq<NoticeView>)
    ensures
        forall|n: NoticeView| #[trigger]
            fresh(kept, fetched).contains(n) ==> fetched.contains(n) && !has_url(kept, n.url),
        forall|url: Seq<char>| #[trigger]
            has_url(fetched, url) ==> has_url(kept, url) || has_url(fresh(kept, fetched), url),
        urls_differ(fresh(kept, fetched)),
        fresh(kept, fetched).len() <= fetched.len(),
    decreases fetched.len(),
{
    if fetched.len() > 0 {
        let front = fetched.drop_last();
        let last = fetched.last();
        let before = fresh(kept, front);
        let all = fresh(kept, fetched);
        lemma_fresh(kept, front);
        assert(fetched[fetched.len() - 1] == last);
        assert forall|n: NoticeView| #[trigger] all.contains(n) implies fetched.contains(n)
            && !has_url(kept, n.url) by {
            let i = choose|i: int| 0 <= i < all.len() && all[i] == n;
            if i < before.len() {
                assert(before[i] == n);
                assert(before.contains(n));
                let k = choose|k: int| 0 <= k < front.len() && front[k] == n;
                assert(fetched[k] == n);
            }
        }
        assert forall|url: Seq<char>| #[trigger] has_url(fetched, url) implies has_url(kept, url)
            || has_url(all, url) by {
            let k = choose|k: int| 0 <= k < fetched.len() && (#[trigger] fetched[k]).url == url;
            if k < front.len() {
                assert(front[k].url == url);
            }
            if has_url(front, url) {
                if has_url(before, url) {
                    let i = choose|i: int|
                        0 <= i < before.len() && (#[trigger] before[i]).url == url;
                    assert(all[i] == before[i]);
                }
            } else if !has_url(kept, url) {
                assert(all[all.len() - 1] == last);
            }
        }
        assert forall|i: int, j: int| 0 <= i < j < all.len() implies (#[trigger] all[i]).url != (
        #[trigger] all[j]).url by {
            assert(all[i] == before[i]);
            if j < before.len() {
                assert(all[j] == before[j]);
            } else {
                assert(before.contains(before[i]));
                let k = choose|k: int| 0 <= k < front.len() && front[k] == before[i];
                assert(front[k].url == before[i].url);
            }
        }
    }
}

/// Nothing is lost: the kept notices stay as they are behind the fresh ones, and
/// the URL of every fetched notice is there.
pub proof fn law_merge_keeps_all(kept: Seq<NoticeView>, fetched: Seq<NoticeView>)
    ensures
        merged(kept, fetched).skip(fresh(kept, fetched).len() as int) == kept,
        merged(kept, fetched).len() == fresh(kept, fetched).len() + kept.len(),
        forall|i: int|
            0 <= i < fetched.len() ==> has_url(
                merged(kept, fetched),
                (#[trigger] fetched[i]).url,
            ),
{
    let f = fresh(kept, fetched);
    let m = merged(kept, fetched);
    assert(m.skip(f.len() as int) =~= kept);
    lemma_fresh(kept, fetched);
    assert forall|i: int| 0 <= i < fetched.len() implies has_url(m, (#[trigger] fetched[i]).url) by {
        let url = fetched[i].url;
        assert(has_url(fetched, url));
        if has_url(kept, url) {
            let k = choose|k: int| 0 <= k < kept.len() && (#[trigger] kept[k]).url == url;
            assert(m[f.len() + k] == kept[k]);
        } else {
            let k = choose|k: int| 0 <= k < f.len() && (#[trigger] f[k]).url == url;
            assert(m[k].url == url);
        }
    }
}

/// Nothing is made up: what is added was fetched, and its URL was not kept before.
pub proof fn law_merge_adds_only_fetched(kept: Seq<NoticeView>, fetched: Seq<NoticeView>)
    ensures
        forall|n: NoticeView| #[trigger]
            fresh(kept, fetched).contains(n) ==> fetched.contains(n) && !has_url(kept, n.url),
{
    lemma_fresh(kept, fetched);
}

/// A run that fetches nothing changes nothing, and a first run keeps what it
/// fetched where no URL occurs in it twice.
pub proof fn law_merge_with_nothing(notices: Seq<NoticeView>)
    ensures
        merged(notices, Seq::empty()) == notices,
        urls_differ(notices) ==> merged(Seq::empty(), notices) == notices,
{
    let nothing = Seq::<NoticeView>::empty();
    assert(merged(notices, nothing) =~= notices);
    if urls_differ(notices) {
        lemma_all_fresh(notices);
        assert(merged(nothing, notices) =~= notices);
    }
}

proof fn lemma_all_fresh(fetched: Seq<NoticeView>)
    requires
        urls_differ(fetched),
    ensures
        fresh(Seq::empty(), fetched) == fetched,
    decreases fetched.len(),
{
    let nothing = Seq::<NoticeView>::empty();
    if fetched.len() > 0 {
        let front = fetched.drop_last();
        let last = fetched.last();
        assert forall|i: int, j: int| 0 <= i < j < front.len() implies (#[trigger] front[i]).url
            != (#[trigger] front[j]).url by {
            assert(front[i] == fetched[i]);
            assert(front[j] == fetched[j]);
        }
        lemma_all_fresh(front);
        if has_url(front, last.url) {
            let k = choose|k: int| 0 <= k < front.len() && (#[trigger] front[k]).url == last.url;
            assert(fetched[k].url == fetched[fetched.len() - 1].url);
        }
        assert(front.push(last) =~= fetched);
    } else {
        assert(fresh(nothing, fetched) =~= fetched);
    }
}

/// Adding the same notices once more adds nothing.
pub proof fn law_merge_twice_adds_nothing(kept: Seq<NoticeView>, fetched: Seq<NoticeView>)
    ensures
        fresh(merged(kept, fetched), fetched) == Seq::<NoticeView>::empty(),
        merged(merged(kept, fetched), fetched) == merged(kept, fetched),
{
    let m = merged(kept, fetched);
    law_merge_keeps_all(kept, fetched);
    lemma_fresh(m, fetched);
    let again = fresh(m, fetched);
    if again.len() > 0 {
        assert(again.contains(again[0]));
        let k = choose|k: int| 0 <= k < fetched.len() && fetched[k] == again[0];
        assert(has_url(m, fetched[k].url));
    }
    assert(again =~= Seq::<NoticeView>::empty());
    assert(again + m =~= m);
}

/// No URL occurs twice.
pub open spec fn urls_differ(notices: Seq<NoticeView>) -> bool {
    forall|i: int, j: int|
        0 <= i < j < notices.len() ==> (#[trigger] notices[i]).url != (#[trigger] notices[j]).url
}

/// Where no URL occurs twice among the kept notices, none occurs twice afterwards,
/// whatever was fetched.
pub proof fn law_merge_keeps_urls_apart(kept: Seq<NoticeView>, fetched: Seq<NoticeView>)
    requires
        urls_differ(kept),
    ensures
        urls_differ(merged(kept, fetched)),
{
    let f = fresh(kept, fetched);
    let m = merged(kept, fetched);
    lemma_fresh(kept, fetched);
    assert forall|i: int, j: int| 0 <= i < j < m.len() implies (#[trigger] m[i]).url != (
    #[trigger] m[j]).url by {
        if j < f.len() {
            assert(m[i] == f[i]);
            assert(m[j] == f[j]);
        } else if i < f.len() {
            assert(m[i] == f[i]);
            assert(m[j] == kept[j - f.len()]);
            assert(f.contains(f[i]));
        } else {
            assert(m[i] == kept[i - f.len()]);
            assert(m[j] == kept[j - f.len()]);
        }
    }
}

/// The place of the fetched list at which a notice is added: none before it has its
/// URL, and none of the kept ones has it.
spec fn is_first_of_its_url(
    kept: Seq<NoticeView>,
    fetched: Seq<NoticeView>,
    at: int,
) -> bool {
    &&& 0 <= at < fetched.len()
    &&& forall|j: int| 0 <= j < kept.len() ==> (#[trigger] kept[j]).url != fetched[at].url
    &&& forall|j: int| 0 <= j < at ==> (#[trigger] fetched[j]).url != fetched[at].url
}

/// The notices that are added are picked from the fetched ones, each from its own
/// place and without changing their order, whatever was kept: at the places where
/// a URL comes up that no kept notice and no fetched one before has, and at all of
/// those.
pub proof fn law_merge_picks_in_fetched_order(kept: Seq<NoticeView>, fetched: Seq<NoticeView>)
    ensures
        exists|places: Seq<int>|
            #![trigger places.len()]
            {
                &&& places.len() == fresh(kept, fetched).len()
                &&& forall|i: int, j: int|
                    0 <= i < j < places.len() ==> #[trigger] places[i] < #[trigger] places[j]
                &&& forall|i: int|
                    0 <= i < places.len() ==> {
                        &&& 0 <= #[trigger] places[i] < fetched.len()
                        &&& fresh(kept, fetched)[i] == fetched[places[i]]
                        &&& forall|j: int|
                            0 <= j < kept.len() ==> (#[trigger] kept[j]).url
                                != fetched[places[i]].url
                        &&& forall|j: int|
                            0 <= j < places[i] ==> (#[trigger] fetched[j]).url
                                != fetched[places[i]].url
                    }
                &&& forall|at: int|
                    0 <= at < fetched.len() && (forall|j: int|
                        0 <= j < kept.len() ==> (#[trigger] kept[j]).url != fetched[at].url) && (
                    forall|j: int|
                        0 <= j < at ==> (#[trigger] fetched[j]).url != fetched[at].url)
                        ==> #[trigger] places.contains(at)
            },
        merged(kept, fetched) == fresh(kept, fetched) + kept,
{
    let places = lemma_places(kept, fetched);
    assert forall|i: int| 0 <= i < places.len() implies {
        &&& 0 <= #[trigger] places[i] < fetched.len()
        &&& fresh(kept, fetched)[i] == fetched[places[i]]
        &&& forall|j: int|
            0 <= j < kept.len() ==> (#[trigger] kept[j]).url != fetched[places[i]].url
        &&& forall|j: int|
            0 <= j < places[i] ==> (#[trigger] fetched[j]).url != fetched[places[i]].url
    } by {
        assert(is_first_of_its_url(kept, fetched, places[i]));
    }
    assert forall|at: int|
        0 <= at < fetched.len() && (forall|j: int|
            0 <= j < kept.len() ==> (#[trigger] kept[j]).url != fetched[at].url) && (forall|j: int|
            0 <= j < at ==> (#[trigger] fetched[j]).url != fetched[at].url) implies
        #[trigger] places.contains(at) by {
        assert(is_first_of_its_url(kept, fetched, at));
    }
    assert(places.len() == fresh(kept, fetched).len());
}

proof fn lemma_places(kept: Seq<NoticeView>, fetched: Seq<NoticeView>) -> (places: Seq<int>)
    ensures
        places.len() == fresh(kept, fetched).len(),
        forall|i: int, j: int|
            0 <= i < j < places.len() ==> #[trigger] places[i] < #[trigger] places[j],
        forall|i: int|
            0 <= i < places.len() ==> is_first_of_its_url(kept, fetched, #[trigger] places[i])
                && fresh(kept, fetched)[i] == fetched[places[i]],
        forall|at: int| #[trigger]
            is_first_of_its_url(kept, fetched, at) ==> places.contains(at),
    decreases fetched.len(),
{
    if fetched.len() == 0 {
        Seq::empty()
    } else {
        let front = fetched.drop_last();
        let last = fetched.last();
        let end = fetched.len() - 1;
        let before = lemma_places(kept, front);
        assert forall|at: int| 0 <= at < end implies (#[trigger] is_first_of_its_url(
            kept,
            front,
            at,
        ) <==> is_first_of_its_url(kept, fetched, at)) by {
            assert(front[at] == fetched[at]);
            assert forall|j: int| 0 <= j < at implies front[j] == fetched[j] by {}
            if is_first_of_its_url(kept, front, at) {
                assert forall|j: int| 0 <= j < at implies (#[trigger] fetched[j]).url
                    != fetched[at].url by {
                    assert(front[j].url != front[at].url);
                }
            }
            if is_first_of_its_url(kept, fetched, at) {
                assert forall|j: int| 0 <= j < at implies (#[trigger] front[j]).url
                    != front[at].url by {
                    assert(fetched[j].url != fetched[at].url);
                }
            }
        }
        let skipped = has_url(kept, last.url) || has_url(front, last.url);
        let places = if skipped {
            before
        } else {
            before.push(end)
        };
        if skipped {
            if has_url(kept, last.url) {
                let k = choose|k: int| 0 <= k < kept.len() && (#[trigger] kept[k]).url == last.url;
                assert(kept[k].url == fetched[end].url);
            } else {
                let k = choose|k: int|
                    0 <= k < front.len() && (#[trigger] front[k]).url == last.url;
                assert(fetched[k].url == fetched[end].url);
            }
            assert(!is_first_of_its_url(kept, fetched, end));
        } else {
            assert forall|j: int| 0 <= j < end implies (#[trigger] fetched[j]).url
                != fetched[end].url by {
                assert(front[j] == fetched[j]);
            }
            assert(is_first_of_its_url(kept, fetched, end));
        }
        assert forall|i: int| 0 <= i < places.len() implies is_first_of_its_url(
            kept,
            fetched,
            #[trigger] places[i],
        ) && fresh(kept, fetched)[i] == fetched[places[i]] by {
            if i < before.len() {
                assert(places[i] == before[i]);
                assert(is_first_of_its_url(kept, front, before[i]));
                assert(front[before[i]] == fetched[before[i]]);
            }
        }
        assert forall|i: int, j: int| 0 <= i < j < places.len() implies #[trigger] places[i]
            < #[trigger] places[j] by {
            assert(places[i] == before[i]);
            if j < before.len() {
                assert(places[j] == before[j]);
            } else {
                assert(is_first_of_its_url(kept, front, before[i]));
            }
        }
        assert forall|at: int| #[trigger] is_first_of_its_url(kept, fetched, at) implies
            places.contains(at) by {
            if at == end {
                assert(places[places.len() - 1] == end);
            } else {
                assert(is_first_of_its_url(kept, front, at));
                assert(before.contains(at));
                let i = choose|i: int| 0 <= i < before.len() && before[i] == at;
                assert(places[i] == at);
            }
        }
        places
    }
}

/// Where what was fetched has its newest notices first, and so has what was kept,
/// and no kept notice is newer than a fetched one, the merged list has its newest
/// notices first.
pub proof fn law_merge_stays_newest_first(kept: Seq<NoticeView>, fetched: Seq<NoticeView>)
    requires
        forall|i: int, j: int|
            0 <= i < j < fetched.len() ==> !text::precedes(
                (#[trigger] fetched[i]).date,
                (#[trigger] fetched[j]).date,
            ),
        forall|i: int, j: int|
            0 <= i < j < kept.len() ==> !text::precedes(
                (#[trigger] kept[i]).date,
                (#[trigger] kept[j]).date,
            ),
        forall|i: int, j: int|
            0 <= i < fetched.len() && 0 <= j < kept.len() ==> !text::precedes(
                (#[trigger] fetched[i]).date,
                (#[trigger] kept[j]).date,
            ),
    ensures
        forall|i: int, j: int|
            0 <= i < j < merged(kept, fetched).len() ==> !text::precedes(
                (#[trigger] merged(kept, fetched)[i]).date,
                (#[trigger] merged(kept, fetched)[j]).date,
            ),
{
    let f = fresh(kept, fetched);
    let m = merged(kept, fetched);
    let places = lemma_places(kept, fetched);
    assert forall|i: int, j: int| 0 <= i < j < m.len() implies !text::precedes(
        (#[trigger] m[i]).date,
        (#[trigger] m[j]).date,
    ) by {
        if j < f.len() {
            assert(m[i] == fetched[places[i]]);
            assert(m[j] == fetched[places[j]]);
        } else if i < f.len() {
            assert(m[i] == fetched[places[i]]);
            assert(m[j] == kept[j - f.len()]);
        } else {
            assert(m[i] == kept[i - f.len()]);
            assert(m[j] == kept[j - f.len()]);
        }
    }
}

/// A run over `days` days ends on its own day, and its first day is the one from
/// which as many days as it has, less one, lead to its own.
pub proof fn law_run_window_spans(today: Day, days: int)
    requires
        days >= 1,
    ensures
        run_window(today, days) matches Some((from, to)) ==> {
            &&& to == calendar::date_text_of(today)
            &&& exists|first: Day|
                #![trigger calendar::date_text_of(first)]
                from == calendar::date_text_of(first) && calendar::days_before(
                    first,
                    -(days - 1),
                ) == today
        },
{
    let first = calendar::days_before(today, days - 1);
    if calendar::is_day(today) {
        calendar::law_going_back_and_forth(today, days - 1);
        assert(calendar::days_before(first, -(days - 1)) == today);
    }
}

/// A run has its days exactly where its own day and its first one are reached, and
/// a run over no day asks from the day after.
pub proof fn law_run_window_has_its_days(today: Day, days: int)
    ensures
        run_window(today, days) is None <==> calendar::day_reached(today, days - 1) is None
            || calendar::day_reached(today, 0) is None,
        run_window(today, 0) matches Some((from, to)) ==> from == calendar::date_text_of(
            calendar::next_day(today),
        ) && to == calendar::date_text_of(today),
{
    calendar::law_days_before_goes_day_by_day(today, 0);
}

} // verus!
