//! The titles that are saved, and what was watched.

use vstd::prelude::*;
use super::feed::{episode_text, minutes_left, push_episode, push_minutes_left};
use super::state::{seasons_view, StreamState};
use super::title::{meta_line, meta_text, truncate_chars, truncated, Season};
use crate::double::{hundred, product, Double, Number};
use crate::order::{num_order, nums, order, order_of, order_of_nums, places, through};
use crate::outside::{lowercase, since_epoch, to_lowercase};
use crate::text::{dec, push_dec, same, views};
use crate::transfer::words::{page_count, pages};
use crate::videos::livetv::{page_shown, pick_places, picked, reversed};

verus! {

/// A title that is saved.
#[derive(Clone, Debug)]
pub struct Bookmark {
    pub subject_id: String,
    pub title: String,
    pub year: String,
    pub cover_url: String,
    pub is_series: bool,
    pub meta: String,
    pub overview: String,
    /// The last episode that was listed when the title was saved.
    pub seen_max_ep: i64,
    pub latest_max_ep: i64,
}

/// What a saved title holds.
#[verifier::ext_equal]
pub struct BookmarkView {
    pub subject_id: Seq<char>,
    pub title: Seq<char>,
    pub year: Seq<char>,
    pub cover_url: Seq<char>,
    pub is_series: bool,
    pub meta: Seq<char>,
    pub overview: Seq<char>,
    pub seen_max_ep: int,
    pub latest_max_ep: int,
}

impl View for Bookmark {
    type V = BookmarkView;

    open spec fn view(&self) -> BookmarkView {
        BookmarkView {
            subject_id: self.subject_id@,
            title: self.title@,
            year: self.year@,
            cover_url: self.cover_url@,
            is_series: self.is_series,
            meta: self.meta@,
            overview: self.overview@,
            seen_max_ep: self.seen_max_ep as int,
            latest_max_ep: self.latest_max_ep as int,
        }
    }
}

/// The saved titles as they are.
pub open spec fn bookmarks_view(v: Seq<Bookmark>) -> Seq<BookmarkView> {
    Seq::new(v.len(), |i: int| v[i]@)
}

impl Bookmark {
    /// The same once more.
    pub fn copy(&self) -> (r: Bookmark)
        ensures
            r@ == self@,
    {
        Bookmark {
            subject_id: self.subject_id.clone(),
            title: self.title.clone(),
            year: self.year.clone(),
            cover_url: self.cover_url.clone(),
            is_series: self.is_series,
            meta: self.meta.clone(),
            overview: self.overview.clone(),
            seen_max_ep: self.seen_max_ep,
            latest_max_ep: self.latest_max_ep,
        }
    }
}

/// How many episodes the last season has.
pub open spec fn last_count(seasons: Seq<Season>) -> int {
    if seasons.len() > 0 { seasons.last().max_ep as int } else { 0 }
}

/// See [`last_count`].
pub fn latest_episode(seasons: &Vec<Season>) -> (r: i64)
    ensures
        r == last_count(seasons@),
{
    if seasons.len() > 0 {
        seasons[seasons.len() - 1].max_ep
    } else {
        0
    }
}

/// What is saved of the title that is open; nothing where none is. A split show is
/// saved under the subject of its first season, so that it opens there again.
pub fn stream_toggle_bookmark(st: &StreamState) -> (r: Option<Bookmark>)
    requires
        st.details matches Some(d) ==> d.rating.wf(),
    ensures
        r is Some <==> st.details is Some && st.open_id@.len() > 0,
        r matches Some(b) ==> {
            let d = st.details->0;
            let split = seasons_view(st.season_subjects@);
            b@ == (BookmarkView {
                subject_id: if split.len() > 0 { split[0].1 } else { st.open_id@ },
                title: d.title@,
                year: d.year@,
                cover_url: d.cover@,
                is_series: split.len() > 0 || d.is_series,
                meta: meta_text(d),
                overview: d.overview@,
                seen_max_ep: last_count(d.seasons@),
                latest_max_ep: 0,
            })
        },
{
    if st.open_id.as_str().is_empty() {
        return None;
    }
    match &st.details {
        Some(d) => {
            let split = st.season_subjects.len() > 0;
            Some(
                Bookmark {
                    subject_id: if split { st.season_subjects[0].1.clone() } else { st.open_id.clone() },
                    title: d.title.clone(),
                    year: d.year.clone(),
                    cover_url: d.cover.clone(),
                    is_series: split || d.is_series,
                    meta: meta_line(d),
                    overview: d.overview.clone(),
                    seen_max_ep: latest_episode(&d.seasons),
                    latest_max_ep: 0,
                },
            )
        },
        None => None,
    }
}

/// The titles in small letters.
pub open spec fn lowered_titles(v: Seq<BookmarkView>) -> Seq<Seq<char>> {
    Seq::new(v.len(), |i: int| lowercase(v[i].title))
}

/// Films before series.
pub open spec fn kinds(v: Seq<BookmarkView>, o: Seq<int>) -> Seq<int> {
    Seq::new(o.len(), |i: int| if v[o[i]].is_series { 1int } else { 0 })
}

/// How the saved titles are ordered, their small letters given: by title, by kind
/// and then title, or as they are, which is the newest first; in reverse where
/// `asc` says so.
pub open spec fn saved_order(v: Seq<BookmarkView>, lowered: Seq<Seq<char>>, key: Seq<char>, asc: bool) -> Seq<int> {
    let by_title = order(lowered, lowered.len());
    let down = if key == "name"@ {
        by_title
    } else if key == "type"@ {
        through(by_title, num_order(kinds(v, by_title), by_title.len()))
    } else {
        Seq::new(v.len(), |i: int| i)
    };
    if asc { down.reverse() } else { down }
}

/// Orders the saved titles, their small letters given; see [`saved_order`].
pub fn order_bookmarks(list: &mut Vec<Bookmark>, lowered: &Vec<String>, key: &str, asc: bool)
    requires
        old(list)@.len() == lowered@.len(),
    ensures
        ({
            let v = bookmarks_view(old(list)@);
            bookmarks_view(final(list)@) == picked(v, saved_order(v, views(lowered@), key@, asc))
        }),
{
    let ghost v = bookmarks_view(list@);
    let total: usize = list.len();
    let by_title = order_of(lowered);
    let down = if same(key, "name") {
        by_title
    } else if same(key, "type") {
        let mut keys: Vec<u64> = Vec::new();
        let mut i: usize = 0;
        while i < by_title.len()
            invariant
                i <= by_title@.len(),
                keys@.len() == i,
                v == bookmarks_view(list@),
                forall|j: int| 0 <= j < by_title@.len() ==> #[trigger] by_title@[j] < list@.len(),
                forall|j: int| 0 <= j < i ==> #[trigger] keys@[j] == (if list@[by_title@[j] as int].is_series { 1int } else { 0 }),
            decreases by_title@.len() - i,
        {
            keys.push(if list[by_title[i]].is_series { 1 } else { 0 });
            i = i + 1;
        }
        assert(nums(keys@) =~= kinds(v, places(by_title@)));
        pick_places(&by_title, &order_of_nums(&keys), total)
    } else {
        let mut all: Vec<usize> = Vec::new();
        let mut i: usize = 0;
        while i < total
            invariant
                i <= total,
                all@.len() == i,
                forall|j: int| 0 <= j < i ==> #[trigger] all@[j] == j,
            decreases total - i,
        {
            all.push(i);
            i = i + 1;
        }
        assert(places(all@) =~= Seq::new(v.len(), |i: int| i));
        all
    };
    let o = if asc { reversed(&down, total) } else { down };
    let mut out: Vec<Bookmark> = Vec::new();
    let mut i: usize = 0;
    while i < o.len()
        invariant
            i <= o@.len(),
            out@.len() == i,
            forall|j: int| 0 <= j < o@.len() ==> #[trigger] o@[j] < list@.len(),
            forall|j: int| 0 <= j < i ==> (#[trigger] out@[j])@ == list@[o@[j] as int]@,
        decreases o@.len() - i,
    {
        out.push(list[o[i]].copy());
        i = i + 1;
    }
    proof {
        let p = saved_order(v, views(lowered@), key@, asc);
        assert(places(o@) == p);
        assert forall|j: int| 0 <= j < o@.len() implies bookmarks_view(out@)[j] == v[p[j]] by {
            assert(places(o@)[j] == o@[j]);
            assert(out@[j]@ == list@[o@[j] as int]@);
        }
        assert(bookmarks_view(out@) =~= picked(v, p));
    }
    *list = out;
}

/// Orders the saved titles: `name`, `type`, or as they were saved.
pub fn sort_bookmarks(list: &mut Vec<Bookmark>, key: &str, asc: bool)
    ensures
        ({
            let v = bookmarks_view(old(list)@);
            bookmarks_view(final(list)@) == picked(v, saved_order(v, lowered_titles(v), key@, asc))
        }),
{
    let mut lowered: Vec<String> = Vec::new();
    let mut i: usize = 0;
    while i < list.len()
        invariant
            i <= list@.len(),
            lowered@.len() == i,
            *list == *old(list),
            forall|j: int| 0 <= j < i ==> (#[trigger] lowered@[j])@ == lowercase(list@[j].title@),
        decreases list@.len() - i,
    {
        lowered.push(to_lowercase(list[i].title.as_str()));
        i = i + 1;
    }
    assert(views(lowered@) =~= lowered_titles(bookmarks_view(list@)));
    order_bookmarks(list, &lowered, key, asc);
}

/// Sorted by name, titles go up in their small letters, and none is lost or shown
/// twice.
pub proof fn law_saved_titles_sort_by_name(v: Seq<BookmarkView>, lowered: Seq<Seq<char>>)
    requires
        v.len() == lowered.len(),
    ensures
        crate::order::all_places(saved_order(v, lowered, "name"@, false), v.len()),
        crate::order::goes_up(lowered, saved_order(v, lowered, "name"@, false)),
{
    crate::order::law_order_sorts(lowered, lowered.len());
}

/// Films before series, and each kind by its small letters; what reads alike keeps its
/// order.
pub open spec fn by_kind(v: Seq<BookmarkView>, lowered: Seq<Seq<char>>, o: Seq<int>) -> bool {
    forall|i: int, j: int|
        0 <= i < j < o.len() ==> {
            &&& v[#[trigger] o[i]].is_series ==> v[#[trigger] o[j]].is_series
            &&& v[o[i]].is_series == v[o[j]].is_series ==> !crate::order::precedes(lowered[o[j]], lowered[o[i]])
            &&& v[o[i]].is_series == v[o[j]].is_series && lowered[o[i]] == lowered[o[j]] ==> o[i] < o[j]
        }
}

/// Sorted by kind, films stand before series and each kind goes up in its small
/// letters, titles that read alike in the order in which they stood; none is lost or shown
/// twice.
pub proof fn law_saved_titles_sort_by_kind(v: Seq<BookmarkView>, lowered: Seq<Seq<char>>)
    requires
        v.len() == lowered.len(),
    ensures
        crate::order::all_places(saved_order(v, lowered, "type"@, false), v.len()),
        by_kind(v, lowered, saved_order(v, lowered, "type"@, false)),
{
    reveal_strlit("type");
    reveal_strlit("name");
    assert("type"@[0] != "name"@[0]);
    crate::order::law_order_sorts(lowered, lowered.len());
    let t = order(lowered, lowered.len());
    let k = kinds(v, t);
    crate::order::law_num_order_sorts(k, t.len());
    let n = num_order(k, t.len());
    let o = through(t, n);
    assert forall|i: int| 0 <= i < o.len() implies 0 <= #[trigger] o[i] < v.len() && o[i] == t[n[i]] by {
        assert(0 <= n[i] < t.len());
    }
    assert(o.no_duplicates()) by {
        assert forall|i: int, j: int| 0 <= i < o.len() && 0 <= j < o.len() && i != j implies o[i] != o[j] by {
            assert(n[i] != n[j]);
            assert(o[i] == t[n[i]] && o[j] == t[n[j]]);
        }
    }
    assert forall|i: int, j: int| 0 <= i < j < o.len() implies (v[#[trigger] o[i]].is_series ==> v[#[trigger] o[j]].is_series)
        && (v[o[i]].is_series == v[o[j]].is_series ==> !crate::order::precedes(lowered[o[j]], lowered[o[i]]))
        && (v[o[i]].is_series == v[o[j]].is_series && lowered[o[i]] == lowered[o[j]] ==> o[i] < o[j]) by {
        assert(o[i] == t[n[i]] && o[j] == t[n[j]]);
        assert(k[n[i]] <= k[n[j]]);
        if v[o[i]].is_series == v[o[j]].is_series {
            assert(k[n[i]] == k[n[j]]);
            assert(n[i] < n[j]);
        }
    }
}

/// Turned round, the saved titles stand the other way, whatever they are sorted by.
pub proof fn law_saved_titles_turn_round(v: Seq<BookmarkView>, lowered: Seq<Seq<char>>, key: Seq<char>)
    ensures
        saved_order(v, lowered, key, true) == saved_order(v, lowered, key, false).reverse(),
        picked(v, saved_order(v, lowered, key, true)) == picked(v, saved_order(v, lowered, key, false)).reverse(),
{
    assert(picked(v, saved_order(v, lowered, key, true)) =~= picked(v, saved_order(v, lowered, key, false)).reverse());
}

/// Shown by anything but name and kind, such as by date, the newest first, the saved
/// titles stay as they are.
pub proof fn law_saved_titles_keep_their_order(v: Seq<BookmarkView>, lowered: Seq<Seq<char>>, key: Seq<char>)
    requires
        key != "name"@,
        key != "type"@,
    ensures
        picked(v, saved_order(v, lowered, key, false)) == v,
{
    assert(picked(v, saved_order(v, lowered, key, false)) =~= v);
}

/// The badge of a saved series: how many episodes are new, where any are.
pub fn badge(has_new: bool, new_count: i64) -> (r: i64)
    ensures
        r == (if has_new { new_count as int } else { 0 }),
{
    if has_new {
        new_count
    } else {
        0
    }
}

/// A saved title's overview on its card.
pub fn card_overview(overview: &str) -> (r: String)
    ensures
        r@ == truncated(overview@, 100),
{
    truncate_chars(overview, 100)
}

/// How many saved shows are looked at in one pass.
pub const REFRESH_BATCH: usize = 8;

/// Whether what the catalogue lists of a saved show is worth noting.
pub fn worth_noting(latest: i64) -> (r: bool)
    ensures
        r == (latest > 0),
{
    latest > 0
}

/// Rows on each page of the history.
pub const HISTORY_PAGE: usize = 25;

/// How far back the history goes.
pub const HISTORY_MAX: i64 = 500;

/// A page of the history: which one, of how many, and from which row to which.
#[derive(Clone, Copy, Debug, PartialEq, Eq, Structural)]
pub struct HistoryPage {
    pub page: u64,
    pub pages: u64,
    pub start: usize,
    pub end: usize,
}

/// The page that is shown of `total` rows. One that no longer exists falls back to
/// the last that does.
pub fn history_page(total: usize, asked: i32) -> (r: HistoryPage)
    ensures
        r.pages == page_count(total as int, 25),
        r.page == page_shown(asked as int, r.pages as int),
        r.start == r.page * 25,
        r.end == (if (r.page + 1) * 25 < total { (r.page + 1) * 25 } else { total as int }),
        r.start <= r.end <= total,
        total > 0 ==> r.start < r.end,
{
    let count: u64 = pages(total as u64, 25);
    let p: u64 = if asked < 0 { 0 } else { asked as u64 };
    let page: u64 = if p > count - 1 { count - 1 } else { p };
    proof {
        if total > 0 {
            crate::transfer::words::law_pages_hold_every_row(total as int, 25);
        }
    }
    assert(page * 25 <= total) by {
        if total == 0 {
            assert(page == 0);
        }
    }
    let start: usize = page as usize * 25;
    let end: usize = if total - start > HISTORY_PAGE { start + HISTORY_PAGE } else { total };
    HistoryPage { page, pages: count, start, end }
}

/// What kind of title was watched, and which episode.
pub open spec fn kind_text(is_series: bool, season: int, episode: int) -> Seq<char> {
    if is_series && (season > 0 || episode > 0) {
        "Series  ·  "@ + episode_text(season, episode)
    } else if is_series {
        "Series"@
    } else {
        "Movie"@
    }
}

/// See [`kind_text`].
pub fn history_kind(is_series: bool, season: i64, episode: i64) -> (r: String)
    ensures
        r@ == kind_text(is_series, season as int, episode as int),
{
    if is_series && (season > 0 || episode > 0) {
        let mut s = "Series  ·  ".to_owned();
        push_episode(&mut s, season, episode);
        s
    } else if is_series {
        "Series".to_owned()
    } else {
        "Movie".to_owned()
    }
}

/// A fraction in per cent; infinite where that is more than a double can hold.
pub open spec fn per_cent(fraction: Number) -> Number {
    match fraction {
        Number::Finite(d) => {
            let p = product(d, hundred());
            if p.m > 0 && p.e > 971 { Number::Infinite(p.neg) } else { Number::Finite(p) }
        },
        other => other,
    }
}

fn push_per_cent(out: &mut String, fraction: &Number)
    requires
        fraction.wf(),
    ensures
        final(out)@ == old(out)@ + per_cent(*fraction).text(0) + "%"@,
{
    match fraction {
        Number::Finite(d) => {
            let p = d.mul(&Double::hundred());
            if p.m > 0 && p.e > 971 {
                Number::Infinite(p.neg).push_text(out, 0);
            } else {
                p.push_text(out, 0);
            }
        },
        Number::Infinite(_) => fraction.push_text(out, 0),
        Number::Nan => fraction.push_text(out, 0),
    }
    out.append("%");
}

/// How far a title was watched.
pub open spec fn state_text(finished: bool, fraction: Number, remaining: Option<Number>) -> Seq<char> {
    if finished {
        "Watched"@
    } else {
        let pct = per_cent(fraction).text(0) + "%"@;
        match remaining {
            Some(s) => if s.reaches(60) { pct + "  ·  "@ + minutes_left(s) } else { pct + "  ·  nearly done"@ },
            None => pct,
        }
    }
}

/// See [`state_text`]. `fraction` is how much was watched and `remaining` how many
/// seconds are left, where the length is known.
pub fn history_state(finished: bool, fraction: &Number, remaining: &Option<Number>) -> (r: String)
    requires
        fraction.wf(),
        remaining matches Some(s) ==> s.wf(),
    ensures
        r@ == state_text(finished, *fraction, *remaining),
{
    if finished {
        return "Watched".to_owned();
    }
    let mut t = String::new();
    push_per_cent(&mut t, fraction);
    assert(t@ =~= per_cent(*fraction).text(0) + "%"@);
    match remaining {
        Some(s) => {
            if s.at_least(60) {
                t.append("  ·  ");
                push_minutes_left(&mut t, s);
            } else {
                t.append("  ·  nearly done");
            }
        },
        None => {},
    }
    t
}

/// A number of units ago.
pub open spec fn ago(n: nat, unit: Seq<char>) -> Seq<char> {
    dec(n) + " "@ + unit + (if n == 1 { ""@ } else { "s"@ }) + " ago"@
}

fn ago_of(n: u64, unit: &str) -> (r: String)
    ensures
        r@ == ago(n as nat, unit@),
{
    let mut s = String::new();
    push_dec(&mut s, n);
    assert(s@ =~= dec(n as nat));
    s.append(" ");
    s.append(unit);
    s.append(if n == 1 { "" } else { "s" });
    s.append(" ago");
    s
}

/// How long ago a moment was; one that is still to come is now.
pub open spec fn age_text(then: int, now: int) -> Seq<char> {
    let s = if now < then { 0 } else { now - then };
    if s < 90 {
        "just now"@
    } else if s < 3600 {
        ago((s / 60) as nat, "minute"@)
    } else if s < 86_400 {
        ago((s / 3600) as nat, "hour"@)
    } else if s < 2_592_000 {
        ago((s / 86_400) as nat, "day"@)
    } else {
        ago((s / 2_592_000) as nat, "month"@)
    }
}

/// See [`age_text`].
pub fn relative_to(then: i64, now: i64) -> (r: String)
    ensures
        r@ == age_text(then as int, now as int),
{
    let s: u64 = if now < then { 0 } else { (now as i128 - then as i128) as u64 };
    if s < 90 {
        "just now".to_owned()
    } else if s < 3600 {
        ago_of(s / 60, "minute")
    } else if s < 86_400 {
        ago_of(s / 3600, "hour")
    } else if s < 2_592_000 {
        ago_of(s / 86_400, "day")
    } else {
        ago_of(s / 2_592_000, "month")
    }
}

/// How long ago a moment was, by the clock, which reads the epoch where it stands
/// before it.
pub fn relative_time(then: i64) -> (r: String)
    ensures
        exists|now: i64| r@ == #[trigger] age_text(then as int, now as int),
{
    let now: i64 = match since_epoch() {
        Some(s) => #[verifier::truncate] (s as i64),
        None => 0,
    };
    relative_to(then, now)
}

/// How long ago something was is said in the largest unit that has passed; a unit that passed
/// once is one.
pub proof fn law_an_age_is_said_in_its_unit(now: int, s: int)
    requires
        s >= 0,
    ensures
        s < 90 ==> age_text(now - s, now) == "just now"@,
        90 <= s < 3600 ==> age_text(now - s, now) == ago((s / 60) as nat, "minute"@),
        3600 <= s < 86_400 ==> age_text(now - s, now) == ago((s / 3600) as nat, "hour"@),
        86_400 <= s < 2_592_000 ==> age_text(now - s, now) == ago((s / 86_400) as nat, "day"@),
        2_592_000 <= s ==> age_text(now - s, now) == ago((s / 2_592_000) as nat, "month"@),
        age_text(now + s, now) == "just now"@,
        ago(1, "hour"@) == dec(1) + " "@ + "hour"@ + ""@ + " ago"@,
        s > 1 ==> ago(s as nat, "hour"@) == dec(s as nat) + " "@ + "hour"@ + "s"@ + " ago"@,
{
}

/// What was watched is a film or a series, with its episode where one is known.
pub proof fn law_what_was_watched_is_told(season: int, episode: int)
    ensures
        kind_text(false, season, episode) == "Movie"@,
        season <= 0 && episode <= 0 ==> kind_text(true, season, episode) == "Series"@,
        season > 0 || episode > 0 ==> kind_text(true, season, episode) == "Series  ·  "@ + episode_text(season, episode),
{
}

/// How far a title was watched: to the end, or its per cent and what is left of it.
pub proof fn law_how_far_it_was_watched_is_told(fraction: Number, s: Number)
    ensures
        state_text(true, fraction, None) == "Watched"@ && state_text(true, fraction, Some(s)) == "Watched"@,
        state_text(false, fraction, None) == per_cent(fraction).text(0) + "%"@,
        s.reaches(60) ==> state_text(false, fraction, Some(s)) == per_cent(fraction).text(0) + "%"@ + "  ·  "@ + minutes_left(s),
        !s.reaches(60) ==> state_text(false, fraction, Some(s)) == per_cent(fraction).text(0) + "%"@ + "  ·  nearly done"@,
{
}

/// The last season's episodes are counted, none without a season.
pub proof fn law_the_last_season_counts(seasons: Seq<Season>)
    ensures
        seasons.len() > 0 ==> last_count(seasons) == seasons[seasons.len() - 1].max_ep,
        seasons.len() == 0 ==> last_count(seasons) == 0,
{
}

} // verus!
