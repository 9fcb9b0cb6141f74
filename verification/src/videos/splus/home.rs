//! The landing page and the search.

use vstd::prelude::*;
use crate::order::{lemma_rising_push, rising};
use vstd::utf8::encode_utf8;
use super::settings::{allowed, is_allowed, Gate};
use super::state::State;
use super::title::{titles_view, Title, TitleView};
use crate::double::{of_nat, p2, quotient, Double};
use crate::find::{contains, has};
use crate::outside::{lowercase, to_lowercase};
use crate::text::{dec_int, push_dec_int, same, trim, trimmed, views};
use crate::tools::media::over;

verus! {

/// How many suggestions are shown.
pub const SUGGESTED: usize = 5;

/// How many titles the landing page features.
pub const FEATURED: usize = 6;

/// The terms that a query suggests, their small letters given: those that hold it,
/// five at most. A query of less than two bytes suggests nothing.
pub open spec fn suggested(recent: Seq<Seq<char>>, lowered: Seq<Seq<char>>, q: Seq<char>) -> Seq<Seq<char>>
    decreases recent.len(),
{
    if recent.len() == 0 {
        Seq::empty()
    } else {
        let rest = suggested(recent.drop_last(), lowered, q);
        if rest.len() < 5 && encode_utf8(q).len() >= 2 && has(lowered[recent.len() - 1], q) {
            rest.push(recent.last())
        } else {
            rest
        }
    }
}

/// See [`suggested`]. `q` is in small letters.
pub fn suggestions(recent: &Vec<String>, lowered: &Vec<String>, q: &str) -> (r: Vec<String>)
    requires
        recent@.len() == lowered@.len(),
    ensures
        views(r@) == suggested(views(recent@), views(lowered@), q@),
{
    let ghost all = views(recent@);
    let long = q.as_bytes().len() >= 2;
    let mut out: Vec<String> = Vec::new();
    let mut i: usize = 0;
    assert(all.take(0) =~= Seq::<Seq<char>>::empty());
    assert(views(out@) =~= Seq::<Seq<char>>::empty());
    while i < recent.len()
        invariant
            i <= recent@.len(),
            recent@.len() == lowered@.len(),
            all == views(recent@),
            long == (encode_utf8(q@).len() >= 2),
            views(out@) == suggested(all.take(i as int), views(lowered@), q@),
            out@.len() == views(out@).len(),
        decreases recent@.len() - i,
    {
        assert(all.take(i + 1).drop_last() =~= all.take(i as int));
        assert(all.take(i + 1).last() == recent@[i as int]@);
        assert(views(lowered@)[i as int] == lowered@[i as int]@);
        if out.len() < SUGGESTED && long && contains(lowered[i].as_str(), q) {
            let ghost was = views(out@);
            out.push(recent[i].clone());
            assert(views(out@) =~= was.push(recent@[i as int]@));
        }
        i = i + 1;
    }
    assert(all.take(i as int) =~= all);
    out
}

/// Some texts in small letters.
pub open spec fn lowered_texts(v: Seq<Seq<char>>) -> Seq<Seq<char>> {
    Seq::new(v.len(), |i: int| lowercase(v[i]))
}

/// The recent terms that a query suggests, small and capital letters alike.
pub fn suggest(recent: &Vec<String>, query: &str) -> (r: Vec<String>)
    ensures
        views(r@) == suggested(views(recent@), lowered_texts(views(recent@)), lowercase(query@)),
{
    let q = to_lowercase(query);
    let mut lowered: Vec<String> = Vec::new();
    let mut i: usize = 0;
    while i < recent.len()
        invariant
            i <= recent@.len(),
            lowered@.len() == i,
            forall|j: int| 0 <= j < i ==> (#[trigger] lowered@[j])@ == lowercase(recent@[j]@),
        decreases recent@.len() - i,
    {
        lowered.push(to_lowercase(recent[i].as_str()));
        i = i + 1;
    }
    assert(views(lowered@) =~= lowered_texts(views(recent@)));
    suggestions(recent, &lowered, q.as_str())
}

/// The mean length of a year in days, as a double holds it.
pub open spec fn year_len() -> Double {
    Double { neg: false, m: 0x16_d3e1_47ae_147b, e: (-44) as i32 }
}

/// The mean length of a month in days, as a double holds it.
pub open spec fn month_len() -> Double {
    Double { neg: false, m: 0x1e_70a3_d70a_3d71, e: (-48) as i32 }
}

/// The days that have passed since the mean year began: the exact remainder of the
/// days over [`year_len`].
pub open spec fn into_year(days: nat) -> Double {
    over(of_nat((days * p2(44)) % 0x16_d3e1_47ae_147b), 44)
}

/// The year and the month of a moment, by mean years and mean months: close enough
/// to name a season, and wrong for a day at most at its edges.
pub open spec fn mean_date(now: nat) -> (int, int) {
    let days = now / 86_400;
    (
        1970 + quotient(of_nat(days), year_len()).truncated(),
        quotient(into_year(days), month_len()).truncated() % 12 + 1,
    )
}

/// See [`mean_date`]. `now` is in seconds since 1970.
pub fn season_date(now: u64) -> (r: (i64, i64))
    ensures
        (r.0 as int, r.1 as int) == mean_date(now as nat),
        1 <= r.1 <= 12,
{
    let days: u64 = now / 86_400;
    let year = Double { neg: false, m: 0x16_d3e1_47ae_147b, e: -44 };
    let month = Double { neg: false, m: 0x1e_70a3_d70a_3d71, e: -48 };
    proof {
        assert(p2(44) == 0x1000_0000_0000) by {
            reveal_with_fuel(p2, 23);
            crate::double::lemma_p2_sum(22, 22);
            assert(p2(22) == 0x40_0000);
        }
    }
    let scaled: u128 = (days as u128) * 0x1000_0000_0000;
    let rest: u64 = (scaled % 0x16_d3e1_47ae_147b) as u64;
    let x = Double::from_u64(rest);
    let into = if x.m == 0 { x } else { Double { neg: x.neg, m: x.m, e: x.e - 44 } };
    assert(into == into_year(days as nat));
    let q = Double::from_u64(days).div(&year);
    let y: i64 = q.to_truncated();
    let m: i64 = into.div(&month).to_truncated();
    proof {
        lemma_small(q);
    }
    assert(m >= 0);
    (1970 + y, m % 12 + 1)
}

proof fn lemma_small(d: Double)
    requires
        d.wf(),
        d.e <= 7,
    ensures
        d.floor() < 0x1000_0000_0000_0000,
{
    let (u, w, m) = (crate::double::up(d.e as int), crate::double::down(d.e as int), d.m as nat);
    crate::double::lemma_up_down_pos(d.e as int);
    if d.e >= 0 {
        crate::double::lemma_p2_mono(d.e as nat, 7);
        reveal_with_fuel(p2, 8);
    }
    assert(u <= 128);
    assert(m * u / w <= m * u) by (nonlinear_arith)
        requires
            w >= 1,
            m >= 0,
            u >= 0,
    ;
    assert(m * u < 0x20_0000_0000_0000 * 128) by (nonlinear_arith)
        requires
            m < 0x20_0000_0000_0000,
            1 <= u <= 128,
    ;
}

/// A season's name.
pub open spec fn season_name(season: Seq<char>) -> Seq<char> {
    if season == "WINTER"@ {
        "Winter"@
    } else if season == "SPRING"@ {
        "Spring"@
    } else if season == "SUMMER"@ {
        "Summer"@
    } else {
        "Fall"@
    }
}

/// See [`season_name`].
pub fn pretty(season: &str) -> (r: &'static str)
    ensures
        r@ == season_name(season@),
{
    if same(season, "WINTER") {
        "Winter"
    } else if same(season, "SPRING") {
        "Spring"
    } else if same(season, "SUMMER") {
        "Summer"
    } else {
        "Fall"
    }
}

/// The heading of the season's shelf.
pub fn season_label(season: &str, year: i64) -> (r: String)
    ensures
        r@ == season_name(season@) + " "@ + dec_int(year as int),
{
    let mut s = pretty(season).to_owned();
    s.append(" ");
    push_dec_int(&mut s, year);
    s
}

/// The titles at the front of a list, the first `n` at most.
pub open spec fn front(v: Seq<TitleView>, n: nat) -> Seq<TitleView> {
    if v.len() <= n { v } else { v.take(n as int) }
}

/// What the landing page features: the first six that trend.
pub fn featured(trending: &Vec<Title>) -> (r: Vec<Title>)
    ensures
        titles_view(r@) == front(titles_view(trending@), 6),
{
    let n: usize = if trending.len() < FEATURED { trending.len() } else { FEATURED };
    let mut out: Vec<Title> = Vec::new();
    let mut i: usize = 0;
    while i < n
        invariant
            i <= n <= trending@.len(),
            out@.len() == i,
            forall|j: int| 0 <= j < i ==> (#[trigger] out@[j])@ == trending@[j]@,
        decreases n - i,
    {
        out.push(trending[i].copy());
        i = i + 1;
    }
    assert(titles_view(out@) =~= front(titles_view(trending@), 6));
    out
}

/// The titles that the age gate lets through, with the rating of each given.
pub open spec fn let_through(v: Seq<TitleView>, g: Gate, ratings: Seq<Option<i64>>) -> Seq<TitleView>
    decreases v.len(),
{
    if v.len() == 0 {
        Seq::empty()
    } else {
        let rest = let_through(v.drop_last(), g, ratings);
        if is_allowed(v.last(), g, ratings[v.len() - 1]) { rest.push(v.last()) } else { rest }
    }
}

/// What is said of the results.
pub open spec fn results_text(n: nat) -> Seq<char> {
    if n == 0 { "Nothing matched that."@ } else { ""@ }
}

impl State {
    /// A search was asked for.
    pub fn search(&mut self, q: &str)
        ensures
            final(self).query@ == q@,
            final(self).page == 1,
            *final(self) == (State { query: final(self).query, page: final(self).page, ..*old(self) }),
    {
        self.query = q.to_owned();
        self.page = 1;
    }

    /// The next page is asked for.
    pub fn load_more(&mut self)
        requires
            old(self).page < i64::MAX,
        ensures
            *final(self) == (State { page: (old(self).page + 1) as i64, ..*old(self) }),
    {
        self.page = self.page + 1;
    }

    /// What is searched for, and which page; nothing for a blank query.
    pub fn run_search(&self, query: &str) -> (r: Option<i64>)
        ensures
            r == (if trim(query@).len() == 0 {
                None
            } else if self.page < 1 {
                Some(1i64)
            } else {
                Some(self.page)
            }),
    {
        if trimmed(query).as_str().is_empty() {
            None
        } else if self.page < 1 {
            Some(1)
        } else {
            Some(self.page)
        }
    }

    /// Takes in a page of titles: only what the age gate lets through is kept, before
    /// anything of it is drawn. A further page is put behind what is there. Says what
    /// is said of the results.
    pub fn take_results(
        &mut self,
        titles: &Vec<Title>,
        gate: &Gate,
        ratings: &Vec<Option<i64>>,
        more: bool,
        append: bool,
    ) -> (r: &'static str)
        requires
            ratings@.len() == titles@.len(),
        ensures
            titles_view(final(self).results@) == (if append {
                titles_view(old(self).results@)
            } else {
                Seq::empty()
            }) + let_through(titles_view(titles@), *gate, ratings@),
            final(self).more == more,
            *final(self) == (State { results: final(self).results, more: final(self).more, ..*old(self) }),
            r@ == results_text(final(self).results@.len()),
    {
        let ghost all = titles_view(titles@);
        let ghost base = if append { titles_view(self.results@) } else { Seq::empty() };
        if !append {
            self.results = Vec::new();
        }
        let mut i: usize = 0;
        assert(all.take(0) =~= Seq::<TitleView>::empty());
        assert(titles_view(self.results@) =~= base + let_through(all.take(0), *gate, ratings@));
        while i < titles.len()
            invariant
                i <= titles@.len(),
                ratings@.len() == titles@.len(),
                all == titles_view(titles@),
                *self == (State { results: self.results, ..*old(self) }),
                titles_view(self.results@) == base + let_through(all.take(i as int), *gate, ratings@),
            decreases titles@.len() - i,
        {
            assert(all.take(i + 1).drop_last() =~= all.take(i as int));
            assert(all.take(i + 1).last() == titles@[i as int]@);
            if allowed(&titles[i], gate, ratings[i]) {
                let ghost was = titles_view(self.results@);
                self.results.push(titles[i].copy());
                assert(titles_view(self.results@) =~= was.push(titles@[i as int]@));
                assert(base + let_through(all.take(i as int), *gate, ratings@).push(titles@[i as int]@) =~= (base
                    + let_through(all.take(i as int), *gate, ratings@)).push(titles@[i as int]@));
            }
            i = i + 1;
        }
        assert(all.take(i as int) =~= all);
        self.more = more;
        if self.results.len() == 0 {
            "Nothing matched that."
        } else {
            ""
        }
    }

    /// The shelves of the landing page have come.
    pub fn load_home(&mut self, trending: Vec<Title>, seasonal: Vec<Title>)
        ensures
            titles_view(final(self).featured@) == front(titles_view(trending@), 6),
            final(self).trending@ == trending@,
            final(self).seasonal@ == seasonal@,
            *final(self) == (State {
                featured: final(self).featured,
                trending: final(self).trending,
                seasonal: final(self).seasonal,
                ..*old(self)
            }),
    {
        self.featured = featured(&trending);
        self.trending = trending;
        self.seasonal = seasonal;
    }
}

/// Nothing that the age gate blocks is ever among the results of a search.
pub proof fn law_a_blocked_title_never_appears(v: Seq<TitleView>, g: Gate, ratings: Seq<Option<i64>>, i: int)
    requires
        v.len() <= ratings.len(),
        0 <= i < let_through(v, g, ratings).len(),
    ensures
        exists|k: int| 0 <= k < v.len() && #[trigger] v[k] == let_through(v, g, ratings)[i] && is_allowed(v[k], g, ratings[k]),
    decreases v.len(),
{
    if v.len() > 0 {
        let w = v.drop_last();
        let all = let_through(v, g, ratings);
        let rest = let_through(w, g, ratings);
        if i < rest.len() {
            law_a_blocked_title_never_appears(w, g, ratings, i);
            let k = choose|k: int| 0 <= k < w.len() && #[trigger] w[k] == rest[i] && is_allowed(w[k], g, ratings[k]);
            assert(v[k] == w[k]);
            assert(all[i] == rest[i]);
        } else {
            assert(v[v.len() - 1] == all[i]);
        }
    }
}

/// A query suggests the terms that hold it, five at most, in their order; one that is too
/// short suggests nothing.
pub proof fn law_a_query_suggests_what_holds_it(recent: Seq<Seq<char>>, lowered: Seq<Seq<char>>, q: Seq<char>) -> (idx: Seq<int>)
    ensures
        rising(idx),
        idx.len() <= 5,
        suggested(recent, lowered, q) == Seq::new(idx.len(), |k: int| recent[idx[k]]),
        forall|i: int| #[trigger] idx.contains(i) ==> 0 <= i < recent.len() && has(lowered[i], q),
        encode_utf8(q).len() < 2 ==> idx.len() == 0,
        idx.len() < 5 && encode_utf8(q).len() >= 2 ==> forall|i: int| 0 <= i < recent.len() && has(lowered[i], q) ==> #[trigger] idx.contains(i),
    decreases recent.len(),
{
    if recent.len() == 0 {
        Seq::empty()
    } else {
        let front = recent.drop_last();
        let n = front.len() as int;
        let before = law_a_query_suggests_what_holds_it(front, lowered, q);
        let keep = before.len() < 5 && encode_utf8(q).len() >= 2 && has(lowered[n], q);
        assert forall|k: int| 0 <= k < before.len() implies 0 <= #[trigger] before[k] < n by {
            assert(before.contains(before[k]));
        }
        lemma_rising_push(before, n);
        let idx = if keep { before.push(n) } else { before };
        assert forall|i: int| #[trigger] idx.contains(i) implies 0 <= i < recent.len() && has(lowered[i], q) by {
            let k = choose|k: int| 0 <= k < idx.len() && idx[k] == i;
            if k < before.len() {
                assert(before.contains(before[k]));
            }
        }
        if idx.len() < 5 && encode_utf8(q).len() >= 2 {
            assert forall|i: int| 0 <= i < recent.len() && has(lowered[i], q) implies #[trigger] idx.contains(i) by {
                if i < n {
                    assert(before.contains(i));
                    let k = choose|k: int| 0 <= k < before.len() && before[k] == i;
                    assert(idx[k] == i);
                } else {
                    assert(idx[before.len() as int] == n);
                }
            }
        }
        assert(suggested(recent, lowered, q) =~= Seq::new(idx.len(), |k: int| recent[idx[k]]));
        idx
    }
}

/// The titles that are shown are those that the age gate lets through, all of them, in order.
pub proof fn law_the_gate_lets_through_what_it_allows(v: Seq<TitleView>, g: Gate, ratings: Seq<Option<i64>>) -> (idx: Seq<int>)
    ensures
        rising(idx),
        let_through(v, g, ratings) == Seq::new(idx.len(), |k: int| v[idx[k]]),
        forall|i: int| #[trigger] idx.contains(i) <==> 0 <= i < v.len() && is_allowed(v[i], g, ratings[i]),
    decreases v.len(),
{
    if v.len() == 0 {
        Seq::empty()
    } else {
        let before_all = v.drop_last();
        let n = before_all.len() as int;
        let before = law_the_gate_lets_through_what_it_allows(before_all, g, ratings);
        let keep = is_allowed(v.last(), g, ratings[n]);
        assert forall|k: int| 0 <= k < before.len() implies 0 <= #[trigger] before[k] < n by {
            assert(before.contains(before[k]));
        }
        lemma_rising_push(before, n);
        let idx = if keep { before.push(n) } else { before };
        assert forall|i: int| #[trigger] idx.contains(i) <==> 0 <= i < v.len() && is_allowed(v[i], g, ratings[i]) by {
            if idx.contains(i) {
                let k = choose|k: int| 0 <= k < idx.len() && idx[k] == i;
                if k < before.len() {
                    assert(before.contains(before[k]));
                    assert(before_all[i] == v[i]);
                }
            }
            if 0 <= i < n {
                assert(before_all[i] == v[i]);
                if before.contains(i) {
                    let k = choose|k: int| 0 <= k < before.len() && before[k] == i;
                    assert(idx[k] == i);
                }
            }
            if i == n && keep {
                assert(idx[before.len() as int] == n);
            }
        }
        assert(let_through(v, g, ratings) =~= Seq::new(idx.len(), |k: int| v[idx[k]]));
        idx
    }
}

/// A shelf shows the titles at the front of its list, as many as it has room for.
pub proof fn law_a_shelf_shows_the_front(v: Seq<TitleView>, n: nat)
    ensures
        v.len() <= n ==> front(v, n) == v,
        v.len() > n ==> front(v, n).len() == n && forall|i: int| 0 <= i < n ==> #[trigger] front(v, n)[i] == v[i],
        results_text(0) == "Nothing matched that."@,
        n > 0 ==> results_text(n) == ""@,
        season_name("WINTER"@) == "Winter"@,
        season_name("SPRING"@) == "Spring"@,
        season_name("SUMMER"@) == "Summer"@,
        season_name("FALL"@) == "Fall"@,
{
    reveal_strlit("WINTER");
    reveal_strlit("SPRING");
    reveal_strlit("SUMMER");
    reveal_strlit("FALL");
    assert("WINTER"@.len() == 6 && "SPRING"@.len() == 6 && "SUMMER"@.len() == 6 && "FALL"@.len() == 4);
    assert("WINTER"@[0] == 'W' && "SPRING"@[0] == 'S' && "SUMMER"@[0] == 'S' && "SPRING"@[1] == 'P' && "SUMMER"@[1] == 'U');
}

} // verus!
