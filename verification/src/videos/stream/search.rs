//! Searching the catalogue: its pages, what is suggested, and the preview under
//! the pointer.

use vstd::prelude::*;
use vstd::utf8::encode_utf8;
use super::state::{cards_view, hit_seasons, seasons_at, told, CardData, CardView, SearchHit, StreamState};
use super::table::Table;
use super::title::{meta_line, meta_text, Details, Dub};
use crate::text::{dec, join, join_strings, push_dec, same, trim, trimmed, views};

verus! {

/// What the catalogue returns on each page.
pub const PAGE_LEN: usize = 20;

/// How many previews are kept before they are dropped.
pub const PREVIEWS: usize = 60;

/// Whether some card is of a subject.
pub open spec fn has_card(list: Seq<CardView>, id: Seq<char>) -> bool {
    exists|i: int| 0 <= i < list.len() && (#[trigger] list[i]).id == id
}

/// The cards with some more, but for those that are there already.
pub open spec fn and_cards(list: Seq<CardView>, fresh: Seq<CardView>) -> Seq<CardView>
    decreases fresh.len(),
{
    if fresh.len() == 0 {
        list
    } else {
        let rest = and_cards(list, fresh.drop_last());
        if has_card(rest, fresh.last().id) { rest } else { rest.push(fresh.last()) }
    }
}

fn is_shown(list: &Vec<CardData>, id: &str) -> (r: bool)
    ensures
        r == has_card(cards_view(list@), id@),
{
    let ghost all = cards_view(list@);
    let mut i: usize = 0;
    while i < list.len()
        invariant
            i <= list@.len(),
            all == cards_view(list@),
            forall|j: int| 0 <= j < i ==> (#[trigger] all[j]).id != id@,
        decreases list@.len() - i,
    {
        assert(all[i as int].id == list@[i as int].id@);
        if same(list[i].id.as_str(), id) {
            assert(has_card(all, id@));
            return true;
        }
        i = i + 1;
    }
    assert(!has_card(all, id@));
    false
}

/// What a search leads to.
#[derive(Debug)]
pub enum SearchAct {
    /// The box is empty: the results are cleared and nothing is asked.
    Clear,
    /// This is asked, for the first page.
    Ask(String),
}

/// Whether a further page may hold more: one that came back short is the last.
/// Folding seasons and language cuts shrinks a full page, so half a page counts as
/// full.
pub fn may_have_more(hits: usize) -> (r: bool)
    ensures
        r == (hits >= 10),
{
    hits >= PAGE_LEN / 2
}

/// What the answer to a search leads to.
#[derive(Clone, Copy, Debug, PartialEq, Eq, Structural)]
pub enum Answered {
    /// A newer action has come: nothing.
    Drop,
    /// There is nothing: the results are cleared, and that is said.
    NothingFound,
    /// The page is taken in; whether more may follow.
    Take { more: bool },
}

/// What a page of so many hits leads to. An empty page that is not the first is
/// the end of the results, not an empty search.
pub fn search_answer(current: bool, hits: usize, page: usize) -> (r: Answered)
    ensures
        r == (if !current {
            Answered::Drop
        } else if hits == 0 && page == 1 {
            Answered::NothingFound
        } else {
            Answered::Take { more: hits >= 10 }
        }),
{
    if !current {
        Answered::Drop
    } else if hits == 0 && page == 1 {
        Answered::NothingFound
    } else {
        Answered::Take { more: may_have_more(hits) }
    }
}

/// What is said of the results.
pub fn results_line(count: usize, host: &str) -> (r: String)
    ensures
        r@ == dec(count as nat) + " results · "@ + host@,
{
    let mut s = String::new();
    push_dec(&mut s, count as u64);
    assert(s@ =~= dec(count as nat));
    s.append(" results · ");
    s.append(host);
    s
}

impl StreamState {
    /// A search was asked for. Whatever is open is closed, so that it does not lie
    /// over the results.
    pub fn stream_search(&mut self, query: &str) -> (r: SearchAct)
        ensures
            final(self).query@ == trim(query@),
            final(self).page == 0,
            final(self).results@.len() == 0,
            final(self).open_id@.len() == 0,
            final(self).details is None,
            final(self).season_subjects@.len() == 0,
            final(self).files@.len() == 0,
            final(self).subs@.len() == 0,
            final(self).sub_choice is None,
            *final(self) == (StreamState {
                query: final(self).query,
                page: final(self).page,
                results: final(self).results,
                open_id: final(self).open_id,
                details: final(self).details,
                season_subjects: final(self).season_subjects,
                files: final(self).files,
                subs: final(self).subs,
                sub_choice: final(self).sub_choice,
                ..*old(self)
            }),
            r is Clear <==> trim(query@).len() == 0,
            r matches SearchAct::Ask(q) ==> q@ == trim(query@),
    {
        let q = trimmed(query);
        self.clear_open_title();
        self.query = q.clone();
        self.page = 0;
        self.results = Vec::new();
        if q.as_str().is_empty() {
            SearchAct::Clear
        } else {
            SearchAct::Ask(q)
        }
    }

    /// The next page of the search on screen; nothing before its first page came.
    pub fn stream_search_more(&self) -> (r: Option<(String, usize)>)
        ensures
            r is Some <==> self.query@.len() > 0 && 0 < self.page < usize::MAX,
            r matches Some(p) ==> p.0@ == self.query@ && p.1 == self.page + 1,
    {
        if self.query.as_str().is_empty() || self.page == 0 || self.page == usize::MAX {
            None
        } else {
            Some((self.query.clone(), self.page + 1))
        }
    }

    /// Takes in a page of hits, as cards: the first page takes the place of what
    /// was there, a later one is put behind it, and no subject is shown twice for
    /// it.
    pub fn take_page(&mut self, page: usize, hits: &Vec<SearchHit>, fresh: Vec<CardData>)
        requires
            old(self).wf(),
        ensures
            final(self).wf(),
            final(self).page == page,
            cards_view(final(self).results@) == (if page == 1 {
                cards_view(fresh@)
            } else {
                and_cards(cards_view(old(self).results@), cards_view(fresh@))
            }),
            forall|q: Seq<char>| #[trigger]
                seasons_at(final(self).season_map, q) == told(hit_seasons(hits@), q, seasons_at(old(self).season_map, q)),
            *final(self) == (StreamState {
                page: final(self).page,
                results: final(self).results,
                season_map: final(self).season_map,
                ..*old(self)
            }),
    {
        self.remember_season_maps(hits);
        self.page = page;
        if page == 1 {
            self.results = fresh;
            return;
        }
        let ghost base = cards_view(self.results@);
        let ghost all = cards_view(fresh@);
        let ghost mid = *self;
        let mut i: usize = 0;
        assert(all.take(0) =~= Seq::<CardView>::empty());
        while i < fresh.len()
            invariant
                i <= fresh@.len(),
                all == cards_view(fresh@),
                *self == (StreamState { results: self.results, ..mid }),
                cards_view(self.results@) == and_cards(base, all.take(i as int)),
            decreases fresh@.len() - i,
        {
            assert(all.take(i + 1).drop_last() =~= all.take(i as int));
            assert(all.take(i + 1).last() == fresh@[i as int]@);
            if !is_shown(&self.results, fresh[i].id.as_str()) {
                let ghost was = cards_view(self.results@);
                self.results.push(fresh[i].copy());
                assert(cards_view(self.results@) =~= was.push(fresh@[i as int]@));
            }
            i = i + 1;
        }
        assert(all.take(i as int) =~= all);
    }

    /// Keeps what the preview shows of a title. Where too many are kept they are
    /// all dropped first.
    pub fn keep_preview(&mut self, subject_id: &str, d: Details)
        requires
            old(self).wf(),
        ensures
            final(self).wf(),
            final(self).preview_cache.at(subject_id@) == Some(d),
            forall|q: Seq<char>|
                q != subject_id@ ==> #[trigger] final(self).preview_cache.at(q) == (if old(
                    self,
                ).preview_cache.rows@.len() > 60 {
                    None
                } else {
                    old(self).preview_cache.at(q)
                }),
            final(self).preview_cache.rows@.len() <= 61,
            *final(self) == (StreamState { preview_cache: final(self).preview_cache, ..*old(self) }),
    {
        if self.preview_cache.rows.len() > PREVIEWS {
            self.preview_cache = Table::new();
        }
        self.preview_cache.insert(subject_id.to_owned(), d);
    }
}

proof fn lemma_and_cards(list: Seq<CardView>, fresh: Seq<CardView>)
    requires
        cards_apart(list),
    ensures
        cards_apart(and_cards(list, fresh)),
        list.len() <= and_cards(list, fresh).len(),
        and_cards(list, fresh).take(list.len() as int) == list,
    decreases fresh.len(),
{
    if fresh.len() > 0 {
        lemma_and_cards(list, fresh.drop_last());
        let rest = and_cards(list, fresh.drop_last());
        if !has_card(rest, fresh.last().id) {
            let n = rest.push(fresh.last());
            assert forall|i: int, j: int| 0 <= i < j < n.len() implies (#[trigger] n[i]).id != (#[trigger] n[j]).id by {
                if j == rest.len() {
                    assert(n[i] == rest[i]);
                } else {
                    assert(n[i] == rest[i] && n[j] == rest[j]);
                }
            }
            assert(n.take(list.len() as int) =~= rest.take(list.len() as int));
        }
    } else {
        assert(list.take(list.len() as int) =~= list);
    }
}

/// Whether no subject stands on two cards.
pub open spec fn cards_apart(list: Seq<CardView>) -> bool {
    forall|i: int, j: int| 0 <= i < j < list.len() ==> (#[trigger] list[i]).id != (#[trigger] list[j]).id
}

/// A further page leaves the cards that are there where they are, and never shows a
/// subject twice.
pub proof fn law_a_further_page_only_adds(list: Seq<CardView>, fresh: Seq<CardView>)
    requires
        cards_apart(list),
    ensures
        cards_apart(and_cards(list, fresh)),
        list.len() <= and_cards(list, fresh).len(),
        and_cards(list, fresh).take(list.len() as int) == list,
{
    lemma_and_cards(list, fresh);
}

/// What is asked for suggestions: nothing for less than two bytes.
pub fn stream_suggest(query: &str) -> (r: Option<String>)
    ensures
        r is Some <==> encode_utf8(trim(query@)).len() >= 2,
        r matches Some(q) ==> q@ == trim(query@),
{
    let q = trimmed(query);
    if q.as_str().as_bytes().len() < 2 {
        None
    } else {
        Some(q)
    }
}

/// The preview of a title.
#[derive(Debug)]
pub struct Preview {
    pub title: String,
    pub meta: String,
    pub overview: String,
    pub seasons: usize,
    pub is_series: bool,
    pub langs: String,
}

/// The names of some language cuts.
pub open spec fn dub_names(dubs: Seq<Dub>) -> Seq<Seq<char>> {
    Seq::new(dubs.len(), |i: int| dubs[i].name@)
}

/// The preview of a title; `dubs` are the language cuts worth naming.
pub fn push_preview(d: &Details, dubs: &Vec<Dub>) -> (r: Preview)
    requires
        d.rating.wf(),
    ensures
        r.title@ == d.title@,
        r.meta@ == meta_text(*d),
        r.overview@ == d.overview@,
        r.seasons == d.seasons@.len(),
        r.is_series == d.is_series,
        r.langs@ == join(dub_names(dubs@), ", "@),
{
    let mut names: Vec<String> = Vec::new();
    let mut i: usize = 0;
    while i < dubs.len()
        invariant
            i <= dubs@.len(),
            names@.len() == i,
            forall|j: int| 0 <= j < i ==> (#[trigger] names@[j])@ == dubs@[j].name@,
        decreases dubs@.len() - i,
    {
        names.push(dubs[i].name.clone());
        i = i + 1;
    }
    assert(views(names@) =~= dub_names(dubs@));
    Preview {
        title: d.title.clone(),
        meta: meta_line(d),
        overview: d.overview.clone(),
        seasons: d.seasons.len(),
        is_series: d.is_series,
        langs: join_strings(&names, ", "),
    }
}

/// Further cards are added behind those that are there, in order, each subject once: a card
/// is added exactly where its subject is not there yet.
pub proof fn law_a_subject_has_one_card(list: Seq<CardView>, fresh: Seq<CardView>, c: CardView)
    ensures
        and_cards(list, fresh.push(c)) == (if exists|i: int| 0 <= i < and_cards(list, fresh).len() && (#[trigger] and_cards(list, fresh)[i]).id == c.id {
            and_cards(list, fresh)
        } else {
            and_cards(list, fresh).push(c)
        }),
        and_cards(list, Seq::empty()) == list,
        cards_apart(list) ==> cards_apart(and_cards(list, fresh)),
        forall|k: int| 0 <= k < fresh.len() ==> has_card(and_cards(list, fresh), (#[trigger] fresh[k]).id),
    decreases fresh.len(),
{
    assert(fresh.push(c).drop_last() =~= fresh);
    if fresh.len() > 0 {
        let front = fresh.drop_last();
        law_a_subject_has_one_card(list, front, c);
        let (rest, all) = (and_cards(list, front), and_cards(list, fresh));
        assert forall|k: int| 0 <= k < fresh.len() implies has_card(all, (#[trigger] fresh[k]).id) by {
            if k < front.len() {
                assert(front[k] == fresh[k]);
                let i = choose|i: int| 0 <= i < rest.len() && (#[trigger] rest[i]).id == fresh[k].id;
                assert(all[i].id == fresh[k].id);
            } else if !has_card(rest, fresh.last().id) {
                assert(all[rest.len() as int].id == fresh[k].id);
            }
        }
    }
}

} // verus!
