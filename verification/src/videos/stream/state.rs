//! What is remembered between one action and the next: the title that is open,
//! the episode that is picked, and which action is the newest.

use vstd::prelude::*;
use super::table::Table;
use super::title::{Caption, Details, Season, StreamFile};
use crate::ascii::{fold, same_letters};
use crate::double::{Double, Number};
use crate::status::figures::opt_string;
use crate::text::{dec_int, push_dec_int, same};

verus! {

/// Counts the actions. Work carries the number of the action that it was started
/// for, and what it brings is dropped once a newer action has come.
#[derive(Clone, Copy, Debug, PartialEq, Eq, Structural)]
pub struct Guard {
    pub now: u64,
}

/// The number of the next action.
pub open spec fn bumped(now: u64) -> u64 {
    if now == u64::MAX { 0 } else { (now + 1) as u64 }
}

impl Guard {
    /// No action yet.
    pub fn new() -> (r: Guard)
        ensures
            r == (Guard { now: 0 }),
    {
        Guard { now: 0 }
    }

    /// Starts an action.
    pub fn next_epoch(&mut self) -> (r: u64)
        ensures
            r == bumped(old(self).now),
            final(self).now == r,
    {
        if self.now == u64::MAX {
            self.now = 0;
        } else {
            self.now = self.now + 1;
        }
        self.now
    }

    /// Whether an action is still the newest.
    pub fn is_current(&self, epoch: u64) -> (r: bool)
        ensures
            r == (self.now == epoch),
    {
        self.now == epoch
    }
}

/// An action is the newest when it starts, and no longer once the next has
/// started.
pub proof fn law_only_the_newest_action_is_current(g: Guard)
    ensures
        ({
            let first = bumped(g.now);
            let second = bumped(first);
            &&& first != g.now
            &&& second != first
        }),
{
}

/// A request to open a title at an episode and to play it.
#[derive(Clone, Debug)]
pub struct PendingPlay {
    pub subject_id: String,
    pub season: i64,
    pub episode: i64,
}

/// What a history row asks for: its numbers, none below zero.
pub fn pending_of(subject_id: &str, season: i32, episode: i32) -> (r: PendingPlay)
    ensures
        r.subject_id@ == subject_id@,
        r.season == (if season < 0 { 0 } else { season as int }),
        r.episode == (if episode < 0 { 0 } else { episode as int }),
{
    PendingPlay {
        subject_id: subject_id.to_owned(),
        season: if season < 0 { 0 } else { season as i64 },
        episode: if episode < 0 { 0 } else { episode as i64 },
    }
}

/// Takes the request where it is for this title. One for another title is dropped
/// too: it is stale once something else was opened.
pub fn take_pending_play(pending: &mut Option<PendingPlay>, subject_id: &str) -> (r: Option<PendingPlay>)
    ensures
        *final(pending) is None,
        r == (match *old(pending) {
            Some(p) => if p.subject_id@ == subject_id@ { Some(p) } else { None },
            None => None,
        }),
{
    let taken = pending.take();
    match taken {
        Some(p) => {
            if same(p.subject_id.as_str(), subject_id) {
                Some(p)
            } else {
                None
            }
        },
        None => None,
    }
}

/// A hit of a search. A show that is split over one subject for each season has
/// the whole list with it.
#[derive(Clone, Debug)]
pub struct SearchHit {
    pub id: String,
    pub title: String,
    pub year: String,
    pub cover: String,
    pub is_series: bool,
    pub season_subjects: Vec<(i64, String)>,
}

/// A season and the subject that holds it.
pub type SeasonView = (int, Seq<char>);

/// The seasons as they are.
pub open spec fn seasons_view(v: Seq<(i64, String)>) -> Seq<SeasonView> {
    Seq::new(v.len(), |i: int| (v[i].0 as int, v[i].1@))
}

/// The same seasons once more.
pub fn copy_seasons(v: &Vec<(i64, String)>) -> (r: Vec<(i64, String)>)
    ensures
        seasons_view(r@) == seasons_view(v@),
{
    let mut out: Vec<(i64, String)> = Vec::new();
    let mut i: usize = 0;
    while i < v.len()
        invariant
            i <= v@.len(),
            out@.len() == i,
            forall|j: int| 0 <= j < i ==> (#[trigger] out@[j]).0 == v@[j].0 && out@[j].1@ == v@[j].1@,
        decreases v@.len() - i,
    {
        out.push((v[i].0, v[i].1.clone()));
        i = i + 1;
    }
    assert(seasons_view(out@) =~= seasons_view(v@));
    out
}

/// Where a subject first stands in a list of seasons.
pub open spec fn place_of_subject(list: Seq<SeasonView>, id: Seq<char>) -> Option<int>
    decreases list.len(),
{
    if list.len() == 0 {
        None
    } else if list[0].1 == id {
        Some(0)
    } else {
        match place_of_subject(list.skip(1), id) {
            Some(i) => Some(i + 1),
            None => None,
        }
    }
}

fn find_subject(list: &Vec<(i64, String)>, id: &str) -> (r: Option<usize>)
    ensures
        r is Some <==> place_of_subject(seasons_view(list@), id@) is Some,
        r matches Some(i) ==> i < list@.len() && place_of_subject(seasons_view(list@), id@) == Some(i as int),
{
    let ghost all = seasons_view(list@);
    let mut i: usize = 0;
    assert(all.skip(0) =~= all);
    while i < list.len()
        invariant
            i <= list@.len(),
            all == seasons_view(list@),
            place_of_subject(all, id@) == (match place_of_subject(all.skip(i as int), id@) {
                Some(k) => Some(k + i),
                None => None,
            }),
        decreases list@.len() - i,
    {
        assert(all.skip(i as int)[0] == all[i as int]);
        assert(all.skip(i as int).skip(1) =~= all.skip(i + 1));
        if same(list[i].1.as_str(), id) {
            return Some(i);
        }
        i = i + 1;
    }
    None
}

/// The subject that holds a season: the first that does.
pub open spec fn subject_of_season(list: Seq<SeasonView>, n: int) -> Option<Seq<char>>
    decreases list.len(),
{
    if list.len() == 0 {
        None
    } else if list[0].0 == n {
        Some(list[0].1)
    } else {
        subject_of_season(list.skip(1), n)
    }
}

fn find_season(list: &Vec<(i64, String)>, n: i64) -> (r: Option<String>)
    ensures
        opt_string(r) == subject_of_season(seasons_view(list@), n as int),
{
    let ghost all = seasons_view(list@);
    let mut i: usize = 0;
    assert(all.skip(0) =~= all);
    while i < list.len()
        invariant
            i <= list@.len(),
            all == seasons_view(list@),
            subject_of_season(all, n as int) == subject_of_season(all.skip(i as int), n as int),
        decreases list@.len() - i,
    {
        assert(all.skip(i as int)[0] == all[i as int]);
        assert(all.skip(i as int).skip(1) =~= all.skip(i + 1));
        if list[i].0 == n {
            return Some(list[i].1.clone());
        }
        i = i + 1;
    }
    None
}

/// Whether a list of seasons has a subject.
pub open spec fn names(list: Seq<SeasonView>, id: Seq<char>) -> bool {
    exists|i: int| 0 <= i < list.len() && (#[trigger] list[i]).1 == id
}

/// The seasons that are known to belong with a subject.
pub open spec fn seasons_at(map: Table<Vec<(i64, String)>>, id: Seq<char>) -> Option<Seq<SeasonView>> {
    match map.at(id) {
        Some(v) => Some(seasons_view(v@)),
        None => None,
    }
}

/// What a list says of a subject, else what was known of it.
pub open spec fn registered(list: Seq<SeasonView>, id: Seq<char>, was: Option<Seq<SeasonView>>) -> Option<Seq<SeasonView>> {
    if names(list, id) { Some(list) } else { was }
}

fn register(map: &mut Table<Vec<(i64, String)>>, list: &Vec<(i64, String)>)
    requires
        old(map).wf(),
    ensures
        final(map).wf(),
        forall|q: Seq<char>| #[trigger]
            seasons_at(*final(map), q) == registered(seasons_view(list@), q, seasons_at(*old(map), q)),
{
    let ghost all = seasons_view(list@);
    let mut i: usize = 0;
    assert forall|q: Seq<char>| #[trigger] seasons_at(*map, q) == (if names(all.take(0), q) {
        Some(all)
    } else {
        seasons_at(*old(map), q)
    }) by {
        assert(!names(all.take(0), q));
    }
    while i < list.len()
        invariant
            i <= list@.len(),
            all == seasons_view(list@),
            map.wf(),
            forall|q: Seq<char>| #[trigger]
                seasons_at(*map, q) == (if names(all.take(i as int), q) { Some(all) } else { seasons_at(*old(map), q) }),
        decreases list@.len() - i,
    {
        let ghost was = *map;
        let ghost id = list@[i as int].1@;
        map.insert(list[i].1.clone(), copy_seasons(list));
        proof {
            assert forall|q: Seq<char>| #[trigger] seasons_at(*map, q) == (if names(all.take(i + 1), q) {
                Some(all)
            } else {
                seasons_at(*old(map), q)
            }) by {
                let a = all.take(i as int);
                let b = all.take(i + 1);
                assert(b[i as int].1 == id);
                assert forall|j: int| 0 <= j < i implies a[j] == b[j] by {}
                if q == id {
                    assert(names(b, q));
                    assert(map.at(q) is Some);
                } else {
                    assert(map.at(q) == was.at(q));
                    assert(seasons_at(*map, q) == seasons_at(was, q));
                    if names(a, q) {
                        let j = choose|j: int| 0 <= j < a.len() && (#[trigger] a[j]).1 == q;
                        assert(b[j].1 == q);
                    }
                    if names(b, q) {
                        let j = choose|j: int| 0 <= j < b.len() && (#[trigger] b[j]).1 == q;
                        assert(j < i);
                        assert(a[j].1 == q);
                    }
                }
            }
        }
        i = i + 1;
    }
    assert(all.take(i as int) =~= all);
}

/// What some hits say of a subject: the last of them that is split and has it.
pub open spec fn told(hits: Seq<Seq<SeasonView>>, id: Seq<char>, was: Option<Seq<SeasonView>>) -> Option<Seq<SeasonView>>
    decreases hits.len(),
{
    if hits.len() == 0 {
        was
    } else {
        let before = told(hits.drop_last(), id, was);
        if hits.last().len() > 1 { registered(hits.last(), id, before) } else { before }
    }
}

/// The seasons of each hit.
pub open spec fn hit_seasons(hits: Seq<SearchHit>) -> Seq<Seq<SeasonView>> {
    Seq::new(hits.len(), |i: int| seasons_view(hits[i].season_subjects@))
}

/// A card of the grid.
#[derive(Clone, Debug)]
pub struct CardData {
    pub id: String,
    pub title: String,
    /// The year, or how far a title was watched.
    pub line: String,
    pub poster: Option<String>,
    pub is_series: bool,
    pub seasons: usize,
    /// How much was watched, between none and all, in single precision.
    pub progress: Number,
}

/// What a card shows.
#[verifier::ext_equal]
pub struct CardView {
    pub id: Seq<char>,
    pub title: Seq<char>,
    pub line: Seq<char>,
    pub poster: Option<Seq<char>>,
    pub is_series: bool,
    pub seasons: int,
    pub progress: Number,
}

impl View for CardData {
    type V = CardView;

    open spec fn view(&self) -> CardView {
        CardView {
            id: self.id@,
            title: self.title@,
            line: self.line@,
            poster: opt_string(self.poster),
            is_series: self.is_series,
            seasons: self.seasons as int,
            progress: self.progress,
        }
    }
}

/// The cards as they are.
pub open spec fn cards_view(v: Seq<CardData>) -> Seq<CardView> {
    Seq::new(v.len(), |i: int| v[i]@)
}

/// The card of a hit: nothing of it was watched, and a split show says how many
/// seasons it has.
pub open spec fn hit_card(h: SearchHit, poster: Option<Seq<char>>) -> CardView {
    CardView {
        id: h.id@,
        title: h.title@,
        line: h.year@,
        poster,
        is_series: h.is_series,
        seasons: h.season_subjects@.len() as int,
        progress: Number::Finite(Double { neg: false, m: 0, e: 0 }),
    }
}

/// The same text once more, where there is one.
pub fn copy_text(s: &Option<String>) -> (r: Option<String>)
    ensures
        opt_string(r) == opt_string(*s),
{
    match s {
        Some(t) => Some(t.clone()),
        None => None,
    }
}

impl CardData {
    /// See [`hit_card`].
    pub fn of(hit: &SearchHit, poster: Option<String>) -> (r: CardData)
        ensures
            r@ == hit_card(*hit, opt_string(poster)),
    {
        CardData {
            id: hit.id.clone(),
            title: hit.title.clone(),
            line: hit.year.clone(),
            poster,
            is_series: hit.is_series,
            seasons: hit.season_subjects.len(),
            progress: Number::Finite(Double::zero()),
        }
    }

    /// The same card once more.
    pub fn copy(&self) -> (r: CardData)
        ensures
            r@ == self@,
    {
        CardData {
            id: self.id.clone(),
            title: self.title.clone(),
            line: self.line.clone(),
            poster: copy_text(&self.poster),
            is_series: self.is_series,
            seasons: self.seasons,
            progress: self.progress,
        }
    }
}

/// What the section remembers.
#[derive(Debug)]
pub struct StreamState {
    /// The subject that the open title was fetched with; empty where none is open.
    pub open_id: String,
    pub details: Option<Details>,
    /// Season and episode; zero and zero for a film.
    pub selection: (i64, i64),
    /// The seasons of a split show; empty where the subject has its own seasons.
    pub season_subjects: Vec<(i64, String)>,
    /// The whole list of seasons under every subject of a split show.
    pub season_map: Table<Vec<(i64, String)>>,
    pub files: Vec<StreamFile>,
    pub subs: Vec<Caption>,
    pub sub_choice: Option<usize>,
    /// The language picked, so that it outlives an episode with another order of
    /// tracks.
    pub sub_lang: Option<String>,
    /// The rung picked; empty for every rung.
    pub resolution: String,
    pub preview_cache: Table<Details>,
    pub current_stream: usize,
    pub bookmarked: bool,
    pub bm_sort: String,
    pub bm_asc: bool,
    pub query: String,
    pub page: usize,
    pub results: Vec<CardData>,
}

/// What a season number and an episode number start at when a title is opened.
#[derive(Clone, Copy, Debug, PartialEq, Eq, Structural)]
pub struct Opening {
    /// The season that is shown.
    pub season: i64,
    /// The season that is asked for: each subject of a split show holds its own as
    /// the first.
    pub wire_season: i64,
    pub episode: i64,
}

/// Where a title starts: a split show at the season of its subject, a series at
/// its first season, a film at no episode at all.
pub open spec fn opened_at(split: Seq<SeasonView>, id: Seq<char>, is_series: bool, seasons: Seq<Season>) -> Opening {
    if split.len() > 0 {
        let season = match place_of_subject(split, id) {
            Some(i) => split[i].0 as i64,
            None => 1,
        };
        Opening { season, wire_season: 1, episode: 1 }
    } else if is_series {
        let season = if seasons.len() > 0 { seasons[0].number } else { 1 };
        Opening { season, wire_season: season, episode: 1 }
    } else {
        Opening { season: 0, wire_season: 0, episode: 0 }
    }
}

/// See [`opened_at`].
pub fn opening(split: &Vec<(i64, String)>, subject_id: &str, is_series: bool, seasons: &Vec<Season>) -> (r: Opening)
    ensures
        r == opened_at(seasons_view(split@), subject_id@, is_series, seasons@),
{
    if split.len() > 0 {
        let season: i64 = match find_subject(split, subject_id) {
            Some(i) => split[i].0,
            None => 1,
        };
        return Opening { season, wire_season: 1, episode: 1 };
    }
    if is_series {
        let season: i64 = if seasons.len() > 0 { seasons[0].number } else { 1 };
        return Opening { season, wire_season: season, episode: 1 };
    }
    Opening { season: 0, wire_season: 0, episode: 0 }
}

/// How many episodes a season has: what the season says, else the first season.
pub open spec fn episodes_in(seasons: Seq<Season>, season: int, other: int) -> int
    decreases seasons.len(),
{
    if seasons.len() == 0 {
        other
    } else if seasons[0].number == season {
        seasons[0].max_ep as int
    } else {
        episodes_in(seasons.skip(1), season, other)
    }
}

/// The episodes of the first season.
pub open spec fn first_count(seasons: Seq<Season>) -> int {
    if seasons.len() > 0 { seasons[0].max_ep as int } else { 0 }
}

fn count_for(seasons: &Vec<Season>, season: i64, other: i64) -> (r: i64)
    ensures
        r == episodes_in(seasons@, season as int, other as int),
{
    let mut i: usize = 0;
    assert(seasons@.skip(0) =~= seasons@);
    while i < seasons.len()
        invariant
            i <= seasons@.len(),
            episodes_in(seasons@, season as int, other as int) == episodes_in(
                seasons@.skip(i as int),
                season as int,
                other as int,
            ),
        decreases seasons@.len() - i,
    {
        assert(seasons@.skip(i as int)[0] == seasons@[i as int]);
        assert(seasons@.skip(i as int).skip(1) =~= seasons@.skip(i + 1));
        if seasons[i].number == season {
            return seasons[i].max_ep;
        }
        i = i + 1;
    }
    other
}

/// How many episodes a season has; those of the first season where it is not
/// listed, none where nothing is.
pub fn max_ep_for(seasons: &Vec<Season>, season: i64) -> (r: i64)
    ensures
        r == episodes_in(seasons@, season as int, first_count(seasons@)),
{
    let other: i64 = if seasons.len() > 0 { seasons[0].max_ep } else { 0 };
    count_for(seasons, season, other)
}

/// How many episodes are offered for a count.
pub open spec fn offered(max_ep: int) -> int {
    if max_ep < 0 { 0 } else if max_ep > 500 { 500 } else { max_ep }
}

/// The episodes from the first to the last; never more than five hundred.
pub fn episode_numbers(max_ep: i64) -> (r: Vec<i32>)
    ensures
        r@ == Seq::new(offered(max_ep as int) as nat, |i: int| (i + 1) as i32),
{
    let n: i32 = if max_ep < 0 { 0 } else if max_ep > 500 { 500 } else { max_ep as i32 };
    let mut out: Vec<i32> = Vec::new();
    let mut i: i32 = 0;
    while i < n
        invariant
            0 <= i <= n <= 500,
            out@.len() == i,
            forall|j: int| 0 <= j < i ==> #[trigger] out@[j] == j + 1,
        decreases n - i,
    {
        out.push(i + 1);
        i = i + 1;
    }
    assert(out@ =~= Seq::new(offered(max_ep as int) as nat, |i: int| (i + 1) as i32));
    out
}

/// What the stream that is armed is called.
pub open spec fn stream_name(resolution: int) -> Seq<char> {
    if resolution > 0 { dec_int(resolution) + "p stream"@ } else { "stream"@ }
}

/// See [`stream_name`].
pub fn stream_label(resolution: i64) -> (r: String)
    ensures
        r@ == stream_name(resolution as int),
{
    if resolution > 0 {
        let mut s = String::new();
        push_dec_int(&mut s, resolution);
        assert(s@ =~= dec_int(resolution as int));
        s.append("p stream");
        s
    } else {
        "stream".to_owned()
    }
}

/// What picking a season leads to.
#[derive(Debug)]
pub enum SeasonAct {
    /// Nothing is open.
    Nothing,
    /// Another subject holds the season: it is opened.
    Reopen(String),
    /// The episodes of the season, and the subject whose files are loaded.
    Load { id: String, episodes: Vec<i32> },
}

/// Whether a list has a language, small and capital letters alike, and where
/// first.
pub open spec fn place_of_lang(list: Seq<Caption>, lang: Seq<char>) -> Option<int>
    decreases list.len(),
{
    if list.len() == 0 {
        None
    } else if fold(list[0].lang@) == fold(lang) {
        Some(0)
    } else {
        match place_of_lang(list.skip(1), lang) {
            Some(i) => Some(i + 1),
            None => None,
        }
    }
}

/// See [`place_of_lang`].
pub fn find_lang(list: &Vec<Caption>, lang: &str) -> (r: Option<usize>)
    ensures
        r is Some <==> place_of_lang(list@, lang@) is Some,
        r matches Some(i) ==> i < list@.len() && place_of_lang(list@, lang@) == Some(i as int),
{
    let mut i: usize = 0;
    assert(list@.skip(0) =~= list@);
    while i < list.len()
        invariant
            i <= list@.len(),
            place_of_lang(list@, lang@) == (match place_of_lang(list@.skip(i as int), lang@) {
                Some(k) => Some(k + i),
                None => None,
            }),
        decreases list@.len() - i,
    {
        assert(list@.skip(i as int)[0] == list@[i as int]);
        assert(list@.skip(i as int).skip(1) =~= list@.skip(i + 1));
        if same_letters(list[i].lang.as_str(), lang) {
            return Some(i);
        }
        i = i + 1;
    }
    None
}

/// The place of the stream that is armed: nothing where there is no file, never
/// behind the last.
pub open spec fn armed(files: int, current: int) -> int {
    if files == 0 { -1 } else if current > files - 1 { files - 1 } else { current }
}

impl StreamState {
    /// The tables name each subject once.
    pub open spec fn wf(&self) -> bool {
        self.season_map.wf() && self.preview_cache.wf()
    }

    /// Nothing open, and English picked. `resolution` is the rung kept from the
    /// last time.
    pub fn new(resolution: &str) -> (r: StreamState)
        ensures
            r.wf(),
            r.open_id@.len() == 0,
            r.details is None,
            r.selection == (0i64, 0i64),
            r.season_subjects@.len() == 0,
            r.season_map.rows@.len() == 0,
            r.files@.len() == 0,
            r.subs@.len() == 0,
            r.sub_choice is None,
            opt_string(r.sub_lang) == Some("English"@),
            r.resolution@ == resolution@,
            r.preview_cache.rows@.len() == 0,
            r.current_stream == 0,
            !r.bookmarked,
            r.bm_sort@ == "date"@,
            !r.bm_asc,
            r.query@.len() == 0,
            r.page == 0,
            r.results@.len() == 0,
    {
        StreamState {
            open_id: String::new(),
            details: None,
            selection: (0, 0),
            season_subjects: Vec::new(),
            season_map: Table::new(),
            files: Vec::new(),
            subs: Vec::new(),
            sub_choice: None,
            sub_lang: Some("English".to_owned()),
            resolution: resolution.to_owned(),
            preview_cache: Table::new(),
            current_stream: 0,
            bookmarked: false,
            bm_sort: "date".to_owned(),
            bm_asc: false,
            query: String::new(),
            page: 0,
            results: Vec::new(),
        }
    }

    /// The subject that files are looked up with; nothing where no title is open.
    pub fn opened_subject(&self) -> (r: Option<String>)
        ensures
            opt_string(r) == (if self.open_id@.len() == 0 { None } else { Some(self.open_id@) }),
    {
        if self.open_id.as_str().is_empty() {
            None
        } else {
            Some(self.open_id.clone())
        }
    }

    /// Forgets the title that is open and keeps what belongs to the search.
    pub fn clear_open_title(&mut self)
        ensures
            final(self).open_id@.len() == 0,
            final(self).details is None,
            final(self).season_subjects@.len() == 0,
            final(self).files@.len() == 0,
            final(self).subs@.len() == 0,
            final(self).sub_choice is None,
            *final(self) == (StreamState {
                open_id: final(self).open_id,
                details: final(self).details,
                season_subjects: final(self).season_subjects,
                files: final(self).files,
                subs: final(self).subs,
                sub_choice: final(self).sub_choice,
                ..*old(self)
            }),
    {
        self.open_id = String::new();
        self.details = None;
        self.season_subjects = Vec::new();
        self.files = Vec::new();
        self.subs = Vec::new();
        self.sub_choice = None;
    }

    /// Keeps the lists of seasons that came with a search, under every subject in
    /// each list. What earlier searches said of other subjects stays.
    pub fn remember_season_maps(&mut self, hits: &Vec<SearchHit>)
        requires
            old(self).wf(),
        ensures
            final(self).wf(),
            *final(self) == (StreamState { season_map: final(self).season_map, ..*old(self) }),
            forall|q: Seq<char>| #[trigger]
                seasons_at(final(self).season_map, q) == told(hit_seasons(hits@), q, seasons_at(old(self).season_map, q)),
    {
        let ghost all = hit_seasons(hits@);
        let mut i: usize = 0;
        assert(all.take(0) =~= Seq::<Seq<SeasonView>>::empty());
        while i < hits.len()
            invariant
                i <= hits@.len(),
                all == hit_seasons(hits@),
                self.wf(),
                *self == (StreamState { season_map: self.season_map, ..*old(self) }),
                forall|q: Seq<char>| #[trigger]
                    seasons_at(self.season_map, q) == told(all.take(i as int), q, seasons_at(old(self).season_map, q)),
            decreases hits@.len() - i,
        {
            let ghost was = self.season_map;
            let ghost list = seasons_view(hits@[i as int].season_subjects@);
            if hits[i].season_subjects.len() > 1 {
                register(&mut self.season_map, &hits[i].season_subjects);
            }
            proof {
                assert(all.take(i + 1).drop_last() =~= all.take(i as int));
                assert(all.take(i + 1).last() == list);
                assert forall|q: Seq<char>| #[trigger]
                    seasons_at(self.season_map, q) == told(all.take(i + 1), q, seasons_at(old(self).season_map, q)) by {
                    assert(seasons_at(was, q) == told(all.take(i as int), q, seasons_at(old(self).season_map, q)));
                }
            }
            i = i + 1;
        }
        assert(all.take(i as int) =~= all);
    }

    /// The seasons that belong with a subject; none where it is no split show.
    pub fn siblings_of(&self, subject_id: &str) -> (r: Vec<(i64, String)>)
        ensures
            seasons_view(r@) == (match seasons_at(self.season_map, subject_id@) {
                Some(l) => l,
                None => Seq::empty(),
            }),
    {
        match self.season_map.get(subject_id) {
            Some(v) => copy_seasons(v),
            None => {
                let v: Vec<(i64, String)> = Vec::new();
                assert(seasons_view(v@) =~= Seq::<SeasonView>::empty());
                v
            },
        }
    }

    /// Opens a title, once the catalogue has said what it is.
    pub fn stream_open(&mut self, subject_id: &str, is_series: bool, seasons: &Vec<Season>) -> (r: Opening)
        ensures
            ({
                let split = match seasons_at(old(self).season_map, subject_id@) {
                    Some(l) => l,
                    None => Seq::empty(),
                };
                &&& r == opened_at(split, subject_id@, is_series, seasons@)
                &&& final(self).selection == (r.wire_season, r.episode)
                &&& final(self).open_id@ == subject_id@
                &&& seasons_view(final(self).season_subjects@) == split
            }),
            *final(self) == (StreamState {
                selection: final(self).selection,
                open_id: final(self).open_id,
                season_subjects: final(self).season_subjects,
                ..*old(self)
            }),
    {
        let split = self.siblings_of(subject_id);
        let at = opening(&split, subject_id, is_series, seasons);
        self.selection = (at.wire_season, at.episode);
        self.open_id = subject_id.to_owned();
        self.season_subjects = split;
        at
    }

    /// A rung was picked: what to load again, where a title is open.
    pub fn stream_set_resolution(&mut self, res: &str) -> (r: Option<(String, i64, i64)>)
        ensures
            final(self).resolution@ == res@,
            *final(self) == (StreamState { resolution: final(self).resolution, ..*old(self) }),
            r is Some <==> old(self).open_id@.len() > 0,
            r matches Some(p) ==> p.0@ == old(self).open_id@ && (p.1, p.2) == old(self).selection,
    {
        self.resolution = res.to_owned();
        match self.opened_subject() {
            Some(id) => Some((id, self.selection.0, self.selection.1)),
            None => None,
        }
    }

    /// A subtitle language was picked; below zero turns subtitles off.
    pub fn stream_set_sub(&mut self, index: i32)
        ensures
            final(self).sub_choice == (if index < 0 { None } else { Some(index as usize) }),
            opt_string(final(self).sub_lang) == (if 0 <= index < old(self).subs@.len() && old(
                self,
            ).subs@[index as int].lang@.len() > 0 {
                Some(old(self).subs@[index as int].lang@)
            } else {
                None
            }),
            *final(self) == (StreamState {
                sub_choice: final(self).sub_choice,
                sub_lang: final(self).sub_lang,
                ..*old(self)
            }),
    {
        if index < 0 {
            self.sub_choice = None;
            self.sub_lang = None;
            return;
        }
        let i: usize = index as usize;
        self.sub_choice = Some(i);
        if i < self.subs.len() && !self.subs[i].lang.as_str().is_empty() {
            self.sub_lang = Some(self.subs[i].lang.clone());
        } else {
            self.sub_lang = None;
        }
    }

    /// A season was picked. A split show holds it under another subject; else the
    /// first episode is picked.
    pub fn stream_set_season(&mut self, season: i32) -> (r: SeasonAct)
        ensures
            match subject_of_season(seasons_view(old(self).season_subjects@), season as int) {
                Some(id) => {
                    &&& *final(self) == *old(self)
                    &&& r matches SeasonAct::Reopen(s) && s@ == id
                },
                None => match old(self).details {
                    Some(d) => {
                        &&& *final(self) == (StreamState { selection: (season as i64, 1i64), ..*old(self) })
                        &&& if old(self).open_id@.len() == 0 {
                            r is Nothing
                        } else {
                            &&& r matches SeasonAct::Load { id, episodes }
                            &&& id@ == old(self).open_id@
                            &&& episodes@ == Seq::new(
                                offered(episodes_in(d.seasons@, season as int, 1)) as nat,
                                |i: int| (i + 1) as i32,
                            )
                        }
                    },
                    None => *final(self) == *old(self) && r is Nothing,
                },
            },
    {
        match find_season(&self.season_subjects, season as i64) {
            Some(id) => return SeasonAct::Reopen(id),
            None => {},
        }
        let count: i64 = match &self.details {
            Some(d) => count_for(&d.seasons, season as i64, 1),
            None => return SeasonAct::Nothing,
        };
        self.selection = (season as i64, 1);
        match self.opened_subject() {
            Some(id) => SeasonAct::Load { id, episodes: episode_numbers(count) },
            None => SeasonAct::Nothing,
        }
    }

    /// An episode was picked, in the season that is open: what to load.
    pub fn stream_set_episode(&mut self, episode: i32) -> (r: Option<(String, i64, i64)>)
        ensures
            r is Some <==> old(self).open_id@.len() > 0,
            r matches Some(p) ==> {
                &&& p.0@ == old(self).open_id@
                &&& p.1 == (if old(self).selection.0 < 1 { 1 } else { old(self).selection.0 as int })
                &&& p.2 == episode
                &&& *final(self) == (StreamState { selection: (p.1, p.2), ..*old(self) })
            },
            r is None ==> *final(self) == *old(self),
    {
        match self.opened_subject() {
            Some(id) => {
                let season: i64 = if self.selection.0 < 1 { 1 } else { self.selection.0 };
                self.selection = (season, episode as i64);
                Some((id, season, episode as i64))
            },
            None => None,
        }
    }

    /// A language cut was picked. In a split show it takes the place of the season
    /// that is open, so that the show keeps its other seasons.
    pub fn stream_set_dub(&mut self, subject_id: &str)
        requires
            old(self).wf(),
        ensures
            final(self).wf(),
            ({
                let list = seasons_view(old(self).season_subjects@);
                match place_of_subject(list, old(self).open_id@) {
                    Some(i) if old(self).open_id@.len() > 0 => {
                        let now = list.update(i, (list[i].0, subject_id@));
                        &&& seasons_view(final(self).season_subjects@) == now
                        &&& forall|q: Seq<char>| #[trigger]
                            seasons_at(final(self).season_map, q) == registered(now, q, seasons_at(old(self).season_map, q))
                        &&& *final(self) == (StreamState {
                            season_subjects: final(self).season_subjects,
                            season_map: final(self).season_map,
                            ..*old(self)
                        })
                    },
                    _ => *final(self) == *old(self),
                }
            }),
    {
        if self.open_id.as_str().is_empty() {
            return;
        }
        match find_subject(&self.season_subjects, self.open_id.as_str()) {
            Some(i) => {
                let ghost list = seasons_view(self.season_subjects@);
                let n: i64 = self.season_subjects[i].0;
                self.season_subjects.set(i, (n, subject_id.to_owned()));
                assert(seasons_view(self.season_subjects@) =~= list.update(i as int, (list[i as int].0, subject_id@)));
                register(&mut self.season_map, &self.season_subjects);
            },
            None => {},
        }
    }

    /// A file was picked: it is armed, and this is what it is called.
    pub fn stream_set_current(&mut self, index: i32) -> (r: String)
        ensures
            final(self).current_stream == (if index < 0 { 0 } else { index as int }),
            *final(self) == (StreamState { current_stream: final(self).current_stream, ..*old(self) }),
            ({
                let i = if index < 0 { 0 } else { index as int };
                r@ == (if i < old(self).files@.len() {
                    stream_name(old(self).files@[i].resolution as int)
                } else {
                    Seq::empty()
                })
            }),
    {
        let i: usize = if index < 0 { 0 } else { index as usize };
        self.current_stream = i;
        if i < self.files.len() {
            stream_label(self.files[i].resolution)
        } else {
            let s = String::new();
            assert(s@ =~= Seq::<char>::empty());
            s
        }
    }

    /// The place of the file that is armed; nothing where there is none.
    pub fn current_index(&self) -> (r: Option<usize>)
        ensures
            r is None <==> self.files@.len() == 0,
            r matches Some(i) ==> i == armed(self.files@.len() as int, self.current_stream as int) && i
                < self.files@.len(),
    {
        let n: usize = self.files.len();
        if n == 0 {
            None
        } else if self.current_stream > n - 1 {
            Some(n - 1)
        } else {
            Some(self.current_stream)
        }
    }

    /// The episode after the one that is open: the subject, the season and the
    /// episode; nothing for a film and behind the last episode of the season.
    pub fn next_episode(&self) -> (r: Option<(String, i64, i64)>)
        ensures
            r is Some <==> {
                &&& self.open_id@.len() > 0
                &&& self.details matches Some(d)
                &&& d.is_series
                &&& self.selection.1 > 0
                &&& self.selection.1 < episodes_in(d.seasons@, self.selection.0 as int, first_count(d.seasons@))
            },
            r matches Some(p) ==> p.0@ == self.open_id@ && p.1 == self.selection.0 && p.2 == self.selection.1 + 1,
    {
        match &self.details {
            Some(d) => {
                if self.open_id.as_str().is_empty() || !d.is_series || self.selection.1 <= 0 {
                    return None;
                }
                let max: i64 = max_ep_for(&d.seasons, self.selection.0);
                if self.selection.1 < max {
                    Some((self.open_id.clone(), self.selection.0, self.selection.1 + 1))
                } else {
                    None
                }
            },
            None => None,
        }
    }
}

/// A split show keeps all its seasons when the language is changed: as many as
/// before, under the same numbers, each found from any of its subjects.
pub proof fn law_a_dub_keeps_the_seasons(list: Seq<SeasonView>, i: int, subject: Seq<char>, q: Seq<char>, was: Option<Seq<SeasonView>>)
    requires
        0 <= i < list.len(),
    ensures
        ({
            let now = list.update(i, (list[i].0, subject));
            &&& now.len() == list.len()
            &&& forall|k: int| 0 <= k < list.len() ==> (#[trigger] now[k]).0 == list[k].0
            &&& names(now, subject)
            &&& names(now, q) ==> registered(now, q, was) == Some(now)
        }),
{
    let now = list.update(i, (list[i].0, subject));
    assert(now[i].1 == subject);
}

/// A later search never takes away what is known of a subject: another list can
/// take its place, none cannot.
pub proof fn law_seasons_are_not_forgotten(hits: Seq<Seq<SeasonView>>, id: Seq<char>, was: Option<Seq<SeasonView>>)
    requires
        was is Some,
    ensures
        told(hits, id, was) is Some,
    decreases hits.len(),
{
    if hits.len() > 0 {
        law_seasons_are_not_forgotten(hits.drop_last(), id, was);
    }
}

/// Where a title that was opened lands, and whether it plays at once: at the episode
/// of the history's row where it was opened from one, else at its first.
pub open spec fn landing(asked: Option<PendingPlay>, season: i64, episode: i64) -> (i64, i64, bool) {
    match asked {
        Some(p) => if p.episode > 0 { (p.season, p.episode, true) } else { (season, episode, true) },
        None => (season, episode, false),
    }
}

impl StreamState {
    /// See [`landing`].
    pub fn land(&mut self, asked: &Option<PendingPlay>, season: i64, episode: i64) -> (r: (i64, i64, bool))
        ensures
            r == landing(*asked, season, episode),
            *final(self) == (StreamState { selection: (r.0, r.1), ..*old(self) }),
    {
        let r = match asked {
            Some(p) => if p.episode > 0 {
                (p.season, p.episode, true)
            } else {
                (season, episode, true)
            },
            None => (season, episode, false),
        };
        self.selection = (r.0, r.1);
        r
    }
}

/// A row of the history plays its own episode, however the title opens otherwise.
pub proof fn law_a_history_row_plays_its_episode(p: PendingPlay, season: i64, episode: i64)
    requires
        p.episode > 0,
    ensures
        landing(Some(p), season, episode) == (p.season, p.episode, true),
{
}

/// The subject of a season is the first that holds it.
pub proof fn law_a_season_is_found_by_its_number(list: Seq<SeasonView>, n: int)
    ensures
        (exists|i: int|
            0 <= i < list.len() && (#[trigger] list[i]).0 == n && subject_of_season(list, n) == Some(list[i].1) && forall|j: int|
                0 <= j < i ==> !((#[trigger] list[j]).0 == n)) || ((forall|i: int| 0 <= i < list.len() ==> !((#[trigger] list[i]).0 == n)) && subject_of_season(list, n) is None),
    decreases list.len(),
{
    if list.len() > 0 {
        if list[0].0 == n {
            assert(list[0].0 == n && subject_of_season(list, n) == Some(list[0].1));
        } else {
            let rest = list.skip(1);
            law_a_season_is_found_by_its_number(rest, n);
            assert forall|i: int| 0 <= i < rest.len() implies (#[trigger] rest[i]) == list[i + 1] by {}
            if exists|i: int|
            0 <= i < rest.len() && (#[trigger] rest[i]).0 == n && subject_of_season(rest, n) == Some(rest[i].1) && forall|j: int|
                0 <= j < i ==> !((#[trigger] rest[j]).0 == n) {
                let i = choose|i: int|
                    0 <= i < rest.len() && (#[trigger] rest[i]).0 == n && subject_of_season(rest, n) == Some(rest[i].1) && forall|j: int|
                        0 <= j < i ==> !((#[trigger] rest[j]).0 == n);
                assert(list[i + 1].0 == n && subject_of_season(list, n) == Some(list[i + 1].1));
                assert forall|j: int| 0 <= j < i + 1 implies !((#[trigger] list[j]).0 == n) by {
                    if j > 0 {
                        assert(!(rest[j - 1].0 == n));
                    }
                }
            } else {
                assert forall|i: int| 0 <= i < list.len() implies !((#[trigger] list[i]).0 == n) by {
                    if i > 0 {
                        assert(!(rest[i - 1].0 == n));
                    }
                }
            }
        }
    }
}

/// A season has as many episodes as it says; of one that is not listed the other count is
/// taken.
pub proof fn law_a_season_says_how_many_episodes_it_has(seasons: Seq<Season>, season: int, other: int)
    ensures
        (exists|i: int|
            0 <= i < seasons.len() && (#[trigger] seasons[i]).number == season && episodes_in(seasons, season, other) == seasons[i].max_ep as int && forall|j: int|
                0 <= j < i ==> !((#[trigger] seasons[j]).number == season)) || ((forall|i: int| 0 <= i < seasons.len() ==> !((#[trigger] seasons[i]).number == season)) && episodes_in(seasons, season, other) == other),
    decreases seasons.len(),
{
    if seasons.len() > 0 {
        if seasons[0].number == season {
            assert(seasons[0].number == season && episodes_in(seasons, season, other) == seasons[0].max_ep as int);
        } else {
            let rest = seasons.skip(1);
            law_a_season_says_how_many_episodes_it_has(rest, season, other);
            assert forall|i: int| 0 <= i < rest.len() implies (#[trigger] rest[i]) == seasons[i + 1] by {}
            if exists|i: int|
            0 <= i < rest.len() && (#[trigger] rest[i]).number == season && episodes_in(rest, season, other) == rest[i].max_ep as int && forall|j: int|
                0 <= j < i ==> !((#[trigger] rest[j]).number == season) {
                let i = choose|i: int|
                    0 <= i < rest.len() && (#[trigger] rest[i]).number == season && episodes_in(rest, season, other) == rest[i].max_ep as int && forall|j: int|
                        0 <= j < i ==> !((#[trigger] rest[j]).number == season);
                assert(seasons[i + 1].number == season && episodes_in(seasons, season, other) == seasons[i + 1].max_ep as int);
                assert forall|j: int| 0 <= j < i + 1 implies !((#[trigger] seasons[j]).number == season) by {
                    if j > 0 {
                        assert(!(rest[j - 1].number == season));
                    }
                }
            } else {
                assert forall|i: int| 0 <= i < seasons.len() implies !((#[trigger] seasons[i]).number == season) by {
                    if i > 0 {
                        assert(!(rest[i - 1].number == season));
                    }
                }
            }
        }
    }
}


/// A subject stands in a list at its first place, and is missing only where it stands
/// nowhere.
pub proof fn law_a_subject_stands_at_its_first_place(list: Seq<SeasonView>, id: Seq<char>)
    ensures
        place_of_subject(list, id) matches Some(i) ==> 0 <= i < list.len() && list[i].1 == id && forall|j: int| 0 <= j < i ==> (#[trigger] list[j]).1 != id,
        place_of_subject(list, id) is None ==> forall|j: int| 0 <= j < list.len() ==> (#[trigger] list[j]).1 != id,
    decreases list.len(),
{
    if list.len() > 0 && list[0].1 != id {
        let rest = list.skip(1);
        law_a_subject_stands_at_its_first_place(rest, id);
        assert forall|j: int| 0 <= j < rest.len() implies (#[trigger] rest[j]) == list[j + 1] by {}
        if place_of_subject(rest, id) is Some {
            let i = place_of_subject(rest, id)->0;
            assert(rest[i].1 == id);
            assert forall|j: int| 0 <= j < i + 1 implies (#[trigger] list[j]).1 != id by {
                if j > 0 {
                    assert(rest[j - 1].1 != id);
                }
            }
        } else {
            assert forall|j: int| 0 <= j < list.len() implies (#[trigger] list[j]).1 != id by {
                if j > 0 {
                    assert(rest[j - 1].1 != id);
                }
            }
        }
    }
}

/// A language stands at the first track that has it, small and capital letters alike.
pub proof fn law_a_language_stands_at_its_first_track(list: Seq<Caption>, lang: Seq<char>)
    ensures
        place_of_lang(list, lang) matches Some(i) ==> 0 <= i < list.len() && fold(list[i].lang@) == fold(lang) && forall|j: int|
            0 <= j < i ==> fold((#[trigger] list[j]).lang@) != fold(lang),
        place_of_lang(list, lang) is None ==> forall|j: int| 0 <= j < list.len() ==> fold((#[trigger] list[j]).lang@) != fold(lang),
    decreases list.len(),
{
    if list.len() > 0 && fold(list[0].lang@) != fold(lang) {
        let rest = list.skip(1);
        law_a_language_stands_at_its_first_track(rest, lang);
        assert forall|j: int| 0 <= j < rest.len() implies (#[trigger] rest[j]) == list[j + 1] by {}
        if place_of_lang(rest, lang) is Some {
            let i = place_of_lang(rest, lang)->0;
            assert(fold(rest[i].lang@) == fold(lang));
            assert forall|j: int| 0 <= j < i + 1 implies fold((#[trigger] list[j]).lang@) != fold(lang) by {
                if j > 0 {
                    assert(fold(rest[j - 1].lang@) != fold(lang));
                }
            }
        } else {
            assert forall|j: int| 0 <= j < list.len() implies fold((#[trigger] list[j]).lang@) != fold(lang) by {
                if j > 0 {
                    assert(fold(rest[j - 1].lang@) != fold(lang));
                }
            }
        }
    }
}

/// A title opens at its beginning: a split show at the season of its subject, a series at
/// its first season, a film at no episode.
pub proof fn law_a_title_opens_at_its_beginning(split: Seq<SeasonView>, id: Seq<char>, seasons: Seq<Season>, series: bool)
    ensures
        split.len() == 0 && !series ==> opened_at(split, id, series, seasons) == (Opening { season: 0, wire_season: 0, episode: 0 }),
        split.len() == 0 && series && seasons.len() > 0 ==> opened_at(split, id, series, seasons) == (Opening {
            season: seasons[0].number,
            wire_season: seasons[0].number,
            episode: 1,
        }),
        split.len() == 0 && series && seasons.len() == 0 ==> opened_at(split, id, series, seasons) == (Opening {
            season: 1,
            wire_season: 1,
            episode: 1,
        }),
        split.len() > 0 ==> opened_at(split, id, series, seasons).wire_season == 1 && opened_at(split, id, series, seasons).episode == 1 && (place_of_subject(
            split,
            id,
        ) matches Some(i) ==> opened_at(split, id, series, seasons).season == split[i].0 as i64) && (place_of_subject(split, id) is None ==> opened_at(
            split,
            id,
            series,
            seasons,
        ).season == 1),
{
}

/// As many episodes are offered as there are, from none to five hundred.
pub proof fn law_as_many_episodes_are_offered_as_there_are(n: int)
    ensures
        0 <= n <= 500 ==> offered(n) == n,
        n < 0 ==> offered(n) == 0,
        n > 500 ==> offered(n) == 500,
{
}

/// The stream that is armed is one of the files: the one that was, or the last where there
/// are fewer; none where there is none.
pub proof fn law_the_armed_stream_is_a_file(files: int, current: int)
    requires
        files >= 0,
        current >= 0,
    ensures
        files == 0 ==> armed(files, current) == -1,
        current < files ==> armed(files, current) == current,
        files > 0 && current >= files ==> armed(files, current) == files - 1,
{
}

/// The card of a hit says what the hit says; nothing of it was watched.
pub proof fn law_a_hit_has_its_card(h: SearchHit, poster: Option<Seq<char>>)
    ensures
        ({
            let c = hit_card(h, poster);
            &&& c.id == h.id@ && c.title == h.title@ && c.line == h.year@ && c.poster == poster && c.is_series == h.is_series
            &&& c.seasons == h.season_subjects@.len()
            &&& c.progress matches Number::Finite(d) && d.m == 0
        }),
{
}

/// What a later hit says of a subject takes the place of what was known, where the hit is
/// split and has the subject; else that stays.
pub proof fn law_a_split_hit_tells_of_its_seasons(hits: Seq<Seq<SeasonView>>, last: Seq<SeasonView>, id: Seq<char>, was: Option<Seq<SeasonView>>)
    ensures
        told(Seq::empty(), id, was) == was,
        last.len() > 1 && (exists|i: int| 0 <= i < last.len() && (#[trigger] last[i]).1 == id) ==> told(hits.push(last), id, was) == Some(last),
        last.len() <= 1 || (forall|i: int| 0 <= i < last.len() ==> (#[trigger] last[i]).1 != id) ==> told(hits.push(last), id, was) == told(hits, id, was),
{
    assert(hits.push(last).drop_last() =~= hits);
}

/// A stream is called by its rung where that is known.
pub proof fn law_a_stream_is_called_by_its_rung(resolution: int)
    ensures
        resolution > 0 ==> stream_name(resolution) == dec_int(resolution) + "p stream"@,
        resolution <= 0 ==> stream_name(resolution) == "stream"@,
{
}

} // verus!
