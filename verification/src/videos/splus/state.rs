//! What the section looks at: the lists on screen, the title that is open, and
//! what is picked inside it.

use vstd::prelude::*;
use super::title::{key_text, title_key, titles_view, Title, TitleView};
use crate::double::Number;
use crate::text::{parse_count, parse_i64, parse_int, parse_usize, same};

verus! {

/// Rows of the history that the library page holds.
pub const HISTORY_MAX: i64 = 200;

/// Results on each page of a search.
pub const PAGE_SIZE: i64 = 24;

/// An episode and how much of it was watched, in single precision.
#[derive(Clone, Debug)]
pub struct Episode {
    pub number: i64,
    pub title: String,
    pub thumb_url: String,
    pub progress: Number,
}

/// A file that an episode can be played from, and what has to be sent to get it.
#[derive(Clone, Debug)]
pub struct Playable {
    pub url: String,
    pub label: String,
    pub source: String,
    pub sub_label: String,
    pub height: i32,
    pub headers: Vec<(String, String)>,
}

/// A subtitle track.
#[derive(Clone, Debug)]
pub struct Track {
    pub label: String,
    pub source: String,
    pub url: String,
}

/// A stretch of an episode that can be skipped.
#[derive(Clone, Debug)]
pub struct Span {
    pub kind: String,
    pub start: Number,
    pub end: Number,
}

/// What the section looks at.
#[derive(Debug)]
pub struct State {
    pub results: Vec<Title>,
    pub query: String,
    pub page: i64,
    pub more: bool,
    pub featured: Vec<Title>,
    pub trending: Vec<Title>,
    pub seasonal: Vec<Title>,
    pub open: Option<Title>,
    pub episodes: Vec<Episode>,
    pub season: i64,
    pub episode: i64,
    pub audio: String,
    pub files: Vec<Playable>,
    pub file: usize,
    pub subs: Vec<Track>,
    pub sub: usize,
    pub spans: Vec<Span>,
}

/// The episode that is pointed at.
#[derive(Debug)]
pub struct EpisodeRef {
    pub title: Title,
    pub season: i64,
    pub episode: i64,
    pub audio: String,
}

/// The first title of a list that a key stands for.
pub open spec fn found_in(list: Seq<TitleView>, key: Seq<char>) -> Option<TitleView>
    decreases list.len(),
{
    if list.len() == 0 {
        None
    } else if key_text(list[0]) == key {
        Some(list[0])
    } else {
        found_in(list.skip(1), key)
    }
}

/// What an optional title holds.
pub open spec fn opt_title(t: Option<Title>) -> Option<TitleView> {
    match t {
        Some(x) => Some(x@),
        None => None,
    }
}

/// The first of two that is there.
pub open spec fn or_else(a: Option<TitleView>, b: Option<TitleView>) -> Option<TitleView> {
    if a is Some { a } else { b }
}

fn find_in(list: &Vec<Title>, key: &str) -> (r: Option<Title>)
    ensures
        opt_title(r) == found_in(titles_view(list@), key@),
{
    let ghost all = titles_view(list@);
    let mut i: usize = 0;
    assert(all.skip(0) =~= all);
    while i < list.len()
        invariant
            i <= list@.len(),
            all == titles_view(list@),
            found_in(all, key@) == found_in(all.skip(i as int), key@),
        decreases list@.len() - i,
    {
        assert(all.skip(i as int)[0] == list@[i as int]@);
        assert(all.skip(i as int).skip(1) =~= all.skip(i + 1));
        let k = title_key(&list[i]);
        if same(k.as_str(), key) {
            return Some(list[i].copy());
        }
        i = i + 1;
    }
    None
}

/// A number that is written, never below the first; the first where it is none.
pub open spec fn at_least_first(s: Seq<char>) -> int {
    match parse_int(s) {
        Some(n) => if n < 1 { 1 } else { n },
        None => 1,
    }
}

impl State {
    /// Nothing on screen.
    pub fn new() -> (r: State)
        ensures
            r.results@.len() == 0,
            r.query@.len() == 0,
            r.page == 0,
            !r.more,
            r.featured@.len() == 0,
            r.trending@.len() == 0,
            r.seasonal@.len() == 0,
            r.open is None,
            r.episodes@.len() == 0,
            r.season == 0,
            r.episode == 0,
            r.audio@.len() == 0,
            r.files@.len() == 0,
            r.file == 0,
            r.subs@.len() == 0,
            r.sub == 0,
            r.spans@.len() == 0,
    {
        State {
            results: Vec::new(),
            query: String::new(),
            page: 0,
            more: false,
            featured: Vec::new(),
            trending: Vec::new(),
            seasonal: Vec::new(),
            open: None,
            episodes: Vec::new(),
            season: 0,
            episode: 0,
            audio: String::new(),
            files: Vec::new(),
            file: 0,
            subs: Vec::new(),
            sub: 0,
            spans: Vec::new(),
        }
    }

    /// The title that a key stands for: of the results, then of the shelves, then
    /// the one that is open.
    pub open spec fn title_at(&self, key: Seq<char>) -> Option<TitleView> {
        or_else(
            found_in(titles_view(self.results@), key),
            or_else(
                found_in(titles_view(self.featured@), key),
                or_else(
                    found_in(titles_view(self.trending@), key),
                    or_else(
                        found_in(titles_view(self.seasonal@), key),
                        match self.open {
                            Some(t) => if key_text(t@) == key { Some(t@) } else { None },
                            None => None,
                        },
                    ),
                ),
            ),
        )
    }

    /// See [`State::title_at`].
    pub fn find(&self, key: &str) -> (r: Option<Title>)
        ensures
            opt_title(r) == self.title_at(key@),
    {
        let a = find_in(&self.results, key);
        if a.is_some() {
            return a;
        }
        let b = find_in(&self.featured, key);
        if b.is_some() {
            return b;
        }
        let c = find_in(&self.trending, key);
        if c.is_some() {
            return c;
        }
        let d = find_in(&self.seasonal, key);
        if d.is_some() {
            return d;
        }
        match &self.open {
            Some(t) => {
                let k = title_key(t);
                if same(k.as_str(), key) {
                    Some(t.copy())
                } else {
                    None
                }
            },
            None => None,
        }
    }

    /// The episode that is pointed at: never before the first, with subtitles where
    /// no sound is picked; nothing where no title is open.
    pub fn current_ref(&self) -> (r: Option<EpisodeRef>)
        ensures
            r is Some <==> self.open is Some,
            r matches Some(e) ==> {
                &&& Some(e.title@) == opt_title(self.open)
                &&& e.season == (if self.season < 1 { 1 } else { self.season as int })
                &&& e.episode == (if self.episode < 1 { 1 } else { self.episode as int })
                &&& e.audio@ == (if self.audio@.len() == 0 { "sub"@ } else { self.audio@ })
            },
    {
        match &self.open {
            Some(t) => Some(
                EpisodeRef {
                    title: t.copy(),
                    season: if self.season < 1 { 1 } else { self.season },
                    episode: if self.episode < 1 { 1 } else { self.episode },
                    audio: if self.audio.as_str().is_empty() { "sub".to_owned() } else { self.audio.clone() },
                },
            ),
            None => None,
        }
    }

    /// Opens the title that a key stands for, at its first episode; `audio` is the
    /// sound that is preferred. Nothing happens where no title has the key.
    pub fn open_card(&mut self, key: &str, audio: &str) -> (r: bool)
        ensures
            r == (old(self).title_at(key@) is Some),
            !r ==> *final(self) == *old(self),
            r ==> {
                &&& opt_title(final(self).open) == old(self).title_at(key@)
                &&& final(self).season == 1
                &&& final(self).episode == 1
                &&& final(self).audio@ == audio@
                &&& final(self).files@.len() == 0
                &&& final(self).file == 0
                &&& final(self).subs@.len() == 0
                &&& final(self).spans@.len() == 0
                &&& *final(self) == (State {
                    open: final(self).open,
                    season: final(self).season,
                    episode: final(self).episode,
                    audio: final(self).audio,
                    files: final(self).files,
                    file: final(self).file,
                    subs: final(self).subs,
                    spans: final(self).spans,
                    ..*old(self)
                })
            },
    {
        match self.find(key) {
            Some(t) => {
                self.open = Some(t);
                self.season = 1;
                self.episode = 1;
                self.audio = audio.to_owned();
                self.files = Vec::new();
                self.file = 0;
                self.subs = Vec::new();
                self.spans = Vec::new();
                true
            },
            None => false,
        }
    }

    /// Picks a season by what the chip says.
    pub fn set_season(&mut self, s: &str)
        ensures
            final(self).season == at_least_first(s@),
            *final(self) == (State { season: final(self).season, ..*old(self) }),
    {
        let n: i64 = match parse_i64(s) {
            Some(n) => n,
            None => 1,
        };
        self.season = if n < 1 { 1 } else { n };
    }

    /// Picks an episode.
    pub fn set_episode(&mut self, e: i32)
        ensures
            final(self).episode == (if e < 1 { 1 } else { e as int }),
            *final(self) == (State { episode: final(self).episode, ..*old(self) }),
    {
        self.episode = if e < 1 { 1 } else { e as i64 };
    }

    /// Picks a file; one that is not there changes nothing.
    pub fn set_file(&mut self, i: i32) -> (r: bool)
        ensures
            ({
                let k = if i < 0 { 0 } else { i as int };
                &&& r == (k < old(self).files@.len())
                &&& *final(self) == (if r { State { file: k as usize, ..*old(self) } } else { *old(self) })
            }),
    {
        let k: usize = if i < 0 { 0 } else { i as usize };
        if k < self.files.len() {
            self.file = k;
            true
        } else {
            false
        }
    }

    /// Picks a subtitle track by its number; one that is not there changes nothing.
    /// What is no number stands for the first.
    pub fn set_sub(&mut self, id: &str) -> (r: bool)
        ensures
            ({
                let k = match parse_count(id@) {
                    Some(n) => n as int,
                    None => 0,
                };
                &&& r == (k < old(self).subs@.len())
                &&& *final(self) == (if r { State { sub: k as usize, ..*old(self) } } else { *old(self) })
            }),
    {
        let n: usize = match parse_usize(id) {
            Some(n) => n,
            None => 0,
        };
        if n < self.subs.len() {
            self.sub = n;
            true
        } else {
            false
        }
    }

    /// The history reopens a title at an episode.
    pub fn reopen(&mut self, title: Title, season: i64, episode: i64, audio: &str)
        ensures
            final(self).open == Some(title),
            final(self).season == season,
            final(self).episode == (if episode < 1 { 1 } else { episode as int }),
            final(self).audio@ == (if audio@.len() == 0 { "sub"@ } else { audio@ }),
            *final(self) == (State {
                open: final(self).open,
                season: final(self).season,
                episode: final(self).episode,
                audio: final(self).audio,
                ..*old(self)
            }),
    {
        self.open = Some(title);
        self.season = season;
        self.episode = if episode < 1 { 1 } else { episode };
        self.audio = if audio.is_empty() { "sub".to_owned() } else { audio.to_owned() };
    }
}

/// Whatever a key stands for has that key.
pub proof fn law_a_key_finds_its_title(list: Seq<TitleView>, key: Seq<char>)
    ensures
        found_in(list, key) matches Some(t) ==> key_text(t) == key,
        (exists|i: int| 0 <= i < list.len() && key_text(#[trigger] list[i]) == key) ==> found_in(list, key) is Some,
    decreases list.len(),
{
    if list.len() > 0 && key_text(list[0]) != key {
        law_a_key_finds_its_title(list.skip(1), key);
        if exists|i: int| 0 <= i < list.len() && key_text(#[trigger] list[i]) == key {
            let i = choose|i: int| 0 <= i < list.len() && key_text(#[trigger] list[i]) == key;
            assert(list.skip(1)[i - 1] == list[i]);
        }
    }
}

/// A key stands for the first title of a list that has it.
pub proof fn law_the_first_title_of_a_key_counts(list: Seq<TitleView>, key: Seq<char>)
    ensures
        (exists|i: int|
            0 <= i < list.len() && key_text((#[trigger] list[i])) == key && found_in(list, key) == Some(list[i]) && forall|j: int|
                0 <= j < i ==> !(key_text((#[trigger] list[j])) == key)) || ((forall|i: int| 0 <= i < list.len() ==> !(key_text((#[trigger] list[i])) == key)) && found_in(list, key) is None),
    decreases list.len(),
{
    if list.len() > 0 {
        if key_text(list[0]) == key {
            assert(key_text(list[0]) == key && found_in(list, key) == Some(list[0]));
        } else {
            let rest = list.skip(1);
            law_the_first_title_of_a_key_counts(rest, key);
            assert forall|i: int| 0 <= i < rest.len() implies (#[trigger] rest[i]) == list[i + 1] by {}
            if exists|i: int|
            0 <= i < rest.len() && key_text((#[trigger] rest[i])) == key && found_in(rest, key) == Some(rest[i]) && forall|j: int|
                0 <= j < i ==> !(key_text((#[trigger] rest[j])) == key) {
                let i = choose|i: int|
                    0 <= i < rest.len() && key_text((#[trigger] rest[i])) == key && found_in(rest, key) == Some(rest[i]) && forall|j: int|
                        0 <= j < i ==> !(key_text((#[trigger] rest[j])) == key);
                assert(key_text(list[i + 1]) == key && found_in(list, key) == Some(list[i + 1]));
                assert forall|j: int| 0 <= j < i + 1 implies !(key_text((#[trigger] list[j])) == key) by {
                    if j > 0 {
                        assert(!(key_text(rest[j - 1]) == key));
                    }
                }
            } else {
                assert forall|i: int| 0 <= i < list.len() implies !(key_text((#[trigger] list[i])) == key) by {
                    if i > 0 {
                        assert(!(key_text(rest[i - 1]) == key));
                    }
                }
            }
        }
    }
}


/// A number that is written counts from one.
pub proof fn law_a_written_number_counts_from_one(n: i64)
    ensures
        n >= 1 ==> at_least_first(crate::text::dec_int(n as int)) == n,
        n < 1 ==> at_least_first(crate::text::dec_int(n as int)) == 1,
        at_least_first(Seq::empty()) == 1,
{
    crate::text::law_integers_read_back(n);
}

/// A key is looked for in the results first, then on the shelves from the featured to the
/// season's, and last in what is open.
pub proof fn law_results_go_before_the_shelves(s: State, key: Seq<char>)
    ensures
        found_in(titles_view(s.results@), key) is Some ==> s.title_at(key) == found_in(titles_view(s.results@), key),
        found_in(titles_view(s.results@), key) is None && found_in(titles_view(s.featured@), key) is Some ==> s.title_at(key) == found_in(titles_view(s.featured@), key),
        s.title_at(key) is None ==> found_in(titles_view(s.results@), key) is None && found_in(titles_view(s.featured@), key) is None && found_in(titles_view(s.trending@), key) is None
            && found_in(titles_view(s.seasonal@), key) is None && (s.open matches Some(t) ==> key_text(t@) != key),
        s.title_at(key) matches Some(t) ==> key_text(t) == key,
{
    law_a_key_finds_its_title(titles_view(s.results@), key);
    law_a_key_finds_its_title(titles_view(s.featured@), key);
    law_a_key_finds_its_title(titles_view(s.trending@), key);
    law_a_key_finds_its_title(titles_view(s.seasonal@), key);
}

} // verus!
