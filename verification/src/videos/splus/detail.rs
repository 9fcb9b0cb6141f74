//! The page of a title: its episodes, where to go on, and the files of the
//! episode that is picked.

use vstd::prelude::*;
use super::state::{Episode, Playable, Span, State, Track};
use crate::double::{below, Double, Number};
use crate::text::{dec, dec_two, push_dec, push_dec_two, same};
use crate::videos::stream::detail::{chips_view, ChipView, StreamChip};

verus! {

/// From here on an episode counts as finished.
pub open spec fn finished_from() -> Double {
    Double { neg: false, m: 0x1f_5c29_0000_0000, e: (-53) as i32 }
}

/// Up to here an episode counts as not begun.
pub open spec fn begun_from() -> Double {
    Double { neg: false, m: 0x14_7ae1_4000_0000, e: (-58) as i32 }
}

/// Whether a number is below a positive one.
pub open spec fn less(n: Number, c: Double) -> bool {
    match n {
        Number::Finite(d) => d.neg || below(d, c),
        Number::Infinite(neg) => neg,
        Number::Nan => false,
    }
}

/// Whether a number is above a positive one.
pub open spec fn more(n: Number, c: Double) -> bool {
    match n {
        Number::Finite(d) => !d.neg && below(c, d),
        Number::Infinite(neg) => !neg,
        Number::Nan => false,
    }
}

/// Whether an episode is not finished yet.
pub open spec fn unfinished(p: Number) -> bool {
    less(p, finished_from())
}

/// Whether an episode was begun and is not finished.
pub open spec fn half_watched(p: Number) -> bool {
    more(p, begun_from()) && less(p, finished_from())
}

/// Whether an episode was not begun.
pub open spec fn fresh(p: Number) -> bool {
    !(p is Nan) && !more(p, begun_from())
}

fn is_unfinished(p: &Number) -> (r: bool)
    requires
        p.wf(),
    ensures
        r == unfinished(*p),
{
    match p {
        Number::Finite(d) => d.neg || d.is_below(&Double { neg: false, m: 0x1f_5c29_0000_0000, e: -53 }),
        Number::Infinite(neg) => *neg,
        Number::Nan => false,
    }
}

fn is_begun(p: &Number) -> (r: bool)
    requires
        p.wf(),
    ensures
        r == more(*p, begun_from()),
{
    match p {
        Number::Finite(d) => !d.neg && (Double { neg: false, m: 0x14_7ae1_4000_0000, e: -58 }).is_below(d),
        Number::Infinite(neg) => !*neg,
        Number::Nan => false,
    }
}

/// What an episode holds.
#[verifier::ext_equal]
pub struct EpisodeView {
    pub number: int,
    pub title: Seq<char>,
    pub thumb_url: Seq<char>,
    pub progress: Number,
}

impl View for Episode {
    type V = EpisodeView;

    open spec fn view(&self) -> EpisodeView {
        EpisodeView {
            number: self.number as int,
            title: self.title@,
            thumb_url: self.thumb_url@,
            progress: self.progress,
        }
    }
}

/// The episodes as they are.
pub open spec fn episodes_view(v: Seq<Episode>) -> Seq<EpisodeView> {
    Seq::new(v.len(), |i: int| v[i]@)
}

/// How much of an episode was watched, by what was kept; none where nothing was.
pub open spec fn seen_of(seen: Seq<(i64, Number)>, n: int) -> Number
    decreases seen.len(),
{
    if seen.len() == 0 {
        Number::Finite(Double { neg: false, m: 0, e: 0 })
    } else if seen[0].0 == n {
        seen[0].1
    } else {
        seen_of(seen.skip(1), n)
    }
}

fn progress_of(seen: &Vec<(i64, Number)>, n: i64) -> (r: Number)
    requires
        forall|i: int| 0 <= i < seen@.len() ==> (#[trigger] seen@[i]).1.wf(),
    ensures
        r == seen_of(seen@, n as int),
        r.wf(),
{
    let mut i: usize = 0;
    assert(seen@.skip(0) =~= seen@);
    while i < seen.len()
        invariant
            i <= seen@.len(),
            forall|i: int| 0 <= i < seen@.len() ==> (#[trigger] seen@[i]).1.wf(),
            seen_of(seen@, n as int) == seen_of(seen@.skip(i as int), n as int),
        decreases seen@.len() - i,
    {
        assert(seen@.skip(i as int)[0] == seen@[i as int]);
        assert(seen@.skip(i as int).skip(1) =~= seen@.skip(i + 1));
        if seen[i].0 == n {
            return seen[i].1;
        }
        i = i + 1;
    }
    Number::Finite(Double::zero())
}

/// The episodes with how much of each was watched; without those that are
/// finished, where they are hidden.
pub open spec fn shown(eps: Seq<EpisodeView>, seen: Seq<(i64, Number)>, hide: bool) -> Seq<EpisodeView>
    decreases eps.len(),
{
    if eps.len() == 0 {
        Seq::empty()
    } else {
        let rest = shown(eps.drop_last(), seen, hide);
        let e = eps.last();
        let p = seen_of(seen, e.number);
        if !hide || unfinished(p) { rest.push(EpisodeView { progress: p, ..e }) } else { rest }
    }
}

/// See [`shown`].
pub fn shown_episodes(eps: &Vec<Episode>, seen: &Vec<(i64, Number)>, hide: bool) -> (r: Vec<Episode>)
    requires
        forall|i: int| 0 <= i < seen@.len() ==> (#[trigger] seen@[i]).1.wf(),
    ensures
        episodes_view(r@) == shown(episodes_view(eps@), seen@, hide),
        forall|i: int| 0 <= i < r@.len() ==> (#[trigger] r@[i]).progress.wf(),
{
    let ghost all = episodes_view(eps@);
    let mut out: Vec<Episode> = Vec::new();
    let mut i: usize = 0;
    assert(all.take(0) =~= Seq::<EpisodeView>::empty());
    assert(episodes_view(out@) =~= Seq::<EpisodeView>::empty());
    while i < eps.len()
        invariant
            i <= eps@.len(),
            all == episodes_view(eps@),
            forall|i: int| 0 <= i < seen@.len() ==> (#[trigger] seen@[i]).1.wf(),
            forall|j: int| 0 <= j < out@.len() ==> (#[trigger] out@[j]).progress.wf(),
            episodes_view(out@) == shown(all.take(i as int), seen@, hide),
        decreases eps@.len() - i,
    {
        assert(all.take(i + 1).drop_last() =~= all.take(i as int));
        assert(all.take(i + 1).last() == eps@[i as int]@);
        let e = &eps[i];
        let p = progress_of(seen, e.number);
        if !hide || is_unfinished(&p) {
            let ghost was = episodes_view(out@);
            let one = Episode { number: e.number, title: e.title.clone(), thumb_url: e.thumb_url.clone(), progress: p };
            let ghost v = one@;
            out.push(one);
            assert(episodes_view(out@) =~= was.push(v));
        }
        i = i + 1;
    }
    assert(all.take(i as int) =~= all);
    out
}

/// The first episode that was begun and is not finished.
pub open spec fn first_half_watched(eps: Seq<EpisodeView>) -> Option<int>
    decreases eps.len(),
{
    if eps.len() == 0 {
        None
    } else if half_watched(eps[0].progress) {
        Some(eps[0].number)
    } else {
        first_half_watched(eps.skip(1))
    }
}

/// The first episode that was not begun.
pub open spec fn first_fresh(eps: Seq<EpisodeView>) -> Option<int>
    decreases eps.len(),
{
    if eps.len() == 0 {
        None
    } else if fresh(eps[0].progress) {
        Some(eps[0].number)
    } else {
        first_fresh(eps.skip(1))
    }
}

/// Where to go on: the episode that was left in the middle, else the next that was
/// not begun, else the first.
pub open spec fn go_on_at(eps: Seq<EpisodeView>) -> int {
    match first_half_watched(eps) {
        Some(n) => n,
        None => match first_fresh(eps) {
            Some(n) => n,
            None => 1,
        },
    }
}

/// See [`go_on_at`].
pub fn start_episode(eps: &Vec<Episode>) -> (r: i64)
    requires
        forall|i: int| 0 <= i < eps@.len() ==> (#[trigger] eps@[i]).progress.wf(),
    ensures
        r == go_on_at(episodes_view(eps@)),
{
    let ghost all = episodes_view(eps@);
    let mut first: Option<i64> = None;
    let mut i: usize = 0;
    assert(all.skip(0) =~= all);
    while i < eps.len()
        invariant
            i <= eps@.len(),
            all == episodes_view(eps@),
            forall|i: int| 0 <= i < eps@.len() ==> (#[trigger] eps@[i]).progress.wf(),
            first_half_watched(all) == first_half_watched(all.skip(i as int)),
            first is None ==> first_fresh(all) == first_fresh(all.skip(i as int)),
            first matches Some(n) ==> first_fresh(all) == Some(n as int),
        decreases eps@.len() - i,
    {
        assert(all.skip(i as int)[0] == all[i as int]);
        assert(all.skip(i as int).skip(1) =~= all.skip(i + 1));
        let p = &eps[i].progress;
        let begun = is_begun(p);
        if begun && is_unfinished(p) {
            return eps[i].number;
        }
        let nan = match p {
            Number::Nan => true,
            _ => false,
        };
        if first.is_none() && !nan && !begun {
            first = Some(eps[i].number);
        }
        i = i + 1;
    }
    match first {
        Some(n) => n,
        None => 1,
    }
}

/// The place of the tallest file that is not taller than wanted; of two as tall the
/// later.
pub open spec fn best(heights: Seq<int>, want: int) -> Option<int>
    decreases heights.len(),
{
    if heights.len() == 0 {
        None
    } else {
        let b = best(heights.drop_last(), want);
        let h = heights.last();
        if 0 < h <= want && (b is None || heights[b->0] <= h) { Some(heights.len() - 1) } else { b }
    }
}

/// The heights of some files.
pub open spec fn heights(files: Seq<Playable>) -> Seq<int> {
    Seq::new(files.len(), |i: int| files[i].height as int)
}

proof fn lemma_best(heights: Seq<int>, want: int)
    ensures
        best(heights, want) matches Some(b) ==> 0 <= b < heights.len() && 0 < heights[b] <= want,
    decreases heights.len(),
{
    if heights.len() > 0 {
        lemma_best(heights.drop_last(), want);
    }
}

/// The file that is picked by itself: the tallest that is not taller than wanted,
/// else the first.
pub fn preferred(files: &Vec<Playable>, want: i32) -> (r: usize)
    ensures
        r == (match best(heights(files@), want as int) {
            Some(b) => b,
            None => 0,
        }),
{
    let ghost all = heights(files@);
    let mut at: Option<usize> = None;
    let mut i: usize = 0;
    assert(all.take(0) =~= Seq::<int>::empty());
    while i < files.len()
        invariant
            i <= files@.len(),
            all == heights(files@),
            at is None <==> best(all.take(i as int), want as int) is None,
            at matches Some(b) ==> b < i && best(all.take(i as int), want as int) == Some(b as int),
        decreases files@.len() - i,
    {
        assert(all.take(i + 1).drop_last() =~= all.take(i as int));
        assert(all.take(i + 1).last() == files@[i as int].height);
        let h: i32 = files[i].height;
        if 0 < h && h <= want {
            match at {
                Some(b) => {
                    assert(all.take(i + 1)[b as int] == files@[b as int].height);
                    if files[b].height <= h {
                        at = Some(i);
                    }
                },
                None => {
                    at = Some(i);
                },
            }
        }
        i = i + 1;
    }
    assert(all.take(i as int) =~= all);
    match at {
        Some(b) => b,
        None => 0,
    }
}

/// No file that fits is taller than the one that is picked by itself, and one is
/// picked wherever one fits.
pub proof fn law_the_preferred_file_is_the_tallest_that_fits(heights: Seq<int>, want: int, i: int)
    requires
        0 <= i < heights.len(),
        0 < heights[i] <= want,
    ensures
        best(heights, want) is Some,
        heights[i] <= heights[best(heights, want)->0] <= want,
    decreases heights.len(),
{
    lemma_best(heights, want);
    let rest = heights.drop_last();
    if i < rest.len() {
        assert(rest[i] == heights[i]);
        law_the_preferred_file_is_the_tallest_that_fits(rest, want, i);
        lemma_best(rest, want);
        assert(rest[best(rest, want)->0] == heights[best(rest, want)->0]);
    }
}

/// Minutes and seconds of a number of seconds, to the nearest; none below zero.
pub open spec fn whole_seconds(n: Number) -> int {
    match n {
        Number::Finite(d) => if d.neg { 0 } else { d.rounded() },
        Number::Infinite(neg) => if neg { 0 } else { i64::MAX as int },
        Number::Nan => 0,
    }
}

/// See [`whole_seconds`].
pub open spec fn clock_text(n: Number) -> Seq<char> {
    let s = whole_seconds(n);
    dec_two(s / 60) + ":"@ + dec_two(s % 60)
}

/// See [`clock_text`].
pub fn mmss(secs: &Number) -> (r: String)
    requires
        secs.wf(),
    ensures
        r@ == clock_text(*secs),
{
    let s: i64 = match secs {
        Number::Finite(d) => if d.neg { 0 } else { d.to_rounded() },
        Number::Infinite(neg) => if *neg { 0 } else { i64::MAX },
        Number::Nan => 0,
    };
    proof {
        if let Number::Finite(d) = *secs {
            if !d.neg {
                let n = d.m as nat * crate::double::up(d.e as int);
                let k = crate::double::down(d.e as int);
                crate::double::lemma_up_down_pos(d.e as int);
                assert((2 * n + k) / (2 * k) >= 0) by (nonlinear_arith)
                    requires
                        n >= 0,
                        k > 0,
                ;
            }
        }
    }
    assert(s >= 0);
    let mut out = String::new();
    push_dec_two(&mut out, s / 60);
    assert(out@ =~= dec_two((s / 60) as int));
    out.append(":");
    push_dec_two(&mut out, s % 60);
    out
}

/// The stretch that an opening takes; nothing where none is known.
pub open spec fn opening_of(spans: Seq<Span>) -> Option<(Number, Number)>
    decreases spans.len(),
{
    if spans.len() == 0 {
        None
    } else if spans[0].kind@ == "op"@ {
        Some((spans[0].start, spans[0].end))
    } else {
        opening_of(spans.skip(1))
    }
}

/// What is said of the opening that is skipped.
pub fn skip_note(spans: &Vec<Span>) -> (r: String)
    requires
        forall|i: int| 0 <= i < spans@.len() ==> (#[trigger] spans@[i]).start.wf() && spans@[i].end.wf(),
    ensures
        r@ == (match opening_of(spans@) {
            Some((a, b)) => "AniSkip · OP "@ + clock_text(a) + " → "@ + clock_text(b),
            None => Seq::empty(),
        }),
{
    let mut i: usize = 0;
    assert(spans@.skip(0) =~= spans@);
    while i < spans.len()
        invariant
            i <= spans@.len(),
            forall|i: int| 0 <= i < spans@.len() ==> (#[trigger] spans@[i]).start.wf() && spans@[i].end.wf(),
            opening_of(spans@) == opening_of(spans@.skip(i as int)),
        decreases spans@.len() - i,
    {
        assert(spans@.skip(i as int)[0] == spans@[i as int]);
        assert(spans@.skip(i as int).skip(1) =~= spans@.skip(i + 1));
        if same(spans[i].kind.as_str(), "op") {
            let mut s = "AniSkip · OP ".to_owned();
            let a = mmss(&spans[i].start);
            let b = mmss(&spans[i].end);
            s.append(a.as_str());
            s.append(" → ");
            s.append(b.as_str());
            return s;
        }
        i = i + 1;
    }
    let s = String::new();
    assert(s@ =~= Seq::<char>::empty());
    s
}

/// What is said once the sources have answered.
pub fn resolved_line(secs: &Number, files: usize) -> (r: String)
    requires
        secs.wf(),
    ensures
        r@ == "resolved in "@ + secs.text(1) + " s · "@ + dec(files as nat) + " files"@,
{
    let mut s = "resolved in ".to_owned();
    secs.push_text(&mut s, 1);
    s.append(" s · ");
    push_dec(&mut s, files as u64);
    s.append(" files");
    s
}

/// A row of the list of files.
#[derive(Debug)]
pub struct SPlusFile {
    pub index: usize,
    pub label: String,
    pub sub: String,
    pub uploader: String,
    pub subs: String,
    pub has_subs: bool,
}

/// What a row shows.
#[verifier::ext_equal]
pub struct SPlusFileView {
    pub index: int,
    pub label: Seq<char>,
    pub sub: Seq<char>,
    pub uploader: Seq<char>,
    pub subs: Seq<char>,
    pub has_subs: bool,
}

impl View for SPlusFile {
    type V = SPlusFileView;

    open spec fn view(&self) -> SPlusFileView {
        SPlusFileView {
            index: self.index as int,
            label: self.label@,
            sub: self.sub@,
            uploader: self.uploader@,
            subs: self.subs@,
            has_subs: self.has_subs,
        }
    }
}

/// The row of a file; the tracks belong to the episode, not to the file.
pub open spec fn file_row(f: Playable, i: int, subs: nat) -> SPlusFileView {
    SPlusFileView {
        index: i,
        label: f.label@ + " · "@ + f.source@,
        sub: f.sub_label@,
        uploader: f.source@,
        subs: if subs == 0 { "No subs"@ } else { dec(subs) + " subs"@ },
        has_subs: subs > 0,
    }
}

/// The list of files.
pub fn file_rows(files: &Vec<Playable>, subs: usize) -> (r: Vec<SPlusFile>)
    ensures
        r@.len() == files@.len(),
        forall|i: int| 0 <= i < r@.len() ==> (#[trigger] r@[i])@ == file_row(files@[i], i, subs as nat),
{
    let mut out: Vec<SPlusFile> = Vec::new();
    let mut i: usize = 0;
    while i < files.len()
        invariant
            i <= files@.len(),
            out@.len() == i,
            forall|j: int| 0 <= j < i ==> (#[trigger] out@[j])@ == file_row(files@[j], j, subs as nat),
        decreases files@.len() - i,
    {
        let f = &files[i];
        let mut label = f.label.clone();
        label.append(" · ");
        label.append(f.source.as_str());
        let count = if subs == 0 {
            "No subs".to_owned()
        } else {
            let mut s = String::new();
            push_dec(&mut s, subs as u64);
            assert(s@ =~= dec(subs as nat));
            s.append(" subs");
            s
        };
        out.push(
            SPlusFile {
                index: i,
                label,
                sub: f.sub_label.clone(),
                uploader: f.source.clone(),
                subs: count,
                has_subs: subs > 0,
            },
        );
        i = i + 1;
    }
    out
}

/// The picker of subtitle tracks.
pub open spec fn sub_chips(subs: Seq<Track>, picked: int) -> Seq<ChipView> {
    Seq::new(subs.len(), |i: int| (dec(i as nat), subs[i].label@ + " · "@ + subs[i].source@, i == picked))
}

/// See [`sub_chips`].
pub fn push_subs(subs: &Vec<Track>, picked: usize) -> (r: Vec<StreamChip>)
    ensures
        chips_view(r@) == sub_chips(subs@, picked as int),
{
    let mut out: Vec<StreamChip> = Vec::new();
    let mut i: usize = 0;
    while i < subs.len()
        invariant
            i <= subs@.len(),
            out@.len() == i,
            forall|j: int|
                0 <= j < i ==> ((#[trigger] out@[j]).id@, out@[j].label@, out@[j].active) == sub_chips(
                    subs@,
                    picked as int,
                )[j],
        decreases subs@.len() - i,
    {
        let mut id = String::new();
        push_dec(&mut id, i as u64);
        assert(id@ =~= dec(i as nat));
        let mut label = subs[i].label.clone();
        label.append(" · ");
        label.append(subs[i].source.as_str());
        out.push(StreamChip { id, label, active: i == picked });
        i = i + 1;
    }
    assert(chips_view(out@) =~= sub_chips(subs@, picked as int));
    out
}

/// The picker of sound: only titles of the first catalogue have two tracks.
pub fn push_chips(anime: bool, audio: &str) -> (r: Vec<StreamChip>)
    ensures
        chips_view(r@) == (if anime {
            seq![("sub"@, "Sub"@, audio@ == "sub"@), ("dub"@, "Dub"@, audio@ == "dub"@)]
        } else {
            Seq::empty()
        }),
{
    let mut out: Vec<StreamChip> = Vec::new();
    if anime {
        out.push(StreamChip { id: "sub".to_owned(), label: "Sub".to_owned(), active: same(audio, "sub") });
        out.push(StreamChip { id: "dub".to_owned(), label: "Dub".to_owned(), active: same(audio, "dub") });
        assert(chips_view(out@) =~= seq![("sub"@, "Sub"@, audio@ == "sub"@), ("dub"@, "Dub"@, audio@ == "dub"@)]);
    } else {
        assert(chips_view(out@) =~= Seq::<ChipView>::empty());
    }
    out
}

impl State {
    /// The episodes of the title that is open have come: they are kept, and the one
    /// to go on with is picked.
    pub fn load_detail(&mut self, eps: Vec<Episode>) -> (r: i64)
        requires
            forall|i: int| 0 <= i < eps@.len() ==> (#[trigger] eps@[i]).progress.wf(),
        ensures
            r == go_on_at(episodes_view(eps@)),
            final(self).episodes@ == eps@,
            final(self).episode == r,
            *final(self) == (State { episodes: final(self).episodes, episode: final(self).episode, ..*old(self) }),
    {
        let start: i64 = start_episode(&eps);
        self.episodes = eps;
        self.episode = start;
        start
    }

    /// The sources have answered for the episode that is picked.
    pub fn resolve(&mut self, files: Vec<Playable>, subs: Vec<Track>, spans: Vec<Span>, want: i32)
        ensures
            final(self).files@ == files@,
            final(self).file == (match best(heights(files@), want as int) {
                Some(b) => b,
                None => 0,
            }),
            final(self).subs@ == subs@,
            final(self).sub == 0,
            final(self).spans@ == spans@,
            *final(self) == (State {
                files: final(self).files,
                file: final(self).file,
                subs: final(self).subs,
                sub: final(self).sub,
                spans: final(self).spans,
                ..*old(self)
            }),
    {
        let pick: usize = preferred(&files, want);
        self.files = files;
        self.file = pick;
        self.subs = subs;
        self.sub = 0;
        self.spans = spans;
    }
}

/// How much of an episode was watched is what was kept of it first, nothing where nothing was.
pub proof fn law_what_was_kept_of_an_episode_counts(seen: Seq<(i64, Number)>, n: int)
    ensures
        (exists|i: int|
            0 <= i < seen.len() && (#[trigger] seen[i]).0 == n && seen_of(seen, n) == seen[i].1 && forall|j: int|
                0 <= j < i ==> !((#[trigger] seen[j]).0 == n)) || ((forall|i: int| 0 <= i < seen.len() ==> !((#[trigger] seen[i]).0 == n)) && seen_of(seen, n) == Number::Finite(Double { neg: false, m: 0, e: 0 })),
    decreases seen.len(),
{
    if seen.len() > 0 {
        if seen[0].0 == n {
            assert(seen[0].0 == n && seen_of(seen, n) == seen[0].1);
        } else {
            let rest = seen.skip(1);
            law_what_was_kept_of_an_episode_counts(rest, n);
            assert forall|i: int| 0 <= i < rest.len() implies (#[trigger] rest[i]) == seen[i + 1] by {}
            if exists|i: int|
            0 <= i < rest.len() && (#[trigger] rest[i]).0 == n && seen_of(rest, n) == rest[i].1 && forall|j: int|
                0 <= j < i ==> !((#[trigger] rest[j]).0 == n) {
                let i = choose|i: int|
                    0 <= i < rest.len() && (#[trigger] rest[i]).0 == n && seen_of(rest, n) == rest[i].1 && forall|j: int|
                        0 <= j < i ==> !((#[trigger] rest[j]).0 == n);
                assert(seen[i + 1].0 == n && seen_of(seen, n) == seen[i + 1].1);
                assert forall|j: int| 0 <= j < i + 1 implies !((#[trigger] seen[j]).0 == n) by {
                    if j > 0 {
                        assert(!(rest[j - 1].0 == n));
                    }
                }
            } else {
                assert forall|i: int| 0 <= i < seen.len() implies !((#[trigger] seen[i]).0 == n) by {
                    if i > 0 {
                        assert(!(rest[i - 1].0 == n));
                    }
                }
            }
        }
    }
}

/// The opening is the first stretch that is one.
pub proof fn law_the_first_opening_is_the_opening(spans: Seq<Span>)
    ensures
        (exists|i: int|
            0 <= i < spans.len() && (#[trigger] spans[i]).kind@ == "op"@ && opening_of(spans) == Some((spans[i].start, spans[i].end)) && forall|j: int|
                0 <= j < i ==> !((#[trigger] spans[j]).kind@ == "op"@)) || ((forall|i: int| 0 <= i < spans.len() ==> !((#[trigger] spans[i]).kind@ == "op"@)) && opening_of(spans) is None),
    decreases spans.len(),
{
    if spans.len() > 0 {
        if spans[0].kind@ == "op"@ {
            assert(spans[0].kind@ == "op"@ && opening_of(spans) == Some((spans[0].start, spans[0].end)));
        } else {
            let rest = spans.skip(1);
            law_the_first_opening_is_the_opening(rest);
            assert forall|i: int| 0 <= i < rest.len() implies (#[trigger] rest[i]) == spans[i + 1] by {}
            if exists|i: int|
            0 <= i < rest.len() && (#[trigger] rest[i]).kind@ == "op"@ && opening_of(rest) == Some((rest[i].start, rest[i].end)) && forall|j: int|
                0 <= j < i ==> !((#[trigger] rest[j]).kind@ == "op"@) {
                let i = choose|i: int|
                    0 <= i < rest.len() && (#[trigger] rest[i]).kind@ == "op"@ && opening_of(rest) == Some((rest[i].start, rest[i].end)) && forall|j: int|
                        0 <= j < i ==> !((#[trigger] rest[j]).kind@ == "op"@);
                assert(spans[i + 1].kind@ == "op"@ && opening_of(spans) == Some((spans[i + 1].start, spans[i + 1].end)));
                assert forall|j: int| 0 <= j < i + 1 implies !((#[trigger] spans[j]).kind@ == "op"@) by {
                    if j > 0 {
                        assert(!(rest[j - 1].kind@ == "op"@));
                    }
                }
            } else {
                assert forall|i: int| 0 <= i < spans.len() implies !((#[trigger] spans[i]).kind@ == "op"@) by {
                    if i > 0 {
                        assert(!(rest[i - 1].kind@ == "op"@));
                    }
                }
            }
        }
    }
}

/// Of the episodes the first that was begun and is not finished is found.
pub proof fn law_the_first_left_in_the_middle_is_found(eps: Seq<EpisodeView>)
    ensures
        (exists|i: int|
            0 <= i < eps.len() && half_watched((#[trigger] eps[i]).progress) && first_half_watched(eps) == Some(eps[i].number) && forall|j: int|
                0 <= j < i ==> !(half_watched((#[trigger] eps[j]).progress))) || ((forall|i: int| 0 <= i < eps.len() ==> !(half_watched((#[trigger] eps[i]).progress))) && first_half_watched(eps) is None),
    decreases eps.len(),
{
    if eps.len() > 0 {
        if half_watched(eps[0].progress) {
            assert(half_watched(eps[0].progress) && first_half_watched(eps) == Some(eps[0].number));
        } else {
            let rest = eps.skip(1);
            law_the_first_left_in_the_middle_is_found(rest);
            assert forall|i: int| 0 <= i < rest.len() implies (#[trigger] rest[i]) == eps[i + 1] by {}
            if exists|i: int|
            0 <= i < rest.len() && half_watched((#[trigger] rest[i]).progress) && first_half_watched(rest) == Some(rest[i].number) && forall|j: int|
                0 <= j < i ==> !(half_watched((#[trigger] rest[j]).progress)) {
                let i = choose|i: int|
                    0 <= i < rest.len() && half_watched((#[trigger] rest[i]).progress) && first_half_watched(rest) == Some(rest[i].number) && forall|j: int|
                        0 <= j < i ==> !(half_watched((#[trigger] rest[j]).progress));
                assert(half_watched(eps[i + 1].progress) && first_half_watched(eps) == Some(eps[i + 1].number));
                assert forall|j: int| 0 <= j < i + 1 implies !(half_watched((#[trigger] eps[j]).progress)) by {
                    if j > 0 {
                        assert(!(half_watched(rest[j - 1].progress)));
                    }
                }
            } else {
                assert forall|i: int| 0 <= i < eps.len() implies !(half_watched((#[trigger] eps[i]).progress)) by {
                    if i > 0 {
                        assert(!(half_watched(rest[i - 1].progress)));
                    }
                }
            }
        }
    }
}

/// Of the episodes the first that was not begun is found.
pub proof fn law_the_first_not_begun_is_found(eps: Seq<EpisodeView>)
    ensures
        (exists|i: int|
            0 <= i < eps.len() && fresh((#[trigger] eps[i]).progress) && first_fresh(eps) == Some(eps[i].number) && forall|j: int|
                0 <= j < i ==> !(fresh((#[trigger] eps[j]).progress))) || ((forall|i: int| 0 <= i < eps.len() ==> !(fresh((#[trigger] eps[i]).progress))) && first_fresh(eps) is None),
    decreases eps.len(),
{
    if eps.len() > 0 {
        if fresh(eps[0].progress) {
            assert(fresh(eps[0].progress) && first_fresh(eps) == Some(eps[0].number));
        } else {
            let rest = eps.skip(1);
            law_the_first_not_begun_is_found(rest);
            assert forall|i: int| 0 <= i < rest.len() implies (#[trigger] rest[i]) == eps[i + 1] by {}
            if exists|i: int|
            0 <= i < rest.len() && fresh((#[trigger] rest[i]).progress) && first_fresh(rest) == Some(rest[i].number) && forall|j: int|
                0 <= j < i ==> !(fresh((#[trigger] rest[j]).progress)) {
                let i = choose|i: int|
                    0 <= i < rest.len() && fresh((#[trigger] rest[i]).progress) && first_fresh(rest) == Some(rest[i].number) && forall|j: int|
                        0 <= j < i ==> !(fresh((#[trigger] rest[j]).progress));
                assert(fresh(eps[i + 1].progress) && first_fresh(eps) == Some(eps[i + 1].number));
                assert forall|j: int| 0 <= j < i + 1 implies !(fresh((#[trigger] eps[j]).progress)) by {
                    if j > 0 {
                        assert(!(fresh(rest[j - 1].progress)));
                    }
                }
            } else {
                assert forall|i: int| 0 <= i < eps.len() implies !(fresh((#[trigger] eps[i]).progress)) by {
                    if i > 0 {
                        assert(!(fresh(rest[i - 1].progress)));
                    }
                }
            }
        }
    }
}


/// One goes on with the episode that was left in the middle, else with the next that was not
/// begun, else with the first.
pub proof fn law_one_goes_on_where_it_was_left(eps: Seq<EpisodeView>)
    ensures
        first_half_watched(eps) matches Some(n) ==> go_on_at(eps) == n,
        first_half_watched(eps) is None ==> (first_fresh(eps) matches Some(n) ==> go_on_at(eps) == n),
        first_half_watched(eps) is None && first_fresh(eps) is None ==> go_on_at(eps) == 1,
{
}

/// The episodes that are shown are all of them, or those that are not finished where the
/// finished are hidden, in order; each says how much of it was watched.
pub proof fn law_finished_episodes_are_hidden_where_asked(eps: Seq<EpisodeView>, seen: Seq<(i64, Number)>, hide: bool)
    ensures
        shown(eps, seen, hide) == eps.filter(|e: EpisodeView| !hide || unfinished(seen_of(seen, e.number))).map_values(
            |e: EpisodeView| EpisodeView { progress: seen_of(seen, e.number), ..e },
        ),
    decreases eps.len(),
{
    reveal(Seq::filter);
    let p = |e: EpisodeView| !hide || unfinished(seen_of(seen, e.number));
    let f = |e: EpisodeView| EpisodeView { progress: seen_of(seen, e.number), ..e };
    if eps.len() > 0 {
        let front = eps.drop_last();
        law_finished_episodes_are_hidden_where_asked(front, seen, hide);
        let kept = front.filter(p);
        assert(eps.filter(p) == (if p(eps.last()) { kept.push(eps.last()) } else { kept }));
        assert(shown(front, seen, hide) == kept.map_values(f));
    }
    assert(shown(eps, seen, hide) =~= eps.filter(p).map_values(f));
}

/// A row of the page says which file it is, where it comes from and how many tracks there are;
/// and exactly the track that was picked is.
pub proof fn law_a_file_says_where_it_comes_from(f: Playable, i: int, n: nat, subs: Seq<Track>, picked: int, k: int)
    requires
        0 <= k < subs.len(),
    ensures
        file_row(f, i, n).index == i,
        file_row(f, i, n).label == f.label@ + " · "@ + f.source@,
        file_row(f, i, n).uploader == f.source@,
        file_row(f, i, n).has_subs == (n > 0),
        file_row(f, i, 0).subs == "No subs"@,
        n > 0 ==> file_row(f, i, n).subs == dec(n) + " subs"@,
        sub_chips(subs, picked).len() == subs.len(),
        sub_chips(subs, picked)[k].0 == dec(k as nat),
        sub_chips(subs, picked)[k].1 == subs[k].label@ + " · "@ + subs[k].source@,
        sub_chips(subs, picked)[k].2 == (k == picked),
{
}

/// A moment is said in minutes and seconds, to the nearest second and never below zero.
pub proof fn law_a_moment_is_said_in_minutes(n: Number, minutes: nat, seconds: nat)
    requires
        seconds < 60,
        whole_seconds(n) == minutes * 60 + seconds,
    ensures
        clock_text(n) == dec_two(minutes as int) + ":"@ + dec_two(seconds as int),
        whole_seconds(Number::Nan) == 0,
        whole_seconds(Number::Infinite(true)) == 0,
{
    let s = minutes as int * 60 + seconds;
    assert(s / 60 == minutes && s % 60 == seconds);
}

} // verus!
