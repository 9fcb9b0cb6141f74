//! Handing a stream to the player: its subtitles, what is said, and what is kept
//! of where it got to.

use vstd::prelude::*;
use super::state::StreamState;
use super::title::{and_filled, push_filled};
use crate::double::{below, of_nat, Double, Number};
use crate::order::{all_places, places};
use crate::outside::{alphanumeric, is_alphanumeric};
use crate::text::{chars_of, dec, dec_int, join, join_strings, push_dec, push_dec_int, trim, trimmed, views};

verus! {

/// A stream by its rung.
pub open spec fn play_name(resolution: int) -> Seq<char> {
    if resolution > 0 { dec_int(resolution) + "p"@ } else { "stream"@ }
}

/// See [`play_name`].
pub fn play_label(resolution: i64) -> (r: String)
    ensures
        r@ == play_name(resolution as int),
{
    if resolution > 0 {
        let mut s = String::new();
        push_dec_int(&mut s, resolution);
        assert(s@ =~= dec_int(resolution as int));
        s.append("p");
        s
    } else {
        "stream".to_owned()
    }
}

/// What is said once a stream plays: how many tracks are attached, which is
/// picked, and where the stream was resumed.
pub open spec fn playing_text(label: Seq<char>, attached: nat, lang: Option<Seq<char>>, resumed: Option<Seq<char>>) -> Seq<char> {
    let head = "Playing "@ + label + " in mpv · "@;
    let subs = if attached == 0 {
        head + "no subtitles"@
    } else {
        match lang {
            Some(l) => head + dec(attached) + " subtitles · "@ + l,
            None => head + dec(attached) + " subtitles · off"@,
        }
    };
    match resumed {
        Some(at) => subs + " · resumed at "@ + at,
        None => subs,
    }
}

/// What an optional borrowed text reads.
pub open spec fn opt_text(s: Option<&str>) -> Option<Seq<char>> {
    match s {
        Some(t) => Some(t@),
        None => None,
    }
}

/// See [`playing_text`].
pub fn playing_line(label: &str, attached: usize, lang: Option<&str>, resumed: Option<&str>) -> (r: String)
    ensures
        r@ == playing_text(label@, attached as nat, opt_text(lang), opt_text(resumed)),
{
    let mut s = "Playing ".to_owned();
    s.append(label);
    s.append(" in mpv · ");
    if attached == 0 {
        s.append("no subtitles");
    } else {
        push_dec(&mut s, attached as u64);
        match lang {
            Some(l) => {
                s.append(" subtitles · ");
                s.append(l);
            },
            None => {
                s.append(" subtitles · off");
            },
        }
    }
    match resumed {
        Some(at) => {
            s.append(" · resumed at ");
            s.append(at);
        },
        None => {},
    }
    s
}

/// One less the step of single precision.
pub open spec fn just_below_one() -> Double {
    Double { neg: false, m: 0x1f_ffff_c000_0000, e: (-53) as i32 }
}

/// One and the step of single precision.
pub open spec fn just_above_one() -> Double {
    Double { neg: false, m: 0x10_0000_2000_0000, e: (-52) as i32 }
}

/// The step of single precision at one.
pub open spec fn step() -> Double {
    Double { neg: false, m: 0x10_0000_0000_0000, e: (-75) as i32 }
}

/// Whether a size of subtitles differs from the ordinary one.
pub open spec fn resized(scale: Number) -> bool {
    match scale {
        Number::Finite(d) => d.neg || below(d, just_below_one()) || below(just_above_one(), d),
        Number::Infinite(_) => true,
        Number::Nan => false,
    }
}

/// Whether subtitles are shifted in time.
pub open spec fn shifted(delay: Number) -> bool {
    match delay {
        Number::Finite(d) => below(step(), d),
        Number::Infinite(_) => true,
        Number::Nan => false,
    }
}

/// The player's arguments for how subtitles look: their size where it is not the
/// ordinary one, their shift where there is one. Both are single-precision
/// numbers.
pub fn subtitle_style_args(scale: &Number, delay: &Number) -> (r: Vec<String>)
    requires
        scale.wf(),
        delay.wf(),
    ensures
        views(r@) == (if resized(*scale) { seq!["--sub-scale="@ + scale.text(2)] } else { Seq::empty() }) + (if shifted(
            *delay,
        ) {
            seq!["--sub-delay="@ + delay.text(1)]
        } else {
            Seq::empty()
        }),
{
    let mut out: Vec<String> = Vec::new();
    let far = match scale {
        Number::Finite(d) => {
            let low = Double { neg: false, m: 0x1f_ffff_c000_0000, e: -53 };
            let high = Double { neg: false, m: 0x10_0000_2000_0000, e: -52 };
            d.neg || d.is_below(&low) || high.is_below(d)
        },
        Number::Infinite(_) => true,
        Number::Nan => false,
    };
    if far {
        let mut s = "--sub-scale=".to_owned();
        scale.push_text(&mut s, 2);
        out.push(s);
    }
    assert(views(out@) =~= (if resized(*scale) { seq!["--sub-scale="@ + scale.text(2)] } else { Seq::empty() }));
    let ghost was = views(out@);
    let late = match delay {
        Number::Finite(d) => {
            let eps = Double { neg: false, m: 0x10_0000_0000_0000, e: -75 };
            eps.is_below(d)
        },
        Number::Infinite(_) => true,
        Number::Nan => false,
    };
    if late {
        let mut s = "--sub-delay=".to_owned();
        delay.push_text(&mut s, 1);
        out.push(s);
        assert(views(out@) =~= was + seq!["--sub-delay="@ + delay.text(1)]);
    } else {
        assert(was + Seq::<Seq<char>>::empty() =~= was);
    }
    out
}

/// The places below `n` but one.
pub open spec fn others(n: nat, but: Option<int>) -> Seq<int>
    decreases n,
{
    if n == 0 {
        Seq::empty()
    } else {
        let rest = others((n - 1) as nat, but);
        if but == Some(n - 1) { rest } else { rest.push(n - 1) }
    }
}

/// The order in which tracks are attached: the one that is picked first, so that
/// the player can be told to start with its first; the others as they come.
pub open spec fn attach_order(n: nat, chosen: Option<int>) -> Seq<int> {
    (match chosen {
        Some(c) => if c < n { seq![c] } else { Seq::empty() },
        None => Seq::empty(),
    }) + others(n, chosen)
}

/// See [`attach_order`].
pub fn track_order(n: usize, chosen: Option<usize>) -> (r: Vec<usize>)
    ensures
        places(r@) == attach_order(n as nat, super::detail::place(chosen)),
        forall|j: int| 0 <= j < r@.len() ==> #[trigger] r@[j] < n,
{
    let ghost c = super::detail::place(chosen);
    let mut out: Vec<usize> = Vec::new();
    match chosen {
        Some(k) => {
            if k < n {
                out.push(k);
            }
        },
        None => {},
    }
    let ghost front = places(out@);
    assert(front =~= (match c {
        Some(k) => if k < n { seq![k] } else { Seq::empty() },
        None => Seq::<int>::empty(),
    }));
    let mut i: usize = 0;
    assert(front + others(0, c) =~= front);
    while i < n
        invariant
            i <= n,
            c == super::detail::place(chosen),
            places(out@) == front + others(i as nat, c),
            forall|j: int| 0 <= j < out@.len() ==> #[trigger] out@[j] < n,
        decreases n - i,
    {
        let skip = match chosen {
            Some(k) => k == i,
            None => false,
        };
        if !skip {
            let ghost was = places(out@);
            out.push(i);
            assert(places(out@) =~= was.push(i as int));
            assert(front + others(i as nat, c).push(i as int) =~= (front + others(i as nat, c)).push(i as int));
        }
        i = i + 1;
    }
    out
}

proof fn lemma_others(n: nat, but: Option<int>)
    ensures
        others(n, but).no_duplicates(),
        forall|i: int| 0 <= i < others(n, but).len() ==> 0 <= #[trigger] others(n, but)[i] < n && but != Some(others(n, but)[i]),
        others(n, but).len() == (if but is Some && 0 <= but->0 < n { n - 1 } else { n as int }),
    decreases n,
{
    if n > 0 {
        lemma_others((n - 1) as nat, but);
    }
}

/// Every track is attached once, the one that is picked first.
pub proof fn law_every_track_is_attached_once(n: nat, chosen: Option<int>)
    requires
        chosen is Some ==> chosen->0 >= 0,
    ensures
        all_places(attach_order(n, chosen), n),
        chosen is Some && chosen->0 < n ==> attach_order(n, chosen)[0] == chosen->0,
{
    lemma_others(n, chosen);
    let front = match chosen {
        Some(c) => if c < n { seq![c] } else { Seq::empty() },
        None => Seq::<int>::empty(),
    };
    let o = others(n, chosen);
    let all = front + o;
    assert forall|i: int| 0 <= i < all.len() implies 0 <= #[trigger] all[i] < n by {
        if i >= front.len() {
            assert(all[i] == o[i - front.len()]);
        }
    }
    assert forall|i: int, j: int| 0 <= i < all.len() && 0 <= j < all.len() && i != j implies all[i] != all[j] by {
        if i >= front.len() {
            assert(all[i] == o[i - front.len()]);
        }
        if j >= front.len() {
            assert(all[j] == o[j - front.len()]);
        }
    }
}

/// How many of some tracks are there.
pub open spec fn there(paths: Seq<Option<Seq<char>>>) -> nat
    decreases paths.len(),
{
    if paths.len() == 0 {
        0
    } else {
        there(paths.drop_last()) + (if paths.last() is Some { 1nat } else { 0 })
    }
}

/// The arguments that attach the tracks that are there.
pub open spec fn file_args(paths: Seq<Option<Seq<char>>>) -> Seq<Seq<char>>
    decreases paths.len(),
{
    if paths.len() == 0 {
        Seq::empty()
    } else {
        match paths.last() {
            Some(p) => file_args(paths.drop_last()).push("--sub-file="@ + p),
            None => file_args(paths.drop_last()),
        }
    }
}

/// The paths as they are.
pub open spec fn paths_view(v: Seq<Option<String>>) -> Seq<Option<Seq<char>>> {
    Seq::new(v.len(), |i: int| crate::status::figures::opt_string(v[i]))
}

/// The player's arguments for subtitles, and how many tracks are attached. `paths`
/// says where each track was put, in the order they are attached; one that could
/// not be fetched is left out. With none attached nothing is said.
pub fn subtitle_args(paths: &Vec<Option<String>>, chosen: Option<usize>) -> (r: (Vec<String>, usize))
    ensures
        ({
            let p = paths_view(paths@);
            &&& r.1 == there(p)
            &&& views(r.0@) == (if there(p) == 0 {
                Seq::empty()
            } else {
                file_args(p).push(if chosen is Some { "--sid=1"@ } else { "--sid=no"@ })
            })
        }),
{
    let ghost all = paths_view(paths@);
    let mut out: Vec<String> = Vec::new();
    let mut n: usize = 0;
    let mut i: usize = 0;
    assert(all.take(0) =~= Seq::<Option<Seq<char>>>::empty());
    assert(views(out@) =~= Seq::<Seq<char>>::empty());
    while i < paths.len()
        invariant
            i <= paths@.len(),
            n <= i,
            all == paths_view(paths@),
            n == there(all.take(i as int)),
            views(out@) == file_args(all.take(i as int)),
            out@.len() == n,
        decreases paths@.len() - i,
    {
        assert(all.take(i + 1).drop_last() =~= all.take(i as int));
        assert(all.take(i + 1).last() == crate::status::figures::opt_string(paths@[i as int]));
        match &paths[i] {
            Some(p) => {
                let ghost was = views(out@);
                let mut s = "--sub-file=".to_owned();
                s.append(p.as_str());
                out.push(s);
                assert(views(out@) =~= was.push("--sub-file="@ + p@));
                n = n + 1;
            },
            None => {},
        }
        i = i + 1;
    }
    assert(all.take(i as int) =~= all);
    if n > 0 {
        let ghost was = views(out@);
        let sid = if chosen.is_some() { "--sid=1" } else { "--sid=no" };
        out.push(sid.to_owned());
        assert(views(out@) =~= was.push(sid@));
    } else {
        assert(views(out@) =~= Seq::<Seq<char>>::empty());
    }
    (out, n)
}

/// A language with an underscore in place of what may not stand in a file name.
pub open spec fn lang_name(lang: Seq<char>) -> Seq<char> {
    Seq::new(lang.len(), |i: int| if alphanumeric(lang[i]) || lang[i] == '-' || lang[i] == ' ' { lang[i] } else { '_' })
}

/// The name of a track's file, which is what the player shows: its language, else
/// its number.
pub open spec fn track_file(lang: Seq<char>, ext: Seq<char>, idx: nat) -> Seq<char> {
    let l = trim(lang_name(lang));
    (if l.len() == 0 { "Track "@ + dec(idx + 1) } else { l }) + "."@ + (if ext.len() == 0 { "srt"@ } else { ext })
}

/// See [`track_file`].
pub fn subtitle_file(lang: &str, ext: &str, idx: u32) -> (r: String)
    ensures
        r@ == track_file(lang@, ext@, idx as nat),
{
    let v = chars_of(lang);
    let mut clean = String::new();
    let mut i: usize = 0;
    assert(clean@ =~= Seq::<char>::empty());
    while i < v.len()
        invariant
            i <= v@.len(),
            v@ == lang@,
            clean@.len() == i,
            forall|j: int| 0 <= j < i ==> #[trigger] clean@[j] == lang_name(lang@)[j],
        decreases v@.len() - i,
    {
        let c = v[i];
        if is_alphanumeric(c) || c == '-' || c == ' ' {
            clean.push(c);
        } else {
            clean.push('_');
        }
        i = i + 1;
    }
    assert(clean@ =~= lang_name(lang@));
    let mut s = trimmed(clean.as_str());
    if s.as_str().is_empty() {
        s = "Track ".to_owned();
        push_dec(&mut s, idx as u64 + 1);
    }
    s.append(".");
    s.append(if ext.is_empty() { "srt" } else { ext });
    s
}

/// Whether where a stream got to is worth keeping: a player that never got past
/// the first second did not open it.
pub open spec fn got_somewhere(position: Number) -> bool {
    match position {
        Number::Finite(d) => !d.neg && below(of_nat(1), d),
        Number::Infinite(neg) => !neg,
        Number::Nan => true,
    }
}

/// See [`got_somewhere`].
pub fn worth_keeping(position: &Number) -> (r: bool)
    requires
        position.wf(),
    ensures
        r == got_somewhere(*position),
{
    match position {
        Number::Finite(d) => !d.neg && Double::from_u64(1).is_below(d),
        Number::Infinite(neg) => !*neg,
        Number::Nan => true,
    }
}

/// What is looked for as the trailer of a title; nothing without a title.
pub open spec fn trailer_text(title: Seq<char>, year: Seq<char>) -> Seq<char> {
    "ytdl://ytsearch1:"@ + join(and_filled(and_filled(Seq::empty(), title), year).push("trailer"@), " "@)
}

/// See [`trailer_text`].
pub fn stream_trailer(title: &String, year: &String) -> (r: Option<String>)
    ensures
        r is None <==> title@.len() == 0,
        r matches Some(s) ==> s@ == trailer_text(title@, year@),
{
    if title.as_str().is_empty() {
        return None;
    }
    let mut parts: Vec<String> = Vec::new();
    assert(views(parts@) =~= Seq::<Seq<char>>::empty());
    push_filled(&mut parts, title);
    push_filled(&mut parts, year);
    let ghost was = views(parts@);
    parts.push("trailer".to_owned());
    assert(views(parts@) =~= was.push("trailer"@));
    let mut s = "ytdl://ytsearch1:".to_owned();
    let q = join_strings(&parts, " ");
    s.append(q.as_str());
    Some(s)
}

/// An episode was watched to its end: the next one, which is picked, where that is
/// wanted and there is one.
pub fn autoplay_next(st: &mut StreamState, enabled: bool) -> (r: Option<(String, i64, i64)>)
    ensures
        r is Some <==> enabled && next_of(*old(st)) is Some,
        r matches Some(p) ==> {
            &&& next_of(*old(st)) == Some((p.0@, p.1 as int, p.2 as int))
            &&& *final(st) == (StreamState { selection: (p.1, p.2), ..*old(st) })
        },
        r is None ==> *final(st) == *old(st),
{
    if !enabled {
        return None;
    }
    match st.next_episode() {
        Some(p) => {
            st.selection = (p.1, p.2);
            Some(p)
        },
        None => None,
    }
}

/// The episode after the one that is open.
pub open spec fn next_of(st: StreamState) -> Option<(Seq<char>, int, int)> {
    match st.details {
        Some(d) => if st.open_id@.len() > 0 && d.is_series && st.selection.1 > 0 && st.selection.1
            < super::state::episodes_in(d.seasons@, st.selection.0 as int, super::state::first_count(d.seasons@)) {
            Some((st.open_id@, st.selection.0 as int, st.selection.1 + 1))
        } else {
            None
        },
        None => None,
    }
}

/// What is said once a stream plays: its rung, how many tracks are attached and which is
/// picked, and where it was taken up again.
pub proof fn law_a_stream_says_how_it_plays(label: Seq<char>, attached: nat, lang: Seq<char>, at: Seq<char>)
    ensures
        playing_text(label, 0, None, None) == "Playing "@ + label + " in mpv · "@ + "no subtitles"@,
        playing_text(label, 0, Some(lang), None) == "Playing "@ + label + " in mpv · "@ + "no subtitles"@,
        attached > 0 ==> playing_text(label, attached, Some(lang), None) == "Playing "@ + label + " in mpv · "@ + dec(attached) + " subtitles · "@ + lang,
        attached > 0 ==> playing_text(label, attached, None, None) == "Playing "@ + label + " in mpv · "@ + dec(attached) + " subtitles · off"@,
        playing_text(label, attached, Some(lang), Some(at)) == playing_text(label, attached, Some(lang), None) + " · resumed at "@ + at,
        playing_text(label, attached, None, Some(at)) == playing_text(label, attached, None, None) + " · resumed at "@ + at,
{
}

/// The track that is picked is attached first; the others follow in their order.
pub proof fn law_the_picked_track_goes_first(n: nat, c: int)
    requires
        0 <= c < n,
    ensures
        attach_order(n, Some(c)).len() == n,
        attach_order(n, Some(c))[0] == c,
        forall|i: int, j: int| 1 <= i < j < n ==> #[trigger] attach_order(n, Some(c))[i] < #[trigger] attach_order(n, Some(c))[j],
        attach_order(n, None) == Seq::new(n, |i: int| i),
{
    lemma_rest(n, c);
    lemma_all_others(n);
    assert(attach_order(n, None) =~= others(n, None));
}

proof fn lemma_rest(n: nat, c: int)
    ensures
        others(n, Some(c)).len() == (if 0 <= c < n { n - 1 } else { n as int }),
        forall|i: int, j: int| 0 <= i < j < others(n, Some(c)).len() ==> #[trigger] others(n, Some(c))[i] < #[trigger] others(n, Some(c))[j],
        forall|i: int| 0 <= i < others(n, Some(c)).len() ==> 0 <= #[trigger] others(n, Some(c))[i] < n,
    decreases n,
{
    if n > 0 {
        lemma_rest((n - 1) as nat, c);
    }
}

proof fn lemma_all_others(n: nat)
    ensures
        others(n, None) == Seq::new(n, |i: int| i),
    decreases n,
{
    if n > 0 {
        lemma_all_others((n - 1) as nat);
    }
    assert(others(n, None) =~= Seq::new(n, |i: int| i));
}

/// A track's file is named by its language, what may not stand in a name replaced; else by its
/// number from one. Its extension is that of the track, else that of subtitles.
pub proof fn law_a_track_file_is_named_by_its_language(lang: Seq<char>, ext: Seq<char>, idx: nat)
    ensures
        lang_name(lang).len() == lang.len(),
        forall|i: int|
            0 <= i < lang.len() ==> (#[trigger] lang_name(lang)[i] == lang[i] || lang_name(lang)[i] == '_') && (lang[i] == '-' || lang[i] == ' ' || alphanumeric(lang[i])
                ==> lang_name(lang)[i] == lang[i]),
        trim(lang_name(lang)).len() > 0 && ext.len() > 0 ==> track_file(lang, ext, idx) == trim(lang_name(lang)) + "."@ + ext,
        trim(lang_name(lang)).len() > 0 && ext.len() == 0 ==> track_file(lang, ext, idx) == trim(lang_name(lang)) + "."@ + "srt"@,
        trim(lang_name(lang)).len() == 0 && ext.len() > 0 ==> track_file(lang, ext, idx) == "Track "@ + dec(idx + 1) + "."@ + ext,
{
}

/// The episode after the open one is the next of its season, and there is none behind the last.
pub proof fn law_the_next_episode_follows(st: StreamState)
    ensures
        next_of(st) matches Some((id, season, episode)) ==> id == st.open_id@ && season == st.selection.0 && episode == st.selection.1 + 1 && (st.details matches Some(d)
            && d.is_series && episode <= super::state::episodes_in(d.seasons@, season, super::state::first_count(d.seasons@))),
        next_of(st) is None && st.open_id@.len() > 0 && st.selection.1 > 0 ==> (st.details matches Some(d) ==> !d.is_series || st.selection.1
            >= super::state::episodes_in(d.seasons@, st.selection.0 as int, super::state::first_count(d.seasons@))),
{
}

/// A trailer is looked for by the title and the year, where they are known.
pub proof fn law_a_trailer_is_looked_for_by_its_title(title: Seq<char>, year: Seq<char>)
    requires
        title.len() > 0,
    ensures
        year.len() > 0 ==> trailer_text(title, year) == "ytdl://ytsearch1:"@ + (title + " "@ + year + " "@ + "trailer"@),
        year.len() == 0 ==> trailer_text(title, year) == "ytdl://ytsearch1:"@ + (title + " "@ + "trailer"@),
{
    reveal_with_fuel(join, 4);
    let n = Seq::<Seq<char>>::empty();
    let a = n.push(title).push(year).push("trailer"@);
    assert(a.drop_last() =~= n.push(title).push(year));
    assert(a.drop_last().drop_last() =~= n.push(title));
    let b = n.push(title).push("trailer"@);
    assert(b.drop_last() =~= n.push(title));
}

/// As many tracks are attached as are there.
pub proof fn law_the_tracks_that_are_there_are_counted(paths: Seq<Option<Seq<char>>>)
    ensures
        there(paths) == paths.filter(|x: Option<Seq<char>>| x is Some).len(),
    decreases paths.len(),
{
    reveal(Seq::filter);
    let p = |x: Option<Seq<char>>| x is Some;
    if paths.len() > 0 {
        let front = paths.drop_last();
        law_the_tracks_that_are_there_are_counted(front);
        let kept = front.filter(p);
        assert(paths.filter(p) == (if p(paths.last()) { kept.push(paths.last()) } else { kept }));
    }
}

/// Each track that is there has its argument, in order.
pub proof fn law_each_track_that_is_there_has_its_argument(paths: Seq<Option<Seq<char>>>)
    ensures
        file_args(paths) == paths.filter(|x: Option<Seq<char>>| x is Some).map_values(|x: Option<Seq<char>>| "--sub-file="@ + x->0),
    decreases paths.len(),
{
    reveal(Seq::filter);
    let p = |x: Option<Seq<char>>| x is Some;
    let wanted = paths.filter(|x: Option<Seq<char>>| x is Some).map_values(|x: Option<Seq<char>>| "--sub-file="@ + x->0);
    if paths.len() > 0 {
        let front = paths.drop_last();
        law_each_track_that_is_there_has_its_argument(front);
        let kept = front.filter(p);
        assert(paths.filter(p) == (if p(paths.last()) { kept.push(paths.last()) } else { kept }));
        assert(front.filter(|x: Option<Seq<char>>| x is Some).map_values(|x: Option<Seq<char>>| "--sub-file="@ + x->0) == file_args(front));
    }
    assert(file_args(paths) =~= wanted);
}

/// Where a stream got to is worth keeping only past the first second; subtitles are resized
/// only where their size differs and shifted only where they are.
pub proof fn law_only_what_got_somewhere_is_kept(d: Double, resolution: int)
    ensures
        d.neg || !below(of_nat(1), d) ==> !got_somewhere(Number::Finite(d)),
        !d.neg && below(of_nat(1), d) ==> got_somewhere(Number::Finite(d)),
        got_somewhere(Number::Infinite(false)) && !got_somewhere(Number::Infinite(true)),
        !d.neg && !below(d, just_below_one()) && !below(just_above_one(), d) ==> !resized(Number::Finite(d)),
        d.neg || below(d, just_below_one()) || below(just_above_one(), d) ==> resized(Number::Finite(d)),
        shifted(Number::Finite(d)) == below(step(), d),
        resolution > 0 ==> play_name(resolution) == dec_int(resolution) + "p"@,
        resolution <= 0 ==> play_name(resolution) == "stream"@,
{
}

} // verus!
