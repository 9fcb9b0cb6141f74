//! The order of the sources, the age gate, and the settings of the page.

use vstd::prelude::*;
use super::title::{has_text, Title, TitleView};
use crate::order::{num_order, nums, order_of_nums, places};
use crate::text::{join, join_strings, same, trim, trimmed, views};

verus! {

/// The age gate: whether adult titles are shown, the limit as it is written, and
/// how severe the rating is that it names.
#[derive(Clone, Debug)]
pub struct Gate {
    pub allow_adult: bool,
    pub limit: String,
    pub cap: Option<i64>,
}

/// Whether a title is let through; `rating` is how severe the title's own rating
/// is. Without a limit everything is shown that is not adult. With one, an unrated
/// title is hidden, but for the catalogue that publishes no ratings at all.
pub open spec fn is_allowed(t: TitleView, g: Gate, rating: Option<i64>) -> bool {
    if t.adult && !g.allow_adult {
        false
    } else if g.cap is None || trim(g.limit@).len() == 0 {
        true
    } else if rating is Some && trim(t.certification).len() > 0 {
        rating->0 <= g.cap->0
    } else {
        t.anilist_id is Some
    }
}

/// See [`is_allowed`].
pub fn allowed(t: &Title, g: &Gate, rating: Option<i64>) -> (r: bool)
    ensures
        r == is_allowed(t@, *g, rating),
{
    if t.adult && !g.allow_adult {
        return false;
    }
    match g.cap {
        Some(cap) => {
            if trimmed(g.limit.as_str()).as_str().is_empty() {
                return true;
            }
            match rating {
                Some(r) => {
                    if !trimmed(t.certification.as_str()).as_str().is_empty() {
                        return r <= cap;
                    }
                },
                None => {},
            }
            t.anilist_id.is_some()
        },
        None => true,
    }
}

/// An adult title is hidden unless adult titles are allowed, whatever the limit.
pub proof fn law_adult_titles_need_leave(t: TitleView, g: Gate, rating: Option<i64>)
    requires
        t.adult,
        !g.allow_adult,
    ensures
        !is_allowed(t, g, rating),
{
}

/// A lower limit never shows a title that a higher one hides.
pub proof fn law_a_lower_limit_hides_more(t: TitleView, low: Gate, high: Gate, rating: Option<i64>)
    requires
        low.allow_adult == high.allow_adult,
        trim(low.limit@).len() > 0,
        trim(high.limit@).len() > 0,
        low.cap is Some,
        high.cap is Some,
        low.cap->0 <= high.cap->0,
        is_allowed(t, low, rating),
    ensures
        is_allowed(t, high, rating),
{
}

/// The texts of a list that another has too.
pub open spec fn kept_of(saved: Seq<Seq<char>>, all: Seq<Seq<char>>) -> Seq<Seq<char>>
    decreases saved.len(),
{
    if saved.len() == 0 {
        Seq::empty()
    } else {
        let rest = kept_of(saved.drop_last(), all);
        if all.contains(saved.last()) { rest.push(saved.last()) } else { rest }
    }
}

/// A list with what it lacks of another behind it.
pub open spec fn and_missing(list: Seq<Seq<char>>, all: Seq<Seq<char>>) -> Seq<Seq<char>>
    decreases all.len(),
{
    if all.len() == 0 {
        list
    } else {
        let rest = and_missing(list, all.drop_last());
        if rest.contains(all.last()) { rest } else { rest.push(all.last()) }
    }
}

/// The order of the sources: as it was saved, as far as the sources exist, then
/// those that it does not name.
pub open spec fn source_order(saved: Seq<Seq<char>>, all: Seq<Seq<char>>) -> Seq<Seq<char>> {
    and_missing(kept_of(saved, all), all)
}

/// See [`source_order`].
pub fn current_order(saved: &Vec<String>, all: &Vec<String>) -> (r: Vec<String>)
    ensures
        views(r@) == source_order(views(saved@), views(all@)),
{
    let ghost s = views(saved@);
    let ghost a = views(all@);
    let mut out: Vec<String> = Vec::new();
    let mut i: usize = 0;
    assert(s.take(0) =~= Seq::<Seq<char>>::empty());
    assert(views(out@) =~= Seq::<Seq<char>>::empty());
    while i < saved.len()
        invariant
            i <= saved@.len(),
            s == views(saved@),
            a == views(all@),
            views(out@) == kept_of(s.take(i as int), a),
        decreases saved@.len() - i,
    {
        assert(s.take(i + 1).drop_last() =~= s.take(i as int));
        assert(s.take(i + 1).last() == saved@[i as int]@);
        if has_text(all, saved[i].as_str()) {
            let ghost was = views(out@);
            out.push(saved[i].clone());
            assert(views(out@) =~= was.push(saved@[i as int]@));
        }
        i = i + 1;
    }
    assert(s.take(i as int) =~= s);
    let ghost base = views(out@);
    let mut k: usize = 0;
    assert(a.take(0) =~= Seq::<Seq<char>>::empty());
    while k < all.len()
        invariant
            k <= all@.len(),
            a == views(all@),
            views(out@) == and_missing(base, a.take(k as int)),
        decreases all@.len() - k,
    {
        assert(a.take(k + 1).drop_last() =~= a.take(k as int));
        assert(a.take(k + 1).last() == all@[k as int]@);
        if !has_text(&out, all[k].as_str()) {
            let ghost was = views(out@);
            out.push(all[k].clone());
            assert(views(out@) =~= was.push(all@[k as int]@));
        }
        k = k + 1;
    }
    assert(a.take(k as int) =~= a);
    out
}

proof fn lemma_and_missing(list: Seq<Seq<char>>, all: Seq<Seq<char>>)
    ensures
        forall|x: Seq<char>| #[trigger] list.contains(x) ==> and_missing(list, all).contains(x),
        forall|x: Seq<char>| #[trigger] all.contains(x) ==> and_missing(list, all).contains(x),
    decreases all.len(),
{
    if all.len() > 0 {
        let w = all.drop_last();
        lemma_and_missing(list, w);
        let rest = and_missing(list, w);
        let now = and_missing(list, all);
        assert forall|x: Seq<char>| #[trigger] rest.contains(x) implies now.contains(x) by {
            let i = choose|i: int| 0 <= i < rest.len() && rest[i] == x;
            assert(now[i] == x);
        }
        assert(now.contains(all.last())) by {
            if !rest.contains(all.last()) {
                assert(now[rest.len() as int] == all.last());
            }
        }
        assert forall|x: Seq<char>| #[trigger] all.contains(x) implies now.contains(x) by {
            let i = choose|i: int| 0 <= i < all.len() && all[i] == x;
            if i < w.len() {
                assert(w[i] == x);
                assert(w.contains(x));
            }
        }
    }
}

/// Every source has a place in the order, whatever was saved.
pub proof fn law_every_source_is_in_the_order(saved: Seq<Seq<char>>, all: Seq<Seq<char>>, id: Seq<char>)
    requires
        all.contains(id),
    ensures
        source_order(saved, all).contains(id),
{
    lemma_and_missing(kept_of(saved, all), all);
}

/// Where a text first stands in a list.
pub open spec fn position(list: Seq<Seq<char>>, id: Seq<char>) -> Option<int>
    decreases list.len(),
{
    if list.len() == 0 {
        None
    } else if list[0] == id {
        Some(0)
    } else {
        match position(list.skip(1), id) {
            Some(i) => Some(i + 1),
            None => None,
        }
    }
}

fn position_of(list: &Vec<String>, id: &str) -> (r: Option<usize>)
    ensures
        r is Some <==> position(views(list@), id@) is Some,
        r matches Some(i) ==> i < list@.len() && position(views(list@), id@) == Some(i as int),
{
    let ghost all = views(list@);
    let mut i: usize = 0;
    assert(all.skip(0) =~= all);
    while i < list.len()
        invariant
            i <= list@.len(),
            all == views(list@),
            position(all, id@) == (match position(all.skip(i as int), id@) {
                Some(k) => Some(k + i),
                None => None,
            }),
        decreases list@.len() - i,
    {
        assert(all.skip(i as int)[0] == all[i as int]);
        assert(all.skip(i as int).skip(1) =~= all.skip(i + 1));
        if same(list[i].as_str(), id) {
            return Some(i);
        }
        i = i + 1;
    }
    None
}

/// Where a source goes: so many places on, never off the list.
pub open spec fn moved_to(at: int, delta: int, len: int) -> int {
    if at + delta < 0 { 0 } else if at + delta > len - 1 { len - 1 } else { at + delta }
}

/// Moves a source up or down; nothing happens where it is not in the order.
pub fn move_source(order: &mut Vec<String>, id: &str, delta: i32) -> (r: bool)
    ensures
        ({
            let list = views(old(order)@);
            match position(list, id@) {
                Some(at) => {
                    &&& r
                    &&& views(final(order)@) == list.remove(at).insert(
                        moved_to(at, delta as int, list.len() as int),
                        list[at],
                    )
                },
                None => !r && final(order)@ == old(order)@,
            }
        }),
{
    let ghost list = views(order@);
    match position_of(order, id) {
        Some(at) => {
            let n: usize = order.len();
            let to: i128 = at as i128 + delta as i128;
            let dest: usize = if to < 0 {
                0
            } else if to > n as i128 - 1 {
                n - 1
            } else {
                to as usize
            };
            let one = order.remove(at);
            assert(views(order@) =~= list.remove(at as int));
            order.insert(dest, one);
            assert(views(order@) =~= list.remove(at as int).insert(dest as int, list[at as int]));
            true
        },
        None => false,
    }
}

/// How the rows of the health page are ordered: as the sources are, those that are
/// none of them last.
pub open spec fn ranks(rows: Seq<Seq<char>>, order: Seq<Seq<char>>) -> Seq<int> {
    Seq::new(
        rows.len(),
        |i: int|
            match position(order, rows[i]) {
                Some(k) => k,
                None => u64::MAX as int,
            },
    )
}

/// See [`ranks`]: the places of the rows in that order.
pub fn health_order(rows: &Vec<String>, order: &Vec<String>) -> (r: Vec<usize>)
    ensures
        places(r@) == num_order(ranks(views(rows@), views(order@)), rows@.len()),
        forall|j: int| 0 <= j < r@.len() ==> #[trigger] r@[j] < rows@.len(),
{
    let mut keys: Vec<u64> = Vec::new();
    let mut i: usize = 0;
    while i < rows.len()
        invariant
            i <= rows@.len(),
            keys@.len() == i,
            forall|j: int| 0 <= j < i ==> #[trigger] keys@[j] == ranks(views(rows@), views(order@))[j],
        decreases rows@.len() - i,
    {
        let k: u64 = match position_of(order, rows[i].as_str()) {
            Some(k) => k as u64,
            None => u64::MAX,
        };
        assert(views(rows@)[i as int] == rows@[i as int]@);
        keys.push(k);
        i = i + 1;
    }
    assert(nums(keys@) =~= ranks(views(rows@), views(order@)));
    order_of_nums(&keys)
}

/// A switch of the page.
#[derive(Clone, Copy, Debug, PartialEq, Eq, Structural)]
pub enum Flag {
    SkipOpEd,
    HideFinished,
    SubsWyzie,
    SubsSubdl,
    SubsWithFile,
    IntoLibrary,
    NotifyDownload,
    NotifyEpisode,
}

/// The switch that a key stands for.
pub open spec fn flag_named(key: Seq<char>) -> Option<Flag> {
    if key == "skip_op_ed"@ {
        Some(Flag::SkipOpEd)
    } else if key == "hide_finished"@ {
        Some(Flag::HideFinished)
    } else if key == "subs_wyzie"@ {
        Some(Flag::SubsWyzie)
    } else if key == "subs_subdl"@ {
        Some(Flag::SubsSubdl)
    } else if key == "subs_with_file"@ {
        Some(Flag::SubsWithFile)
    } else if key == "into_library"@ {
        Some(Flag::IntoLibrary)
    } else if key == "notify_download"@ {
        Some(Flag::NotifyDownload)
    } else if key == "notify_episode"@ {
        Some(Flag::NotifyEpisode)
    } else {
        None
    }
}

/// See [`flag_named`].
pub fn set_flag(key: &str) -> (r: Option<Flag>)
    ensures
        r == flag_named(key@),
{
    if same(key, "skip_op_ed") {
        Some(Flag::SkipOpEd)
    } else if same(key, "hide_finished") {
        Some(Flag::HideFinished)
    } else if same(key, "subs_wyzie") {
        Some(Flag::SubsWyzie)
    } else if same(key, "subs_subdl") {
        Some(Flag::SubsSubdl)
    } else if same(key, "subs_with_file") {
        Some(Flag::SubsWithFile)
    } else if same(key, "into_library") {
        Some(Flag::IntoLibrary)
    } else if same(key, "notify_download") {
        Some(Flag::NotifyDownload)
    } else if same(key, "notify_episode") {
        Some(Flag::NotifyEpisode)
    } else {
        None
    }
}

/// A number of the page.
#[derive(Clone, Copy, Debug, PartialEq, Eq, Structural)]
pub enum Dial {
    AutoplaySeconds,
    WatchedThreshold,
    Quality,
    Slots,
}

/// The number that a key stands for.
pub open spec fn dial_named(key: Seq<char>) -> Option<Dial> {
    if key == "autoplay_seconds"@ {
        Some(Dial::AutoplaySeconds)
    } else if key == "watched_threshold"@ {
        Some(Dial::WatchedThreshold)
    } else if key == "quality"@ {
        Some(Dial::Quality)
    } else if key == "slots"@ {
        Some(Dial::Slots)
    } else {
        None
    }
}

/// See [`dial_named`].
pub fn set_num(key: &str) -> (r: Option<Dial>)
    ensures
        r == dial_named(key@),
{
    if same(key, "autoplay_seconds") {
        Some(Dial::AutoplaySeconds)
    } else if same(key, "watched_threshold") {
        Some(Dial::WatchedThreshold)
    } else if same(key, "quality") {
        Some(Dial::Quality)
    } else if same(key, "slots") {
        Some(Dial::Slots)
    } else {
        None
    }
}

/// A text of the page.
#[derive(Clone, Copy, Debug, PartialEq, Eq, Structural)]
pub enum Words {
    AudioPref,
    SubsLang,
}

/// The text that a key stands for.
pub fn set_text(key: &str) -> (r: Option<Words>)
    ensures
        r == (if key@ == "audio_pref"@ {
            Some(Words::AudioPref)
        } else if key@ == "subs_lang"@ {
            Some(Words::SubsLang)
        } else {
            None
        }),
{
    if same(key, "audio_pref") {
        Some(Words::AudioPref)
    } else if same(key, "subs_lang") {
        Some(Words::SubsLang)
    } else {
        None
    }
}

/// The addresses that the editor starts with: the catalogue's own, then every host
/// that is known.
pub fn default_host_block(origins: &Vec<String>) -> (r: String)
    ensures
        r@ == join(seq!["https://api.allanime.day/api"@] + views(origins@), "\n"@),
{
    let mut lines: Vec<String> = Vec::new();
    lines.push("https://api.allanime.day/api".to_owned());
    let ghost first = seq!["https://api.allanime.day/api"@];
    let ghost all = views(origins@);
    let mut i: usize = 0;
    assert(views(lines@) =~= first + all.take(0));
    while i < origins.len()
        invariant
            i <= origins@.len(),
            all == views(origins@),
            views(lines@) == first + all.take(i as int),
        decreases origins@.len() - i,
    {
        let ghost was = views(lines@);
        lines.push(origins[i].clone());
        assert(views(lines@) =~= was.push(all[i as int]));
        assert(first + all.take(i + 1) =~= was.push(all[i as int]));
        i = i + 1;
    }
    assert(all.take(i as int) =~= all);
    join_strings(&lines, "\n")
}

/// Of the saved order the sources that exist stay, in their order.
pub proof fn law_saved_sources_that_exist_stay(saved: Seq<Seq<char>>, all: Seq<Seq<char>>)
    ensures
        kept_of(saved, all) == saved.filter(|x: Seq<char>| all.contains(x)),
    decreases saved.len(),
{
    reveal(Seq::filter);
    let p = |x: Seq<char>| all.contains(x);
    let wanted = saved.filter(|x: Seq<char>| all.contains(x));
    if saved.len() > 0 {
        let front = saved.drop_last();
        law_saved_sources_that_exist_stay(front, all);
        let kept = front.filter(p);
        assert(saved.filter(p) == (if p(saved.last()) { kept.push(saved.last()) } else { kept }));
        assert(front.filter(|x: Seq<char>| all.contains(x)) == kept_of(front, all));
    }
    assert(kept_of(saved, all) =~= wanted);
}


/// A text stands in a list at its first place, and is missing only where it stands nowhere.
pub proof fn law_a_source_stands_at_its_first_place(list: Seq<Seq<char>>, id: Seq<char>)
    ensures
        position(list, id) matches Some(i) ==> 0 <= i < list.len() && list[i] == id && forall|j: int| 0 <= j < i ==> #[trigger] list[j] != id,
        position(list, id) is None ==> !list.contains(id),
    decreases list.len(),
{
    if list.len() > 0 && list[0] != id {
        let rest = list.skip(1);
        law_a_source_stands_at_its_first_place(rest, id);
        assert forall|j: int| 0 <= j < rest.len() implies #[trigger] rest[j] == list[j + 1] by {}
        if position(rest, id) is Some {
            let i = position(rest, id)->0;
            assert(rest[i] == id);
            assert forall|j: int| 0 <= j < i + 1 implies #[trigger] list[j] != id by {
                if j > 0 {
                    assert(rest[j - 1] != id);
                }
            }
        } else {
            assert forall|j: int| 0 <= j < list.len() implies list[j] != id by {
                if j > 0 {
                    assert(rest[j - 1] != id);
                }
            }
        }
    }
}

/// A source moves as far as it is asked to, and stops at the ends of the list.
pub proof fn law_a_source_moves_within_the_list(at: int, delta: int, len: int)
    requires
        0 <= at < len,
    ensures
        0 <= moved_to(at, delta, len) < len,
        0 <= at + delta < len ==> moved_to(at, delta, len) == at + delta,
        at + delta < 0 ==> moved_to(at, delta, len) == 0,
        at + delta >= len ==> moved_to(at, delta, len) == len - 1,
{
}

/// Each switch and each number has its key, and no other key stands for one.
pub proof fn law_each_setting_has_its_key(key: Seq<char>)
    ensures
        flag_named("skip_op_ed"@) == Some(Flag::SkipOpEd),
        flag_named("hide_finished"@) == Some(Flag::HideFinished),
        flag_named("subs_wyzie"@) == Some(Flag::SubsWyzie),
        flag_named("subs_subdl"@) == Some(Flag::SubsSubdl),
        flag_named("subs_with_file"@) == Some(Flag::SubsWithFile),
        flag_named("into_library"@) == Some(Flag::IntoLibrary),
        flag_named("notify_download"@) == Some(Flag::NotifyDownload),
        flag_named("notify_episode"@) == Some(Flag::NotifyEpisode),
        dial_named("autoplay_seconds"@) == Some(Dial::AutoplaySeconds),
        dial_named("watched_threshold"@) == Some(Dial::WatchedThreshold),
        dial_named("quality"@) == Some(Dial::Quality),
        dial_named("slots"@) == Some(Dial::Slots),
        flag_named(key) is Some ==> dial_named(key) is None,
{
    reveal_strlit("skip_op_ed");
    reveal_strlit("hide_finished");
    reveal_strlit("subs_wyzie");
    reveal_strlit("subs_subdl");
    reveal_strlit("subs_with_file");
    reveal_strlit("into_library");
    reveal_strlit("notify_download");
    reveal_strlit("notify_episode");
    reveal_strlit("autoplay_seconds");
    reveal_strlit("watched_threshold");
    reveal_strlit("quality");
    reveal_strlit("slots");
    assert("skip_op_ed"@.len() == 10 && "hide_finished"@.len() == 13 && "subs_wyzie"@.len() == 10 && "subs_subdl"@.len() == 10 && "subs_with_file"@.len() == 14 && "into_library"@.len() == 12 && "notify_download"@.len() == 15 && "notify_episode"@.len() == 14 && "autoplay_seconds"@.len() == 16 && "watched_threshold"@.len() == 17 && "quality"@.len() == 7 && "slots"@.len() == 5);
    assert("skip_op_ed"@[1] == 'k' && "subs_wyzie"@[1] == 'u' && "subs_subdl"@[1] == 'u' && "subs_wyzie"@[5] == 'w' && "subs_subdl"@[5] == 's' && "subs_with_file"@[0] == 's' && "notify_episode"@[0] == 'n');
}

/// A title that is rated is let through exactly where its rating is not above the limit; one
/// that is not only where its catalogue rates nothing. Without a limit everything is shown
/// that is not adult.
pub proof fn law_the_limit_decides_what_is_shown(t: TitleView, g: Gate, rating: Option<i64>)
    requires
        !t.adult || g.allow_adult,
    ensures
        g.cap is None ==> is_allowed(t, g, rating),
        trim(g.limit@).len() == 0 ==> is_allowed(t, g, rating),
        trim(g.limit@).len() > 0 && trim(t.certification).len() > 0 ==> (g.cap matches Some(c) ==> (rating matches Some(r) ==> is_allowed(t, g, rating) == (r <= c))),
        trim(g.limit@).len() > 0 && g.cap is Some && (rating is None || trim(t.certification).len() == 0) ==> is_allowed(t, g, rating) == (t.anilist_id is Some),
{
}

/// The rows of the health page rank as their sources stand in the order; a row that is none of
/// them ranks behind all.
pub proof fn law_rows_rank_as_their_sources(rows: Seq<Seq<char>>, order: Seq<Seq<char>>, i: int)
    requires
        0 <= i < rows.len(),
        order.len() < u64::MAX,
    ensures
        order.contains(rows[i]) ==> 0 <= ranks(rows, order)[i] < order.len() && order[ranks(rows, order)[i]] == rows[i],
        !order.contains(rows[i]) ==> ranks(rows, order)[i] > order.len(),
{
    law_a_source_stands_at_its_first_place(order, rows[i]);
    if position(order, rows[i]) is Some {
        assert(order.contains(rows[i]));
    }
}

} // verus!
