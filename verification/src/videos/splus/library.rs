//! What is saved, and what was watched.

use vstd::prelude::*;
use super::downloads::{join_three, three_parts};
use crate::double::{hundred, product, Double, Number};
use crate::find::{begins, begins_at};
use crate::single::{single, to_single};
use crate::text::{chars_of, dec_int, dec_two, push_dec_int, push_dec_two, slice_of, trim, trimmed};

verus! {

/// A saved title: where it was left, and how much was watched of that episode in
/// single precision.
#[derive(Clone, Debug)]
pub struct Saved {
    pub format: String,
    pub last_season: i64,
    pub last_episode: i64,
    pub progress: Number,
    pub year: Option<i64>,
    pub episodes: i64,
}

/// A single-precision fraction in per cent, to the nearest whole one.
pub open spec fn whole_percent(p: Number) -> int {
    match p {
        Number::Finite(d) => single(product(d, hundred())).rounded(),
        Number::Infinite(neg) => if neg { i64::MIN as int } else { i64::MAX as int },
        Number::Nan => 0,
    }
}

fn percent_of(p: &Number) -> (r: i64)
    requires
        p.wf(),
    ensures
        r == whole_percent(*p),
{
    match p {
        Number::Finite(d) => to_single(&d.mul(&Double::hundred())).to_rounded(),
        Number::Infinite(neg) => if *neg { i64::MIN } else { i64::MAX },
        Number::Nan => 0,
    }
}

/// The line on a saved title's card: where it was left, else its year and its
/// episodes.
pub open spec fn note_text(s: Saved) -> Seq<char> {
    if s.last_episode > 0 {
        let pct = dec_int(whole_percent(s.progress)) + "%"@;
        if s.format@ == "MOVIE"@ {
            pct
        } else {
            "S"@ + dec_two(s.last_season as int) + "E"@ + dec_two(s.last_episode as int) + " · "@ + pct
        }
    } else {
        match s.year {
            Some(y) => if s.episodes > 0 {
                dec_int(y as int) + " · "@ + dec_int(s.episodes as int) + " ep"@
            } else {
                dec_int(y as int)
            },
            None => "not started"@,
        }
    }
}

/// See [`note_text`].
pub fn saved_note(s: &Saved) -> (r: String)
    requires
        s.progress.wf(),
    ensures
        r@ == note_text(*s),
{
    let mut out = String::new();
    assert(out@ =~= Seq::<char>::empty());
    if s.last_episode > 0 {
        let pct: i64 = percent_of(&s.progress);
        if !crate::text::same(s.format.as_str(), "MOVIE") {
            out.append("S");
            push_dec_two(&mut out, s.last_season);
            out.append("E");
            push_dec_two(&mut out, s.last_episode);
            out.append(" · ");
        }
        push_dec_int(&mut out, pct);
        out.append("%");
        assert(out@ =~= note_text(*s));
        return out;
    }
    match s.year {
        Some(y) => {
            push_dec_int(&mut out, y);
            if s.episodes > 0 {
                out.append(" · ");
                push_dec_int(&mut out, s.episodes);
                out.append(" ep");
            }
            assert(out@ =~= note_text(*s));
            out
        },
        None => "not started".to_owned(),
    }
}

/// Where a separator last begins, from a place backwards.
pub open spec fn last_from(s: Seq<char>, sep: Seq<char>, i: int) -> Option<int>
    decreases i + 1,
{
    if i < 0 {
        None
    } else if begins(s.skip(i), sep) {
        Some(i)
    } else {
        last_from(s, sep, i - 1)
    }
}

/// What stands behind the last separator of a text, all of it where there is none.
pub open spec fn after_last(s: Seq<char>, sep: Seq<char>) -> Seq<char> {
    match last_from(s, sep, s.len() as int) {
        Some(i) => s.skip(i + sep.len()),
        None => s,
    }
}

fn tail_of(s: &str, sep: &str) -> (r: String)
    ensures
        r@ == after_last(s@, sep@),
{
    let v = chars_of(s);
    let p = chars_of(sep);
    let n: usize = v.len();
    let mut i: usize = n;
    loop
        invariant
            n == v@.len(),
            i <= n,
            v@ == s@,
            p@ == sep@,
            last_from(s@, sep@, n as int) == last_from(s@, sep@, i as int),
        ensures
            last_from(s@, sep@, n as int) is None,
        decreases i,
    {
        if begins_at(&v, i, &p) {
            let m: usize = p.len();
            assert(i + m <= n);
            assert(v@.subrange(i + m, n as int) =~= s@.skip(i + m));
            return slice_of(&v, i + m, n);
        }
        if i == 0 {
            assert(last_from(s@, sep@, -1) is None);
            break;
        }
        i = i - 1;
    }
    s.to_owned()
}

/// The title of a history row: the name and what its kind ends with.
pub open spec fn row_title(title: Seq<char>, kind: Seq<char>) -> Seq<char> {
    trim(title + " "@ + after_last(kind, " · "@))
}

/// See [`row_title`].
pub fn history_title(title: &str, kind: &str) -> (r: String)
    ensures
        r@ == row_title(title@, kind@),
{
    let mut s = title.to_owned();
    s.append(" ");
    let t = tail_of(kind, " · ");
    s.append(t.as_str());
    trimmed(s.as_str())
}

/// What is known of how a title was watched: the source, the sound and the rung.
pub fn detail_line(source: &String, audio: &String, quality: &String) -> (r: String)
    ensures
        r@ == three_parts(source@, audio@, quality@),
{
    join_three(source, audio, quality)
}

/// A saved title says where it was left: the episode and how much of it, of a film how much
/// alone; one that was not begun its year and its episodes.
pub proof fn law_a_saved_title_says_where_it_was_left(s: Saved)
    ensures
        ({
            let pct = dec_int(whole_percent(s.progress)) + "%"@;
            &&& s.last_episode > 0 && s.format@ == "MOVIE"@ ==> note_text(s) == pct
            &&& s.last_episode > 0 && s.format@ != "MOVIE"@ ==> note_text(s) == "S"@ + dec_two(s.last_season as int) + "E"@ + dec_two(
                s.last_episode as int,
            ) + " · "@ + pct
            &&& s.last_episode <= 0 && s.year is None ==> note_text(s) == "not started"@
            &&& s.last_episode <= 0 ==> (s.year matches Some(y) ==> (s.episodes > 0 ==> note_text(s) == dec_int(y as int) + " · "@ + dec_int(
                s.episodes as int,
            ) + " ep"@) && (s.episodes <= 0 ==> note_text(s) == dec_int(y as int)))
        }),
{
}

/// What stands behind the last separator is what follows it, and holds none itself.
pub proof fn law_the_last_part_follows_the_last_separator(s: Seq<char>, sep: Seq<char>)
    requires
        sep.len() > 0,
    ensures
        ({
            let t = after_last(s, sep);
            &&& t.len() <= s.len() && t == s.skip(s.len() - t.len())
            &&& t.len() < s.len() ==> s.len() - t.len() >= sep.len() && s.subrange(s.len() - t.len() - sep.len(), s.len() - t.len()) == sep
            &&& forall|i: int| s.len() - t.len() <= i <= s.len() - sep.len() ==> #[trigger] s.subrange(i, i + sep.len()) != sep
        }),
{
    let n = s.len() as int;
    lemma_last_from(s, sep, n);
    let t = after_last(s, sep);
    assert(s.skip(0) =~= s);
    match last_from(s, sep, n) {
        Some(k) => {
            assert(s.subrange(k, k + sep.len()) =~= s.skip(k).take(sep.len() as int));
            assert forall|i: int| n - t.len() <= i <= n - sep.len() implies #[trigger] s.subrange(i, i + sep.len()) != sep by {
                assert(s.subrange(i, i + sep.len()) =~= s.skip(i).take(sep.len() as int));
                assert(!begins(s.skip(i), sep));
            }
        },
        None => {
            assert forall|i: int| n - t.len() <= i <= n - sep.len() implies #[trigger] s.subrange(i, i + sep.len()) != sep by {
                assert(s.subrange(i, i + sep.len()) =~= s.skip(i).take(sep.len() as int));
                assert(!begins(s.skip(i), sep));
            }
        },
    }
}

proof fn lemma_last_from(s: Seq<char>, sep: Seq<char>, i: int)
    requires
        i <= s.len(),
    ensures
        last_from(s, sep, i) matches Some(k) ==> 0 <= k <= i && begins(s.skip(k), sep) && forall|j: int| k < j <= i ==> !begins(#[trigger] s.skip(j), sep),
        last_from(s, sep, i) is None ==> forall|j: int| 0 <= j <= i ==> !begins(#[trigger] s.skip(j), sep),
    decreases i + 1,
{
    if i >= 0 && !begins(s.skip(i), sep) {
        lemma_last_from(s, sep, i - 1);
    }
}

/// A row of the history is called by its title and what its kind ends with.
pub proof fn law_a_history_row_is_called_by_its_title(title: Seq<char>, kind: Seq<char>)
    ensures
        row_title(title, kind) == trim(title + " "@ + after_last(kind, " · "@)),
{
}

} // verus!
