//! Handing a file to the player.

use vstd::prelude::*;
use super::state::{Playable, State};
use crate::find::{begins, starts_with};
use crate::text::{chars_of, parse_i64, parse_int, slice_of, views};

verus! {

/// The player's arguments for what has to be sent to get a file.
pub open spec fn header_args(headers: Seq<(String, String)>) -> Seq<Seq<char>> {
    Seq::new(headers.len(), |i: int| "--http-header-fields="@ + headers[i].0@ + ": "@ + headers[i].1@)
}

/// The player's arguments: the headers and the agent that the host wants, the
/// subtitles that are picked, what is skipped, and what the window is called.
pub open spec fn all_args(
    headers: Seq<(String, String)>,
    agent: Seq<char>,
    sub: Option<Seq<char>>,
    skips: Seq<Seq<char>>,
    title: Seq<char>,
    label: Seq<char>,
) -> Seq<Seq<char>> {
    header_args(headers).push("--user-agent="@ + agent) + (match sub {
        Some(u) => seq!["--sub-file="@ + u],
        None => Seq::empty(),
    }) + skips.push("--force-media-title="@ + title + " "@ + label)
}

fn push_one(out: &mut Vec<String>, s: String)
    ensures
        views(final(out)@) == views(old(out)@).push(s@),
{
    let ghost was = views(out@);
    let ghost t = s@;
    out.push(s);
    assert(views(out@) =~= was.push(t));
}

/// See [`all_args`].
pub fn mpv_args(file: &Playable, agent: &str, sub: Option<&str>, skips: &Vec<String>, title: &str, label: &str) -> (r: Vec<String>)
    ensures
        views(r@) == all_args(
            file.headers@,
            agent@,
            crate::videos::stream::play::opt_text(sub),
            views(skips@),
            title@,
            label@,
        ),
{
    let mut out: Vec<String> = Vec::new();
    let mut i: usize = 0;
    while i < file.headers.len()
        invariant
            i <= file.headers@.len(),
            out@.len() == i,
            forall|j: int| 0 <= j < i ==> (#[trigger] out@[j])@ == header_args(file.headers@)[j],
        decreases file.headers@.len() - i,
    {
        let mut s = "--http-header-fields=".to_owned();
        s.append(file.headers[i].0.as_str());
        s.append(": ");
        s.append(file.headers[i].1.as_str());
        out.push(s);
        i = i + 1;
    }
    assert(views(out@) =~= header_args(file.headers@));
    let mut a = "--user-agent=".to_owned();
    a.append(agent);
    push_one(&mut out, a);
    let ghost base = views(out@);
    match sub {
        Some(u) => {
            let mut s = "--sub-file=".to_owned();
            s.append(u);
            push_one(&mut out, s);
            assert(views(out@) =~= base + seq!["--sub-file="@ + u@]);
        },
        None => {
            assert(base + Seq::<Seq<char>>::empty() =~= base);
        },
    }
    let ghost mid = views(out@);
    let ghost all = views(skips@);
    let mut k: usize = 0;
    assert(mid + all.take(0) =~= mid);
    while k < skips.len()
        invariant
            k <= skips@.len(),
            all == views(skips@),
            views(out@) == mid + all.take(k as int),
        decreases skips@.len() - k,
    {
        push_one(&mut out, skips[k].clone());
        assert((mid + all.take(k as int)).push(all[k as int]) =~= mid + all.take(k + 1));
        k = k + 1;
    }
    assert(all.take(k as int) =~= all);
    let mut t = "--force-media-title=".to_owned();
    t.append(title);
    t.append(" ");
    t.append(label);
    push_one(&mut out, t);
    assert(views(out@) =~= mid + all.push("--force-media-title="@ + title@ + " "@ + label@));
    out
}

/// What is said while the player opens.
pub fn opening_line(title: &str, label: &str) -> (r: String)
    ensures
        r@ == "Opening "@ + title@ + " "@ + label@ + " in mpv…"@,
{
    let mut s = "Opening ".to_owned();
    s.append(title);
    s.append(" ");
    s.append(label);
    s.append(" in mpv…");
    s
}

/// The number in the first catalogue that a key names; only such a title can be
/// opened again from the history.
pub open spec fn catalogue_number(key: Seq<char>) -> Option<int> {
    if begins(key, "al:"@) { parse_int(key.skip(3)) } else { None }
}

/// See [`catalogue_number`].
pub fn play_from_history(key: &str) -> (r: Option<i64>)
    ensures
        r is Some <==> catalogue_number(key@) is Some,
        r matches Some(n) ==> Some(n as int) == catalogue_number(key@),
{
    if !starts_with(key, "al:") {
        return None;
    }
    proof {
        reveal_strlit("al:");
    }
    let v = chars_of(key);
    let n: usize = v.len();
    assert(v@.subrange(3, n as int) =~= key@.skip(3));
    let rest = slice_of(&v, 3, n);
    parse_i64(rest.as_str())
}

/// The key of a title of the first catalogue leads back to its number.
pub proof fn law_a_key_reads_back(t: super::title::TitleView)
    requires
        t.anilist_id is Some,
    ensures
        catalogue_number(super::title::key_text(t)) == Some(t.anilist_id->0 as int),
{
    let n = t.anilist_id->0;
    let key = super::title::key_text(t);
    reveal_strlit("al:");
    assert(key.take(3) =~= "al:"@);
    assert(key.skip(3) =~= crate::text::dec_int(n as int));
    crate::text::law_integers_read_back(n);
}

impl State {
    /// The file that is picked, where there is one and a title is open.
    pub fn selected(&self) -> (r: Option<&Playable>)
        ensures
            r is Some <==> self.open is Some && self.file < self.files@.len(),
            r matches Some(f) ==> *f == self.files@[self.file as int],
    {
        if self.open.is_some() && self.file < self.files.len() {
            Some(&self.files[self.file])
        } else {
            None
        }
    }

    /// The address of the subtitles that are picked, where there are any.
    pub fn picked_sub(&self) -> (r: Option<&String>)
        ensures
            r is Some <==> self.sub < self.subs@.len(),
            r matches Some(u) ==> *u == self.subs@[self.sub as int].url,
    {
        if self.sub < self.subs.len() {
            Some(&self.subs[self.sub].url)
        } else {
            None
        }
    }
}

/// The player is told every header that the host wants, in order, then its agent, then the
/// subtitles that are picked, what is skipped, and what the window is called.
pub proof fn law_the_player_is_told_what_the_host_wants(
    headers: Seq<(String, String)>,
    agent: Seq<char>,
    sub: Option<Seq<char>>,
    skips: Seq<Seq<char>>,
    title: Seq<char>,
    label: Seq<char>,
)
    ensures
        ({
            let a = all_args(headers, agent, sub, skips, title, label);
            let n = headers.len() as int;
            let m = n + 1 + (if sub is Some { 1int } else { 0 });
            &&& a.len() == m + skips.len() + 1
            &&& forall|i: int| 0 <= i < n ==> #[trigger] a[i] == "--http-header-fields="@ + headers[i].0@ + ": "@ + headers[i].1@
            &&& a[n] == "--user-agent="@ + agent
            &&& sub matches Some(u) ==> a[n + 1] == "--sub-file="@ + u
            &&& forall|i: int| m <= i < m + skips.len() ==> #[trigger] a[i] == skips[i - m]
            &&& a.last() == "--force-media-title="@ + title + " "@ + label
        }),
{
}

/// Only a key of the first catalogue has a number, and that reads back.
pub proof fn law_only_catalogue_keys_have_a_number(n: i64, key: Seq<char>)
    ensures
        catalogue_number("al:"@ + crate::text::dec_int(n as int)) == Some(n as int),
        key.len() < 3 || key.take(3) != "al:"@ ==> catalogue_number(key) is None,
{
    reveal_strlit("al:");
    assert("al:"@.len() == 3);
    let t = "al:"@ + crate::text::dec_int(n as int);
    assert(t.take(3) =~= "al:"@);
    assert(t.skip(3) =~= crate::text::dec_int(n as int));
    crate::text::law_integers_read_back(n);
}

} // verus!
