//! Looking for one text inside another, and cutting a text into lines.

use vstd::prelude::*;
use crate::text::{chars_of, find_char, pieces, slice_of, split_on, views};

verus! {

/// `s` begins with `pat`.
pub open spec fn begins(s: Seq<char>, pat: Seq<char>) -> bool {
    pat.len() <= s.len() && s.take(pat.len() as int) == pat
}

/// `s` ends with `pat`.
pub open spec fn ends(s: Seq<char>, pat: Seq<char>) -> bool {
    pat.len() <= s.len() && s.skip(s.len() - pat.len()) == pat
}

/// `pat` occurs in `s`.
pub open spec fn has(s: Seq<char>, pat: Seq<char>) -> bool {
    exists|i: int| 0 <= i <= s.len() && #[trigger] begins(s.skip(i), pat)
}

/// What stands in `s` before the first `sep`, all of it where there is none.
pub open spec fn head(s: Seq<char>, sep: Seq<char>) -> Seq<char>
    decreases s.len(),
{
    if s.len() == 0 || begins(s, sep) {
        Seq::empty()
    } else {
        seq![s[0]] + head(s.skip(1), sep)
    }
}

pub(crate) fn begins_at(v: &Vec<char>, i: usize, p: &Vec<char>) -> (r: bool)
    requires
        i <= v@.len(),
    ensures
        r == begins(v@.skip(i as int), p@),
{
    let n: usize = v.len();
    if p.len() > n - i {
        return false;
    }
    let ghost t = v@.skip(i as int).take(p@.len() as int);
    let mut k: usize = 0;
    while k < p.len()
        invariant
            n == v@.len(),
            i + p@.len() <= n,
            k <= p@.len(),
            t == v@.skip(i as int).take(p@.len() as int),
            forall|j: int| 0 <= j < k ==> #[trigger] t[j] == p@[j],
        decreases p@.len() - k,
    {
        assert(t[k as int] == v@[i + k]);
        if v[i + k] != p[k] {
            return false;
        }
        k = k + 1;
    }
    assert(t =~= p@);
    true
}

/// See [`begins`].
pub fn starts_with(s: &str, pat: &str) -> (r: bool)
    ensures
        r == begins(s@, pat@),
{
    let v = chars_of(s);
    let p = chars_of(pat);
    assert(v@.skip(0) =~= v@);
    begins_at(&v, 0, &p)
}

/// See [`ends`].
pub fn ends_with(s: &str, pat: &str) -> (r: bool)
    ensures
        r == ends(s@, pat@),
{
    let v = chars_of(s);
    let p = chars_of(pat);
    if p.len() > v.len() {
        return false;
    }
    let at: usize = v.len() - p.len();
    let ghost t = v@.skip(at as int);
    assert(t.take(p@.len() as int) =~= t);
    begins_at(&v, at, &p)
}

/// See [`has`].
pub fn contains(s: &str, pat: &str) -> (r: bool)
    ensures
        r == has(s@, pat@),
{
    let v = chars_of(s);
    let p = chars_of(pat);
    let mut i: usize = 0;
    loop
        invariant
            v@ == s@,
            p@ == pat@,
            i <= v@.len(),
            forall|j: int| 0 <= j < i ==> !#[trigger] begins(v@.skip(j), p@),
        decreases v@.len() - i,
    {
        if begins_at(&v, i, &p) {
            return true;
        }
        if i == v.len() {
            return false;
        }
        i = i + 1;
    }
}

/// See [`head`].
pub fn before(s: &str, sep: &str) -> (r: String)
    ensures
        r@ == head(s@, sep@),
{
    let v = chars_of(s);
    let p = chars_of(sep);
    let mut i: usize = 0;
    assert(v@.skip(0) =~= v@);
    assert(v@.take(0) + head(v@, p@) =~= head(v@, p@));
    while i < v.len() && !begins_at(&v, i, &p)
        invariant
            v@ == s@,
            p@ == sep@,
            i <= v@.len(),
            head(v@, p@) == v@.take(i as int) + head(v@.skip(i as int), p@),
        decreases v@.len() - i,
    {
        assert(v@.skip(i as int).skip(1) =~= v@.skip(i + 1));
        assert(v@.take(i as int) + (seq![v@[i as int]] + head(v@.skip(i + 1), p@)) =~= v@.take(i + 1)
            + head(v@.skip(i + 1), p@));
        i = i + 1;
    }
    assert(v@.take(i as int) + head(v@.skip(i as int), p@) =~= v@.subrange(0, i as int));
    slice_of(&v, 0, i)
}

/// `s` without `tail` at its end, `s` where it does not end with it.
pub open spec fn without_tail(s: Seq<char>, tail: Seq<char>) -> Seq<char> {
    if ends(s, tail) { s.take(s.len() - tail.len()) } else { s }
}

/// See [`without_tail`].
pub fn strip_tail(s: &str, tail: &str) -> (r: String)
    ensures
        r@ == without_tail(s@, tail@),
{
    let v = chars_of(s);
    let t = chars_of(tail);
    if ends_with(s, tail) {
        let n: usize = v.len() - t.len();
        assert(v@.subrange(0, n as int) =~= v@.take(n as int));
        slice_of(&v, 0, n)
    } else {
        assert(v@.subrange(0, v@.len() as int) =~= v@);
        slice_of(&v, 0, v.len())
    }
}

/// A line without the carriage return that stood before its line feed.
pub open spec fn without_return(s: Seq<char>) -> Seq<char> {
    if s.len() > 0 && s.last() == '\r' { s.drop_last() } else { s }
}

/// The lines of a text: each ends with a line feed, with or without a carriage
/// return before it; the last need not end.
pub open spec fn lines(s: Seq<char>) -> Seq<Seq<char>> {
    let p = pieces(s, '\n');
    let ended = Seq::new((p.len() - 1) as nat, |i: int| without_return(p[i]));
    if p.last().len() == 0 { ended } else { ended.push(p.last()) }
}

/// See [`lines`].
pub fn lines_of(s: &str) -> (r: Vec<String>)
    ensures
        views(r@) == lines(s@),
{
    let p = split_on(s, '\n');
    let n: usize = p.len();
    let mut out: Vec<String> = Vec::new();
    let mut i: usize = 0;
    while i < n - 1
        invariant
            n == p@.len(),
            n >= 1,
            i <= n - 1,
            out@.len() == i,
            forall|j: int| 0 <= j < i ==> (#[trigger] out@[j])@ == without_return(p@[j]@),
        decreases n - i,
    {
        let v = chars_of(p[i].as_str());
        if v.len() > 0 && v[v.len() - 1] == '\r' {
            assert(v@.subrange(0, v@.len() - 1) =~= v@.drop_last());
            out.push(slice_of(&v, 0, v.len() - 1));
        } else {
            out.push(p[i].clone());
        }
        i = i + 1;
    }
    let ghost q = pieces(s@, '\n');
    let ghost ended = Seq::new((q.len() - 1) as nat, |i: int| without_return(q[i]));
    assert(views(p@) == q);
    assert forall|j: int| 0 <= j < n - 1 implies out@[j]@ == without_return(q[j]) by {
        assert(views(p@)[j] == p@[j]@);
        assert(out@[j]@ == without_return(p@[j]@));
    }
    assert(views(out@) =~= ended);
    assert(q.last() == p@[n - 1]@);
    if !p[n - 1].as_str().is_empty() {
        let ghost was = out@;
        out.push(p[n - 1].clone());
        assert(views(out@) =~= ended.push(q.last()));
    }
    out
}

/// The first line, without the white space around it; nothing of an empty text.
pub open spec fn first_line(s: Seq<char>) -> Seq<char> {
    crate::text::trim(s.take(crate::text::place_of(s, '\n')))
}

/// See [`first_line`].
pub fn first_line_of(s: &str) -> (r: String)
    ensures
        r@ == first_line(s@),
{
    let v = chars_of(s);
    let n = find_char(&v, '\n');
    assert(v@.subrange(0, n as int) =~= v@.take(n as int));
    crate::text::trimmed(slice_of(&v, 0, n).as_str())
}

/// The first `n` characters, all of them where there are no more.
pub open spec fn at_most(s: Seq<char>, n: nat) -> Seq<char> {
    if s.len() <= n { s } else { s.take(n as int) }
}

/// See [`at_most`].
pub fn first_chars(s: &str, n: usize) -> (r: String)
    ensures
        r@ == at_most(s@, n as nat),
{
    let v = chars_of(s);
    if v.len() <= n {
        assert(v@.subrange(0, v@.len() as int) =~= v@);
        slice_of(&v, 0, v.len())
    } else {
        assert(v@.subrange(0, n as int) =~= v@.take(n as int));
        slice_of(&v, 0, n)
    }
}

/// What is found before a mark holds no such mark, and the mark or the end of the text
/// stands right behind it.
pub proof fn law_the_head_ends_at_the_first_mark(s: Seq<char>, sep: Seq<char>)
    requires
        sep.len() > 0,
    ensures
        ({
            let k = head(s, sep).len() as int;
            &&& 0 <= k <= s.len()
            &&& head(s, sep) == s.take(k)
            &&& k < s.len() ==> k + sep.len() <= s.len() && s.subrange(k, k + sep.len()) == sep
            &&& forall|i: int| 0 <= i < k ==> !(i + sep.len() <= s.len() && #[trigger] s.subrange(i, i + sep.len()) == sep)
        }),
    decreases s.len(),
{
    if s.len() == 0 {
    } else if begins(s, sep) {
        assert(s.subrange(0, sep.len() as int) =~= s.take(sep.len() as int));
    } else {
        let t = s.skip(1);
        law_the_head_ends_at_the_first_mark(t, sep);
        let k = head(t, sep).len() as int;
        assert(head(s, sep) =~= s.take(k + 1));
        if k < t.len() {
            assert(s.subrange(k + 1, k + 1 + sep.len()) =~= t.subrange(k, k + sep.len()));
        }
        assert forall|i: int| 0 <= i < k + 1 implies !(i + sep.len() <= s.len() && #[trigger] s.subrange(i, i + sep.len()) == sep) by {
            if i == 0 {
                if sep.len() <= s.len() {
                    assert(s.subrange(0, sep.len() as int) =~= s.take(sep.len() as int));
                }
            } else if i + sep.len() <= s.len() {
                assert(s.subrange(i, i + sep.len()) =~= t.subrange(i - 1, i - 1 + sep.len()));
            }
        }
    }
}

/// A text has another exactly where that stands somewhere in it, letter for letter.
pub proof fn law_what_is_found_stands_there(s: Seq<char>, pat: Seq<char>)
    ensures
        has(s, pat) <==> exists|k: int| 0 <= k <= s.len() - pat.len() && #[trigger] s.subrange(k, k + pat.len()) == pat,
{
    if has(s, pat) {
        let i = choose|i: int| 0 <= i <= s.len() && #[trigger] begins(s.skip(i), pat);
        assert(s.subrange(i, i + pat.len()) =~= s.skip(i).take(pat.len() as int));
    }
    if exists|k: int| 0 <= k <= s.len() - pat.len() && #[trigger] s.subrange(k, k + pat.len()) == pat {
        let k = choose|k: int| 0 <= k <= s.len() - pat.len() && #[trigger] s.subrange(k, k + pat.len()) == pat;
        assert(s.subrange(k, k + pat.len()) =~= s.skip(k).take(pat.len() as int));
        assert(begins(s.skip(k), pat));
    }
}

/// A tail that is there comes off and goes on again; what does not end with it stays.
pub proof fn law_a_tail_comes_off_once(s: Seq<char>, tail: Seq<char>)
    ensures
        without_tail(s + tail, tail) == s,
        !ends(s, tail) ==> without_tail(s, tail) == s,
{
    assert((s + tail).skip(s.len() as int) =~= tail);
    assert((s + tail).take(s.len() as int) =~= s);
}

/// The lines of a text without carriage returns are the pieces between its line feeds; a
/// last one that is empty is none.
pub proof fn law_lines_are_parted_by_line_feeds(s: Seq<char>)
    requires
        !s.contains('\r'),
    ensures
        ({
            let p = crate::text::pieces(s, '\n');
            &&& p.last().len() > 0 ==> lines(s) == p
            &&& p.last().len() == 0 ==> lines(s) == p.drop_last()
            &&& crate::text::join(p, seq!['\n']) == s
        }),
{
    crate::text::law_pieces_go_together_again(s, '\n');
    let p = crate::text::pieces(s, '\n');
    lemma_pieces_within(s, '\n');
    assert forall|k: int| 0 <= k < p.len() implies #[trigger] without_return(p[k]) == p[k] by {
        if p[k].len() > 0 {
            assert(s.contains(p[k][p[k].len() - 1]));
        }
    }
    let ended = Seq::new((p.len() - 1) as nat, |i: int| without_return(p[i]));
    assert(ended =~= p.drop_last());
    assert(p.drop_last().push(p.last()) =~= p);
}

proof fn lemma_pieces_within(s: Seq<char>, c: char)
    ensures
        crate::text::pieces(s, c).len() > 0,
        forall|k: int, i: int|
            0 <= k < crate::text::pieces(s, c).len() && 0 <= i < crate::text::pieces(s, c)[k].len() ==> s.contains(
                #[trigger] crate::text::pieces(s, c)[k][i],
            ),
    decreases s.len(),
{
    if s.len() > 0 {
        let t = s.drop_last();
        let p = crate::text::pieces(s, c);
        let front = crate::text::pieces(t, c);
        lemma_pieces_within(t, c);
        assert forall|k: int, i: int| 0 <= k < p.len() && 0 <= i < p[k].len() implies s.contains(#[trigger] p[k][i]) by {
            if k < front.len() && i < front[k].len() {
                assert(p[k][i] == front[k][i]);
                assert(t.contains(front[k][i]));
                let j = choose|j: int| 0 <= j < t.len() && t[j] == front[k][i];
                assert(s[j] == p[k][i]);
            } else {
                assert(p[k][i] == s[s.len() - 1]);
            }
        }
    }
}

/// A line that ends with a carriage return before its line feed ends before both.
pub proof fn law_a_line_ends_before_its_return(s: Seq<char>)
    ensures
        without_return(s.push('\r')) == s,
        !s.contains('\r') ==> without_return(s) == s,
{
    assert(s.push('\r').drop_last() =~= s);
    if s.len() > 0 && s.last() == '\r' {
        assert(s[s.len() - 1] == '\r');
    }
}

/// A text that is held to a length begins as the whole does, and is whole where it fits.
pub proof fn law_a_held_text_begins_alike(s: Seq<char>, n: nat)
    ensures
        at_most(s, n).len() <= n,
        at_most(s, n) == s.take(at_most(s, n).len() as int),
        s.len() <= n ==> at_most(s, n) == s,
        s.len() > n ==> at_most(s, n).len() == n,
{
    assert(s.take(s.len() as int) =~= s);
}

} // verus!
