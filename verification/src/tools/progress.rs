//! How far a job is: fractions of its share of the whole, never going back.

use vstd::prelude::*;
use crate::double::{below, hundred, of_nat, ordinary, product, quotient, Double, Number};
use crate::status::figures::opt_string;
use crate::text::{
    all_digits, cut, dec, is_digit, join, join_strings, place_of, push_dec, split_once, trim, trim_start, trimmed, views,
};
use crate::tools::media::{human_bytes, human_text};

verus! {

/// A step's share of its job: where it begins and how much it is.
#[derive(Clone, Copy, Debug)]
pub struct Share {
    pub base: Double,
    pub span: Double,
}

/// A double that is not negative and neither huge nor tiny.
pub open spec fn moderate(d: Double) -> bool {
    d.wf() && !d.neg && -400 <= d.e <= 100
}

impl Share {
    /// Both figures are moderate.
    pub open spec fn wf(&self) -> bool {
        moderate(self.base) && moderate(self.span)
    }

    /// How far the job is when the step is at the fraction `f`.
    pub open spec fn at(&self, f: Double) -> Double {
        Double::joined(self.base, product(f, self.span))
    }

    /// How far the job is when the step is done.
    pub open spec fn end(&self) -> Double {
        Double::joined(self.base, self.span)
    }

    /// See [`Share::at`].
    pub fn reached(&self, f: &Double) -> (r: Double)
        requires
            self.wf(),
            moderate(*f),
        ensures
            r == self.at(*f),
            r.wf(),
            !r.neg,
    {
        let x = f.mul(&self.span);
        self.base.join(&x)
    }

    /// See [`Share::end`].
    pub fn done(&self) -> (r: Double)
        requires
            self.wf(),
        ensures
            r == self.end(),
            r.wf(),
            !r.neg,
    {
        self.base.join(&self.span)
    }
}

/// The share of step `i` of `n`.
pub open spec fn share_of(i: nat, n: nat) -> Share {
    Share { base: quotient(of_nat(i), of_nat(n)), span: quotient(of_nat(1), of_nat(n)) }
}

/// The share of step `i` of a job of `n` steps.
pub fn step_share(i: u64, n: u64) -> (r: Share)
    requires
        n > 0,
    ensures
        r == share_of(i as nat, n as nat),
        r.wf(),
{
    let d = Double::from_u64(n);
    Share { base: Double::from_u64(i).div(&d), span: Double::from_u64(1).div(&d) }
}

/// `i` of `n` done, as a fraction.
pub open spec fn part(i: nat, n: nat) -> Double {
    quotient(of_nat(i), of_nat(n))
}

/// See [`part`].
pub fn part_of(i: u64, n: u64) -> (r: Double)
    requires
        n > 0,
    ensures
        r == part(i as nat, n as nat),
        moderate(r),
{
    Double::from_u64(i).div(&Double::from_u64(n))
}

/// Whether a fraction is news: it lies above the last one that was reported. So
/// what is reported never goes back.
pub fn is_news(last: &Double, f: &Double) -> (r: bool)
    requires
        last.wf(),
        f.wf(),
        !last.neg,
    ensures
        r == (!f.neg && below(*last, *f)),
{
    !f.neg && last.is_below(f)
}

/// What a line of the download's output says.
#[derive(Debug)]
pub enum Heard {
    /// A file is written here.
    Dest(String),
    /// Item `n` of `m` begins.
    Item(u32, u32),
    /// How far the item is, its size and its speed.
    Stats(Double, Option<u64>, Option<u64>),
    /// Nothing of interest.
    Other,
}

/// A download as far as its output has told.
#[derive(Debug)]
pub struct Download {
    pub item: u32,
    pub items: u32,
    pub last: Double,
    pub dests: Vec<String>,
}

impl Download {
    /// There is at least one item, and the last fraction is in order.
    pub open spec fn wf(&self) -> bool {
        self.items >= 1 && self.last.wf() && !self.last.neg
    }

    /// A download before its first line.
    pub fn new() -> (r: Download)
        ensures
            r.wf(),
            r.item == 0,
            r.items == 1,
            r.last == (Double { neg: false, m: 0, e: 0 }),
            r.dests@ == Seq::<String>::empty(),
    {
        Download { item: 0, items: 1, last: Double::zero(), dests: Vec::new() }
    }
}

/// How far a download is: the items before this one and the fraction of this one,
/// over all items.
pub open spec fn overall(item: int, items: int, frac: Double) -> Double {
    let past = if item > 0 { item - 1 } else { 0 };
    quotient(Double::joined(of_nat(past as nat), frac), of_nat(items as nat))
}

/// The bytes that a fraction of a size makes.
pub open spec fn bytes_done(frac: Double, total: nat) -> nat {
    let t = product(frac, of_nat(total)).floor();
    if t > u64::MAX { u64::MAX as nat } else { t }
}

/// The parts of the line that tells how a download goes.
pub open spec fn progress_parts(
    whole: Double,
    item: int,
    items: int,
    frac: Double,
    total: Option<u64>,
    speed: Option<u64>,
) -> Seq<Seq<char>> {
    let a = seq![product(whole, hundred()).text(0) + "%"@];
    let b = if items > 1 { a.push("item "@ + dec(item as nat) + "/"@ + dec(items as nat)) } else { a };
    let c = match total {
        Some(t) => b.push(human_text(bytes_done(frac, t as nat)) + " / "@ + human_text(t as nat)),
        None => b,
    };
    match speed {
        Some(s) => c.push(human_text(s as nat) + "/s"@),
        None => c,
    }
}

/// The line that tells how a download goes, with the title behind it.
pub open spec fn progress_line(parts: Seq<Seq<char>>, title: Seq<char>) -> Seq<char> {
    let s = join(parts, " · "@);
    if title.len() == 0 { s } else { s + " — "@ + title }
}

/// Whether a new figure is worth a write: it never goes back, and one that says
/// the same waits until a write is due.
pub open spec fn worth(last: Double, now: Double, due: bool) -> bool {
    !below(now, last) && (due || below(last, now))
}

fn to_bytes(frac: &Double, total: u64) -> (r: u64)
    requires
        moderate(*frac),
    ensures
        r == bytes_done(*frac, total as nat),
{
    let x = frac.mul(&Double::from_u64(total));
    if x.at_least(u64::MAX) {
        u64::MAX
    } else {
        assert(x.floor() < u64::MAX);
        assert(x.e <= 70) by {
            if x.e > 60 {
                x.lemma_large_floor();
            }
        }
        x.to_floor() as u64
    }
}

fn push_parts(d: &Download, whole: &Double, frac: &Double, total: Option<u64>, speed: Option<u64>) -> (r: Vec<String>)
    requires
        whole.wf(),
        !whole.neg,
        -1500 <= whole.e <= 1400,
        moderate(*frac),
    ensures
        views(r@) == progress_parts(*whole, d.item as int, d.items as int, *frac, total, speed),
{
    let mut parts: Vec<String> = Vec::new();
    let mut s = String::new();
    whole.mul(&Double::hundred()).push_text(&mut s, 0);
    assert(s@ =~= product(*whole, hundred()).text(0));
    s.append("%");
    let ghost first = s@;
    parts.push(s);
    let ghost a = seq![first];
    assert(views(parts@) =~= a);
    if d.items > 1 {
        let mut s = "item ".to_owned();
        push_dec(&mut s, d.item as u64);
        s.append("/");
        push_dec(&mut s, d.items as u64);
        let ghost t = s@;
        let ghost was = views(parts@);
        parts.push(s);
        assert(views(parts@) =~= was.push(t));
    }
    match total {
        Some(t) => {
            let mut s = human_bytes(to_bytes(frac, t));
            s.append(" / ");
            let h = human_bytes(t);
            s.append(h.as_str());
            let ghost x = s@;
            let ghost was = views(parts@);
            parts.push(s);
            assert(views(parts@) =~= was.push(x));
        },
        None => {},
    }
    match speed {
        Some(v) => {
            let mut s = human_bytes(v);
            s.append("/s");
            let ghost x = s@;
            let ghost was = views(parts@);
            parts.push(s);
            assert(views(parts@) =~= was.push(x));
        },
        None => {},
    }
    parts
}

impl Download {
    /// Takes in one line of the download's output. What comes back is how far the
    /// download is and what to say of it, where that is worth a write; `due` says
    /// that the last write lies a quarter of a second back.
    pub fn hear(&mut self, heard: Heard, title: &str, due: bool) -> (r: Option<(Double, String)>)
        requires
            old(self).wf(),
            heard matches Heard::Stats(f, _, _) ==> moderate(f),
        ensures
            final(self).wf(),
            match heard {
                Heard::Dest(p) => {
                    &&& r is None
                    &&& final(self).dests@ == old(self).dests@.push(p)
                    &&& final(self).item == old(self).item
                    &&& final(self).items == old(self).items
                    &&& final(self).last == old(self).last
                },
                Heard::Item(n, m) => {
                    &&& r is None
                    &&& final(self).item == n
                    &&& final(self).items == (if m == 0 { 1 } else { m as int })
                    &&& final(self).last == old(self).last
                    &&& final(self).dests@ == old(self).dests@
                },
                Heard::Stats(f, total, speed) => {
                    let whole = overall(old(self).item as int, old(self).items as int, f);
                    &&& final(self).item == old(self).item
                    &&& final(self).items == old(self).items
                    &&& final(self).dests@ == old(self).dests@
                    &&& r is Some <==> worth(old(self).last, whole, due)
                    &&& final(self).last == (if r is Some { whole } else { old(self).last })
                    &&& r matches Some((now, line)) ==> {
                        &&& now == whole
                        &&& line@ == progress_line(
                            progress_parts(whole, old(self).item as int, old(self).items as int, f, total, speed),
                            title@,
                        )
                    }
                },
                Heard::Other => r is None && *final(self) == *old(self),
            },
    {
        match heard {
            Heard::Dest(p) => {
                self.dests.push(p);
                None
            },
            Heard::Item(n, m) => {
                self.item = n;
                self.items = if m == 0 { 1 } else { m };
                None
            },
            Heard::Stats(f, total, speed) => {
                let past: u32 = if self.item > 0 { self.item - 1 } else { 0 };
                let whole = Double::from_u64(past as u64).join(&f).div(&Double::from_u64(self.items as u64));
                if whole.is_below(&self.last) || (!due && !self.last.is_below(&whole)) {
                    return None;
                }
                self.last = whole;
                let parts = push_parts(self, &whole, &f, total, speed);
                let mut line = join_strings(&parts, " · ");
                if !title.is_empty() {
                    line.append(" — ");
                    line.append(title);
                }
                Some((whole, line))
            },
            Heard::Other => None,
        }
    }
}

/// Hours, minutes and seconds of the moment at which a transcribed line begins,
/// as they are written: `[00:01:23.400 --> …]`.
pub open spec fn stamp(line: Seq<char>) -> Option<(Seq<char>, Seq<char>, Seq<char>)> {
    let t = trim_start(line);
    if t.len() == 0 || t[0] != '[' {
        None
    } else {
        match cut(t.skip(1), ':') {
            None => None,
            Some((h, rest)) => match cut(rest, ':') {
                None => None,
                Some((m, rest)) => {
                    let a = place_of(rest, ' ');
                    let b = place_of(rest, ']');
                    Some((trim(h), m, rest.take(if a < b { a } else { b })))
                },
            },
        }
    }
}

fn after_bracket(line: &str) -> (r: Option<String>)
    ensures
        opt_string(r) == (if trim_start(line@).len() == 0 || trim_start(line@)[0] != '[' {
            None
        } else {
            Some(trim_start(line@).skip(1))
        }),
{
    let v = crate::text::chars_of(line);
    let n: usize = v.len();
    let mut i: usize = 0;
    assert(v@.skip(0) =~= v@);
    while i < n && crate::text::space(v[i])
        invariant
            n == v@.len(),
            i <= n,
            trim_start(v@) == trim_start(v@.skip(i as int)),
        decreases n - i,
    {
        assert(v@.skip(i as int)[0] == v@[i as int]);
        assert(v@.skip(i as int).skip(1) =~= v@.skip(i + 1));
        i = i + 1;
    }
    if i < n {
        assert(v@.skip(i as int)[0] == v@[i as int]);
        if v[i] == '[' {
            assert(v@.skip(i as int).skip(1) =~= v@.subrange(i + 1, n as int));
            return Some(crate::text::slice_of(&v, i + 1, n));
        }
    }
    None
}

/// The three texts of a stamp.
pub open spec fn stamp_view(p: Option<(String, String, String)>) -> Option<(Seq<char>, Seq<char>, Seq<char>)> {
    match p {
        Some((h, m, s)) => Some((h@, m@, s@)),
        None => None,
    }
}

/// See [`stamp`].
pub fn whisper_stamp(line: &str) -> (r: Option<(String, String, String)>)
    ensures
        stamp_view(r) == stamp(line@),
{
    let t = match after_bracket(line) {
        Some(t) => t,
        None => {
            return None;
        },
    };
    match split_once(t.as_str(), ':') {
        None => None,
        Some((h, rest)) => match split_once(rest.as_str(), ':') {
            None => None,
            Some((m, rest)) => {
                let v = crate::text::chars_of(rest.as_str());
                let a = crate::text::find_char(&v, ' ');
                let b = crate::text::find_char(&v, ']');
                let n: usize = if a < b { a } else { b };
                assert(v@.subrange(0, n as int) =~= v@.take(n as int));
                Some((trimmed(h.as_str()), m, crate::text::slice_of(&v, 0, n)))
            },
        },
    }
}

/// The moment of a stamp in seconds.
pub open spec fn stamp_seconds(h: Double, m: Double, s: Double) -> Double {
    Double::joined(Double::joined(product(h, of_nat(3600)), product(m, of_nat(60))), s)
}

/// One.
pub open spec fn one() -> Double {
    of_nat(1)
}

/// How far a transcription is that has come to the moment of a stamp: never more
/// than the whole.
pub open spec fn heard_of(h: Double, m: Double, s: Double, length: Double) -> Double {
    let f = quotient(stamp_seconds(h, m, s), length);
    if below(one(), f) { one() } else { f }
}

/// See [`heard_of`]. `length` is the length of the recording in seconds.
pub fn transcribed(h: &Double, m: &Double, s: &Double, length: &Double) -> (r: Double)
    requires
        ordinary(*h) && !h.neg,
        ordinary(*m) && !m.neg,
        ordinary(*s) && !s.neg,
        ordinary(*length) && !length.neg,
        length.m > 0,
    ensures
        r == heard_of(*h, *m, *s, *length),
        r.wf(),
        !r.neg,
        !below(one(), r),
{
    let a = h.mul(&Double::from_u64(3600));
    let b = m.mul(&Double::from_u64(60));
    let t = a.join(&b).join(s);
    let f = t.div(length);
    let unit = Double::from_u64(1);
    if unit.is_below(&f) {
        proof {
            lemma_one_is_whole();
        }
        unit
    } else {
        f
    }
}

/// A number that is not below zero.
pub open spec fn counts(n: Number) -> bool {
    match n {
        Number::Finite(d) => !d.neg || d.m == 0,
        Number::Infinite(neg) => !neg,
        Number::Nan => false,
    }
}

/// A finite number without its sign.
pub open spec fn unsigned(n: Number) -> Double {
    Double { neg: false, ..n->Finite_0 }
}

/// How far a transcription is by the figures of a stamp: nothing is said where the
/// recording has no length, where a figure is below zero or no number, and where both
/// the moment and the length are infinite.
pub open spec fn told_by(h: Number, m: Number, s: Number, length: Number) -> Option<Double> {
    let endless = h is Infinite || m is Infinite || s is Infinite;
    if !counts(h) || !counts(m) || !counts(s) || !counts(length) {
        None
    } else if length is Infinite {
        if endless { None } else { Some(Double { neg: false, m: 0, e: 0 }) }
    } else if length->Finite_0.m == 0 {
        None
    } else if endless {
        Some(one())
    } else {
        Some(heard_of(unsigned(h), unsigned(m), unsigned(s), unsigned(length)))
    }
}

fn figure(n: &Number) -> (r: Option<Option<Double>>)
    requires
        n.wf(),
    ensures
        r is Some <==> counts(*n),
        r matches Some(d) ==> (d is None <==> *n is Infinite),
        r matches Some(Some(d)) ==> d == unsigned(*n) && ordinary(d),
{
    match n {
        Number::Finite(d) => if d.neg && d.m != 0 {
            None
        } else {
            Some(Some(Double { neg: false, m: d.m, e: d.e }))
        },
        Number::Infinite(neg) => if *neg { None } else { Some(None) },
        Number::Nan => None,
    }
}

/// See [`told_by`].
pub fn heard_until(h: &Number, m: &Number, s: &Number, length: &Number) -> (r: Option<Double>)
    requires
        h.wf(),
        m.wf(),
        s.wf(),
        length.wf(),
    ensures
        r == told_by(*h, *m, *s, *length),
        r matches Some(f) ==> f.wf() && !f.neg && !below(one(), f),
{
    match (figure(h), figure(m), figure(s), figure(length)) {
        (Some(h), Some(m), Some(s), Some(length)) => match (h, m, s, length) {
            (Some(h), Some(m), Some(s), Some(length)) => if length.m == 0 {
                None
            } else {
                Some(transcribed(&h, &m, &s, &length))
            },
            (Some(_), Some(_), Some(_), None) => {
                proof {
                    let u = one();
                    assert(!below(u, Double { neg: false, m: 0, e: 0 })) by {
                        let d = crate::double::down(u.e - 0);
                        assert(0 * d == 0) by (nonlinear_arith);
                    }
                }
                Some(Double::zero())
            },
            (_, _, _, None) => None,
            (_, _, _, Some(length)) => if length.m == 0 {
                None
            } else {
                proof {
                    lemma_one_is_whole();
                }
                Some(Double::from_u64(1))
            },
        },
        _ => None,
    }
}

proof fn lemma_one_is_whole()
    ensures
        !below(one(), one()),
{
    let e = one().e - one().e;
    assert(e == 0);
    assert(crate::double::up(0) == crate::double::down(0)) by {
        reveal_with_fuel(crate::double::p2, 2);
    }
}

/// The moment at which a transcribed line begins reads as it is written, between the bracket
/// and the arrow.
pub proof fn law_a_stamp_reads_as_written(h: Seq<char>, m: Seq<char>, s: Seq<char>, tail: Seq<char>)
    requires
        h.len() > 0 && all_digits(h),
        all_digits(m),
        !s.contains(' ') && !s.contains(']'),
    ensures
        stamp(seq!['['] + h + seq![':'] + m + seq![':'] + s + seq![' '] + tail) == Some((h, m, s)),
        stamp(seq!['['] + h + seq![':'] + m + seq![':'] + s + seq![']'] + tail) == Some((h, m, s)),
        stamp(h + seq![':'] + m + seq![':'] + s + tail) is None,
{
    lemma_stamp(h, m, s, ' ', tail);
    lemma_stamp(h, m, s, ']', tail);
    let t = h + seq![':'] + m + seq![':'] + s + tail;
    assert(is_digit(h[0]));
    assert(t[0] == h[0]);
    reveal_with_fuel(trim_start, 2);
}

proof fn lemma_stamp(h: Seq<char>, m: Seq<char>, s: Seq<char>, c: char, tail: Seq<char>)
    requires
        h.len() > 0 && all_digits(h),
        all_digits(m),
        !s.contains(' ') && !s.contains(']'),
        c == ' ' || c == ']',
    ensures
        stamp(seq!['['] + h + seq![':'] + m + seq![':'] + s + seq![c] + tail) == Some((h, m, s)),
{
    let line = seq!['['] + h + seq![':'] + m + seq![':'] + s + seq![c] + tail;
    reveal_with_fuel(trim_start, 2);
    assert(line[0] == '[');
    assert(trim_start(line) == line);
    let r3 = s + seq![c] + tail;
    let r2 = m + seq![':'] + r3;
    let r1 = h + seq![':'] + r2;
    assert(line.skip(1) =~= r1);
    lemma_cut_digits(h, r2);
    lemma_cut_digits(m, r3);
    let d = if c == ' ' { ']' } else { ' ' };
    lemma_place_after(s, c, seq![c] + tail);
    assert(s + (seq![c] + tail) =~= r3);
    crate::text::lemma_place_of(r3, c);
    crate::text::lemma_place_of(r3, d);
    assert(place_of(r3, d) >= s.len()) by {
        if place_of(r3, d) < s.len() {
            assert(s[place_of(r3, d)] == d);
        }
    }
    assert(r3.take(s.len() as int) =~= s);
    lemma_digits_untrimmed(h);
}

proof fn lemma_place_after(s: Seq<char>, c: char, rest: Seq<char>)
    requires
        !s.contains(c),
        rest.len() > 0,
        rest[0] == c,
    ensures
        place_of(s + rest, c) == s.len(),
{
    let t = s + rest;
    crate::text::lemma_place_of(t, c);
    let k = place_of(t, c);
    if k < s.len() {
        assert(s[k] == c);
    }
    if k > s.len() {
        assert(t[s.len() as int] == c);
    }
}

proof fn lemma_cut_digits(h: Seq<char>, rest: Seq<char>)
    requires
        all_digits(h),
    ensures
        cut(h + seq![':'] + rest, ':') == Some((h, rest)),
{
    let t = h + seq![':'] + rest;
    assert forall|i: int| 0 <= i < h.len() implies h[i] != ':' by {
        assert(is_digit(h[i]));
    }
    lemma_place_after(h, ':', seq![':'] + rest);
    assert(h + (seq![':'] + rest) =~= t);
    assert(t.take(h.len() as int) =~= h);
    assert(t.skip(h.len() as int + 1) =~= rest);
}

proof fn lemma_digits_untrimmed(h: Seq<char>)
    requires
        h.len() > 0 && all_digits(h),
    ensures
        trim(h) == h,
{
    assert(is_digit(h[0]) && is_digit(h[h.len() - 1]));
    reveal_with_fuel(trim_start, 2);
    reveal_with_fuel(crate::text::trim_end, 2);
}

/// A figure is written only where it does not go back, and where it says the same only when
/// a write is due.
pub proof fn law_a_figure_never_goes_back(last: Double, now: Double)
    ensures
        below(now, last) ==> !worth(last, now, true) && !worth(last, now, false),
        !below(now, last) ==> worth(last, now, true),
        worth(last, now, false) ==> below(last, now),
{
}

/// The line of a download has its per cent first, then which item it is where there are
/// several, how much of how much where the size is known, and how fast where that is known.
pub proof fn law_a_download_says_how_it_goes(
    whole: Double,
    item: int,
    items: int,
    frac: Double,
    total: Option<u64>,
    speed: Option<u64>,
)
    ensures
        ({
            let p = progress_parts(whole, item, items, frac, total, speed);
            let (i, t, s) = (
                if items > 1 { 1int } else { 0 },
                if total is Some { 1int } else { 0 },
                if speed is Some { 1int } else { 0 },
            );
            &&& p.len() == 1 + i + t + s
            &&& p[0] == product(whole, hundred()).text(0) + "%"@
            &&& items > 1 ==> p[1] == "item "@ + dec(item as nat) + "/"@ + dec(items as nat)
            &&& total matches Some(n) ==> p[1 + i] == human_text(bytes_done(frac, n as nat)) + " / "@ + human_text(n as nat)
            &&& speed matches Some(n) ==> p.last() == human_text(n as nat) + "/s"@
        }),
{
}

/// What is heard of a recording is never more than all of it, and nothing is said of one
/// without a length or of a moment that is below zero or no number.
pub proof fn law_no_more_is_heard_than_there_is(h: Number, m: Number, s: Number, length: Number)
    ensures
        told_by(h, m, s, length) matches Some(f) ==> f == of_nat(1) || !below(of_nat(1), f) || length is Infinite,
        length is Nan || h is Nan || m is Nan || s is Nan ==> told_by(h, m, s, length) is None,
        length matches Number::Finite(d) ==> (d.m == 0 || d.neg ==> told_by(h, m, s, length) is None),
        h matches Number::Finite(d) ==> (d.neg && d.m > 0 ==> told_by(h, m, s, length) is None),
        m matches Number::Finite(d) ==> (d.neg && d.m > 0 ==> told_by(h, m, s, length) is None),
        s matches Number::Finite(d) ==> (d.neg && d.m > 0 ==> told_by(h, m, s, length) is None),
{
}

/// The line of a download is its parts with points between them, and the title behind a dash
/// where there is one.
pub proof fn law_a_title_stands_behind_the_progress(parts: Seq<Seq<char>>, title: Seq<char>)
    ensures
        progress_line(parts, Seq::empty()) == join(parts, " · "@),
        title.len() > 0 ==> progress_line(parts, title) == join(parts, " · "@) + " — "@ + title,
{
}

/// How far a download is: the items that are done and the fraction of this one, over all; and
/// a stamp's moment is its hours, minutes and seconds together.
pub proof fn law_a_download_is_as_far_as_its_items(item: int, items: int, frac: Double, h: Double, m: Double, s: Double)
    ensures
        item >= 1 ==> overall(item, items, frac) == quotient(Double::joined(of_nat((item - 1) as nat), frac), of_nat(items as nat)),
        item <= 0 ==> overall(item, items, frac) == quotient(Double::joined(of_nat(0), frac), of_nat(items as nat)),
        stamp_seconds(h, m, s) == Double::joined(Double::joined(product(h, of_nat(3600)), product(m, of_nat(60))), s),
        bytes_done(frac, items as nat) <= u64::MAX,
        product(frac, of_nat(items as nat)).floor() <= u64::MAX ==> bytes_done(frac, items as nat) == product(frac, of_nat(items as nat)).floor(),
        share_of(0, 1) == (Share { base: quotient(of_nat(0), of_nat(1)), span: quotient(of_nat(1), of_nat(1)) }),
{
}

} // verus!
