//! How fast files move: the difference between two looks at a byte counter,
//! smoothed so that a healthy transfer does not flicker to nothing.

use vstd::prelude::*;
use crate::double::{gradual, of_nat, ordinary, product, quotient, Double};
use crate::text::{dec, push_dec, same};

verus! {

/// One file's byte counter as it was the last time it was looked at. Moments are
/// in nanoseconds.
#[derive(Debug)]
pub struct Sample {
    pub key: String,
    pub done: u64,
    pub at: u64,
    pub rate: Double,
}

/// What a sample holds.
#[verifier::ext_equal]
pub struct SampleView {
    pub key: Seq<char>,
    pub done: nat,
    pub at: nat,
    pub rate: Double,
}

impl View for Sample {
    type V = SampleView;

    open spec fn view(&self) -> SampleView {
        SampleView { key: self.key@, done: self.done as nat, at: self.at as nat, rate: self.rate }
    }
}

/// The samples as they are.
pub open spec fn samples_view(v: Seq<Sample>) -> Seq<SampleView> {
    Seq::new(v.len(), |i: int| v[i]@)
}

/// What a new rate is worked out from: bytes moved and time passed.
#[derive(Clone, Copy, Debug, PartialEq, Eq, Structural)]
pub struct Moved {
    pub bytes: u64,
    pub nanos: u64,
}

/// A file that moves now: its sample, and what its rate is to be worked out from
/// where that is due.
#[derive(Debug)]
pub struct Looked {
    pub sample: Sample,
    pub due: Option<Moved>,
}

/// How long a sample stands at least: a quarter of a second.
pub const STANDS: u64 = 250_000_000;

/// What was last seen of a file; of one not seen before, what is seen now.
pub open spec fn last_seen(table: Seq<SampleView>, key: Seq<char>, done: nat, now: nat) -> SampleView
    decreases table.len(),
{
    if table.len() == 0 {
        SampleView { key, done, at: now, rate: Double { neg: false, m: 0, e: 0 } }
    } else if table[0].key == key {
        table[0]
    } else {
        last_seen(table.skip(1), key, done, now)
    }
}

/// The difference where it is positive.
pub open spec fn above(a: nat, b: nat) -> nat {
    if a > b { (a - b) as nat } else { 0 }
}

/// A file's sample after a look at it, and what moved where the old sample has
/// stood long enough.
pub open spec fn look(table: Seq<SampleView>, key: Seq<char>, done: nat, now: nat) -> (SampleView, Option<(nat, nat)>) {
    let seen = last_seen(table, key, done, now);
    let passed = above(now, seen.at);
    if passed >= STANDS {
        (
            SampleView { key: seen.key, done, at: now, rate: seen.rate },
            Some((above(done, seen.done), passed)),
        )
    } else {
        (seen, None)
    }
}

/// What moved, as two numbers.
pub open spec fn moved_view(m: Option<Moved>) -> Option<(nat, nat)> {
    match m {
        Some(m) => Some((m.bytes as nat, m.nanos as nat)),
        None => None,
    }
}

/// The byte counter of a file that moves: where it is listed twice, the first.
pub open spec fn first_done(live: Seq<(String, u64)>, key: Seq<char>) -> nat
    decreases live.len(),
{
    if live.len() == 0 {
        0
    } else if live[0].0@ == key {
        live[0].1 as nat
    } else {
        first_done(live.skip(1), key)
    }
}

fn done_of(live: &Vec<(String, u64)>, key: &str) -> (r: u64)
    ensures
        r == first_done(live@, key@),
{
    let mut i: usize = 0;
    assert(live@.skip(0) =~= live@);
    while i < live.len()
        invariant
            i <= live@.len(),
            first_done(live@, key@) == first_done(live@.skip(i as int), key@),
        decreases live@.len() - i,
    {
        assert(live@.skip(i as int)[0] == live@[i as int]);
        assert(live@.skip(i as int).skip(1) =~= live@.skip(i + 1));
        if same(live[i].0.as_str(), key) {
            return live[i].1;
        }
        i = i + 1;
    }
    0
}

/// A look at every file that moves now; files that do not are forgotten.
pub open spec fn looks(table: Seq<SampleView>, live: Seq<(String, u64)>, now: nat) -> Seq<(SampleView, Option<(nat, nat)>)> {
    Seq::new(live.len(), |i: int| look(table, live[i].0@, first_done(live, live[i].0@), now))
}

/// The looks as they are.
pub open spec fn looked_view(v: Seq<Looked>) -> Seq<(SampleView, Option<(nat, nat)>)> {
    Seq::new(v.len(), |i: int| (v[i].sample@, moved_view(v[i].due)))
}

fn look_at(table: &Vec<Sample>, key: &String, done: u64, now: u64) -> (r: Looked)
    ensures
        (r.sample@, moved_view(r.due)) == look(samples_view(table@), key@, done as nat, now as nat),
{
    let ghost all = samples_view(table@);
    let mut seen = Sample { key: key.clone(), done, at: now, rate: Double::zero() };
    let mut i: usize = 0;
    let mut found: bool = false;
    assert(all.skip(0) =~= all);
    while i < table.len() && !found
        invariant
            i <= table@.len(),
            all == samples_view(table@),
            found ==> seen@ == last_seen(all, key@, done as nat, now as nat),
            !found ==> last_seen(all, key@, done as nat, now as nat) == last_seen(
                all.skip(i as int),
                key@,
                done as nat,
                now as nat,
            ),
            !found ==> seen@ == (SampleView {
                key: key@,
                done: done as nat,
                at: now as nat,
                rate: Double { neg: false, m: 0, e: 0 },
            }),
        decreases table@.len() - i,
    {
        assert(all.skip(i as int)[0] == table@[i as int]@);
        assert(all.skip(i as int).skip(1) =~= all.skip(i + 1));
        let t = &table[i];
        if same(t.key.as_str(), key.as_str()) {
            seen = Sample { key: t.key.clone(), done: t.done, at: t.at, rate: t.rate };
            found = true;
        }
        i = i + 1;
    }
    let nanos: u64 = if now > seen.at { now - seen.at } else { 0 };
    if nanos >= STANDS {
        let bytes: u64 = if done > seen.done { done - seen.done } else { 0 };
        Looked {
            sample: Sample { key: seen.key, done, at: now, rate: seen.rate },
            due: Some(Moved { bytes, nanos }),
        }
    } else {
        Looked { sample: seen, due: None }
    }
}

/// See [`looks`].
pub fn sample_rates(table: &Vec<Sample>, live: &Vec<(String, u64)>, now: u64) -> (r: Vec<Looked>)
    ensures
        looked_view(r@) == looks(samples_view(table@), live@, now as nat),
{
    let mut out: Vec<Looked> = Vec::new();
    let mut i: usize = 0;
    while i < live.len()
        invariant
            i <= live@.len(),
            out@.len() == i,
            forall|j: int| 0 <= j < i ==> ((#[trigger] out@[j]).sample@, moved_view(out@[j].due)) == look(
                samples_view(table@),
                live@[j].0@,
                first_done(live@, live@[j].0@),
                now as nat,
            ),
        decreases live@.len() - i,
    {
        out.push(look_at(table, &live[i].0, done_of(live, live[i].0.as_str()), now));
        i = i + 1;
    }
    assert(looked_view(out@) =~= looks(samples_view(table@), live@, now as nat));
    out
}

/// Nanoseconds as seconds.
pub open spec fn seconds(nanos: nat) -> Double {
    Double::joined(of_nat(nanos / 1_000_000_000), quotient(of_nat(nanos % 1_000_000_000), of_nat(1_000_000_000)))
}

/// Six tenths and four tenths.
pub open spec fn weights() -> (Double, Double) {
    (
        Double { neg: false, m: 0x13_3333_3333_3333u64, e: -53i32 },
        Double { neg: false, m: 0x19_9999_9999_999au64, e: -54i32 },
    )
}

/// A rate after something moved: six parts of the old rate to four of the new,
/// the new alone where there was none.
pub open spec fn blended(rate: Double, bytes: nat, nanos: nat) -> Double {
    let instant = quotient(of_nat(bytes), seconds(nanos));
    if rate.m == 0 {
        instant
    } else {
        Double::joined(gradual(rate, weights().0), product(instant, weights().1))
    }
}

/// See [`blended`].
pub fn blend(rate: &Double, moved: &Moved) -> (r: Double)
    requires
        ordinary(*rate),
        !rate.neg,
        moved.nanos >= STANDS,
    ensures
        r == blended(*rate, moved.bytes as nat, moved.nanos as nat),
        ordinary(r),
        !r.neg,
{
    let whole = Double::from_u64(moved.nanos / 1_000_000_000);
    let part = Double::from_u64(moved.nanos % 1_000_000_000).div(&Double::from_u64(1_000_000_000));
    let s = whole.join(&part);
    assert(s.m > 0) by {
        if whole.m == 0 {
            assert(moved.nanos / 1_000_000_000 == 0);
            assert(moved.nanos % 1_000_000_000 > 0);
        }
    }
    let instant = Double::from_u64(moved.bytes).div(&s);
    if rate.m == 0 {
        return instant;
    }
    let old = Double { neg: false, m: 0x13_3333_3333_3333u64, e: -53i32 };
    let new = Double { neg: false, m: 0x19_9999_9999_999au64, e: -54i32 };
    rate.mul_gradually(&old).join(&instant.mul(&new))
}

/// The bytes per second that a rate shows: whole ones, held to sixty-four bits.
pub open spec fn shown_rate(rate: Double) -> nat {
    if rate.floor() > u64::MAX { u64::MAX as nat } else { rate.floor() }
}

/// See [`shown_rate`].
pub fn whole_rate(rate: &Double) -> (r: u64)
    requires
        rate.wf(),
    ensures
        r == shown_rate(*rate),
{
    if rate.at_least(u64::MAX) {
        return u64::MAX;
    }
    assert(rate.e <= 60) by {
        if rate.e > 60 {
            rate.lemma_large_floor();
        }
    }
    rate.to_floor() as u64
}

/// A file's sample after a look at it, its rate worked out where that is due.
pub open spec fn smoothed(look: (SampleView, Option<(nat, nat)>)) -> SampleView {
    match look.1 {
        Some((bytes, nanos)) => SampleView { rate: blended(look.0.rate, bytes, nanos), ..look.0 },
        None => look.0,
    }
}

/// The samples of the files that move now.
pub open spec fn next_table(table: Seq<SampleView>, live: Seq<(String, u64)>, now: nat) -> Seq<SampleView> {
    Seq::new(live.len(), |i: int| smoothed(looks(table, live, now)[i]))
}

/// The rates that some samples show.
pub open spec fn shown_rates(table: Seq<SampleView>) -> Seq<(Seq<char>, nat)> {
    Seq::new(table.len(), |i: int| (table[i].key, shown_rate(table[i].rate)))
}

/// Every rate is a double of sixty-four bits that is not below zero.
pub open spec fn rates_ok(table: Seq<SampleView>) -> bool {
    forall|i: int| 0 <= i < table.len() ==> ordinary((#[trigger] table[i]).rate) && !table[i].rate.neg
}

/// Keyed rates as they read.
pub open spec fn keyed_view(v: Seq<(String, u64)>) -> Seq<(Seq<char>, nat)> {
    Seq::new(v.len(), |i: int| (v[i].0@, v[i].1 as nat))
}

proof fn lemma_last_seen_ok(table: Seq<SampleView>, key: Seq<char>, done: nat, now: nat)
    requires
        rates_ok(table),
    ensures
        ordinary(last_seen(table, key, done, now).rate),
        !last_seen(table, key, done, now).rate.neg,
    decreases table.len(),
{
    if table.len() > 0 {
        assert(ordinary(table[0].rate));
        assert forall|i: int| 0 <= i < table.skip(1).len() implies ordinary((#[trigger] table.skip(1)[i]).rate)
            && !table.skip(1)[i].rate.neg by {
            assert(table.skip(1)[i] == table[i + 1]);
        }
        lemma_last_seen_ok(table.skip(1), key, done, now);
    }
}

/// Looks at every file that moves now, and gives the rate of each in bytes per second:
/// see [`next_table`] and [`shown_rate`].
pub fn next_rates(table: &mut Vec<Sample>, live: &Vec<(String, u64)>, now: u64) -> (r: Vec<(String, u64)>)
    requires
        rates_ok(samples_view(old(table)@)),
    ensures
        samples_view(final(table)@) == next_table(samples_view(old(table)@), live@, now as nat),
        rates_ok(samples_view(final(table)@)),
        keyed_view(r@) == shown_rates(samples_view(final(table)@)),
{
    let ghost before = samples_view(table@);
    let looked = sample_rates(table, live, now);
    let ghost all = looks(before, live@, now as nat);
    assert(looked_view(looked@).len() == all.len());
    let mut next: Vec<Sample> = Vec::new();
    let mut out: Vec<(String, u64)> = Vec::new();
    let mut i: usize = 0;
    while i < looked.len()
        invariant
            i <= looked@.len(),
            looked@.len() == live@.len(),
            rates_ok(before),
            all == looks(before, live@, now as nat),
            looked_view(looked@) == all,
            next@.len() == i,
            out@.len() == i,
            forall|j: int|
                0 <= j < i ==> {
                    &&& (#[trigger] next@[j])@ == smoothed(all[j])
                    &&& ordinary(next@[j].rate) && !next@[j].rate.neg
                },
            forall|j: int|
                0 <= j < i ==> (#[trigger] out@[j]).0@ == next@[j].key@ && out@[j].1 == shown_rate(next@[j].rate),
        decreases looked@.len() - i,
    {
        let l = &looked[i];
        assert((l.sample@, moved_view(l.due)) == all[i as int]) by {
            assert(looked_view(looked@)[i as int] == (l.sample@, moved_view(l.due)));
        }
        proof {
            let key = live@[i as int].0@;
            assert(all[i as int] == look(before, key, first_done(live@, key), now as nat));
            lemma_last_seen_ok(before, key, first_done(live@, key), now as nat);
        }
        let rate = match &l.due {
            Some(m) => blend(&l.sample.rate, m),
            None => l.sample.rate,
        };
        out.push((l.sample.key.clone(), whole_rate(&rate)));
        next.push(Sample { key: l.sample.key.clone(), done: l.sample.done, at: l.sample.at, rate });
        assert(next@[i as int]@ == smoothed(all[i as int]));
        i = i + 1;
    }
    assert(samples_view(next@) =~= next_table(before, live@, now as nat));
    assert(keyed_view(out@) =~= shown_rates(samples_view(next@)));
    *table = next;
    out
}

/// The key of an upload among the files that move.
pub fn upload_key(id: u64) -> (r: String)
    ensures
        r@ == "up:"@ + dec(id as nat),
{
    let mut s = "up:".to_owned();
    push_dec(&mut s, id);
    s
}

/// The key of a send among the files that move.
pub fn send_key(row: i64) -> (r: String)
    ensures
        r@ == "tx:"@ + crate::text::dec_int(row as int),
{
    let mut s = "tx:".to_owned();
    crate::text::push_dec_int(&mut s, row);
    s
}

/// A file that was just seen for the first time, or a moment ago, keeps its rate;
/// nothing that moved is lost when the next rate is worked out.
pub proof fn law_an_early_look_changes_nothing(table: Seq<SampleView>, key: Seq<char>, done: nat, now: nat)
    requires
        above(now, last_seen(table, key, done, now).at) < STANDS,
    ensures
        look(table, key, done, now) == (last_seen(table, key, done, now), None::<(nat, nat)>),
{
}

/// What was last seen of a file is its own sample; a file not seen before starts with what
/// is seen now.
pub proof fn law_a_sample_is_found_by_its_key(table: Seq<SampleView>, key: Seq<char>, done: nat, now: nat)
    ensures
        (exists|i: int|
            0 <= i < table.len() && (#[trigger] table[i]).key == key && last_seen(table, key, done, now) == table[i] && forall|j: int|
                0 <= j < i ==> !((#[trigger] table[j]).key == key)) || ((forall|i: int| 0 <= i < table.len() ==> !((#[trigger] table[i]).key == key)) && last_seen(table, key, done, now) == (SampleView { key, done, at: now, rate: Double { neg: false, m: 0, e: 0 } })),
    decreases table.len(),
{
    if table.len() > 0 {
        if table[0].key == key {
            assert(table[0].key == key && last_seen(table, key, done, now) == table[0]);
        } else {
            let rest = table.skip(1);
            law_a_sample_is_found_by_its_key(rest, key, done, now);
            assert forall|i: int| 0 <= i < rest.len() implies (#[trigger] rest[i]) == table[i + 1] by {}
            if exists|i: int|
            0 <= i < rest.len() && (#[trigger] rest[i]).key == key && last_seen(rest, key, done, now) == rest[i] && forall|j: int|
                0 <= j < i ==> !((#[trigger] rest[j]).key == key) {
                let i = choose|i: int|
                    0 <= i < rest.len() && (#[trigger] rest[i]).key == key && last_seen(rest, key, done, now) == rest[i] && forall|j: int|
                        0 <= j < i ==> !((#[trigger] rest[j]).key == key);
                assert(table[i + 1].key == key && last_seen(table, key, done, now) == table[i + 1]);
                assert forall|j: int| 0 <= j < i + 1 implies !((#[trigger] table[j]).key == key) by {
                    if j > 0 {
                        assert(!(rest[j - 1].key == key));
                    }
                }
            } else {
                assert forall|i: int| 0 <= i < table.len() implies !((#[trigger] table[i]).key == key) by {
                    if i > 0 {
                        assert(!(rest[i - 1].key == key));
                    }
                }
            }
        }
    }
}

/// Of a file that is listed twice the first counter counts.
pub proof fn law_the_first_counter_of_a_file_counts(live: Seq<(String, u64)>, key: Seq<char>)
    ensures
        (exists|i: int|
            0 <= i < live.len() && (#[trigger] live[i]).0@ == key && first_done(live, key) == live[i].1 as nat && forall|j: int|
                0 <= j < i ==> !((#[trigger] live[j]).0@ == key)) || ((forall|i: int| 0 <= i < live.len() ==> !((#[trigger] live[i]).0@ == key)) && first_done(live, key) == 0),
    decreases live.len(),
{
    if live.len() > 0 {
        if live[0].0@ == key {
            assert(live[0].0@ == key && first_done(live, key) == live[0].1 as nat);
        } else {
            let rest = live.skip(1);
            law_the_first_counter_of_a_file_counts(rest, key);
            assert forall|i: int| 0 <= i < rest.len() implies (#[trigger] rest[i]) == live[i + 1] by {}
            if exists|i: int|
            0 <= i < rest.len() && (#[trigger] rest[i]).0@ == key && first_done(rest, key) == rest[i].1 as nat && forall|j: int|
                0 <= j < i ==> !((#[trigger] rest[j]).0@ == key) {
                let i = choose|i: int|
                    0 <= i < rest.len() && (#[trigger] rest[i]).0@ == key && first_done(rest, key) == rest[i].1 as nat && forall|j: int|
                        0 <= j < i ==> !((#[trigger] rest[j]).0@ == key);
                assert(live[i + 1].0@ == key && first_done(live, key) == live[i + 1].1 as nat);
                assert forall|j: int| 0 <= j < i + 1 implies !((#[trigger] live[j]).0@ == key) by {
                    if j > 0 {
                        assert(!(rest[j - 1].0@ == key));
                    }
                }
            } else {
                assert forall|i: int| 0 <= i < live.len() implies !((#[trigger] live[i]).0@ == key) by {
                    if i > 0 {
                        assert(!(rest[i - 1].0@ == key));
                    }
                }
            }
        }
    }
}


/// A sample stands until it has stood long enough; then the new one takes its place, and
/// what moved since is what the counter gained over the time that passed.
pub proof fn law_what_moved_is_the_gain_over_the_time(table: Seq<SampleView>, key: Seq<char>, done: nat, now: nat)
    ensures
        ({
            let (old, (s, due)) = (last_seen(table, key, done, now), look(table, key, done, now));
            &&& s.rate == old.rate && s.key == old.key
            &&& now < old.at + STANDS ==> due is None && s == old
            &&& now >= old.at + STANDS && STANDS > 0 ==> s.done == done && s.at == now && (due matches Some((bytes, nanos)) && nanos == now - old.at && (done
                >= old.done ==> bytes == done - old.done) && (done < old.done ==> bytes == 0))
        }),
{
}

/// Every file that moves now has its sample, in order, and no other has one; a rate that is
/// not due stays as it was, and the first that is due is what moved over the time.
pub proof fn law_only_files_that_move_are_kept(table: Seq<SampleView>, live: Seq<(String, u64)>, now: nat, i: int)
    requires
        0 <= i < live.len(),
    ensures
        next_table(table, live, now).len() == live.len(),
        next_table(table, live, now)[i].key == last_seen(table, live[i].0@, first_done(live, live[i].0@), now).key,
        ({
            let (s, due) = look(table, live[i].0@, first_done(live, live[i].0@), now);
            let t = next_table(table, live, now)[i];
            &&& t.done == s.done && t.at == s.at
            &&& due is None ==> t.rate == s.rate
            &&& due matches Some((bytes, nanos)) ==> (s.rate.m == 0 ==> t.rate == quotient(of_nat(bytes), seconds(nanos)))
        }),
        shown_rates(next_table(table, live, now))[i].1 <= u64::MAX,
{
}

/// Nanoseconds are whole seconds and what is left of one; a rate that is known keeps six
/// parts of itself against four of the new one.
pub proof fn law_nanoseconds_are_seconds_and_a_rest(whole: nat, rest: nat, rate: Double, bytes: nat, nanos: nat)
    requires
        rest < 1_000_000_000,
        rate.m > 0,
    ensures
        seconds(whole * 1_000_000_000 + rest) == Double::joined(of_nat(whole), quotient(of_nat(rest), of_nat(1_000_000_000))),
        blended(rate, bytes, nanos) == Double::joined(
            gradual(rate, (Double { neg: false, m: 0x13_3333_3333_3333u64, e: -53i32 })),
            product(quotient(of_nat(bytes), seconds(nanos)), (Double { neg: false, m: 0x19_9999_9999_999au64, e: -54i32 })),
        ),
{
    let n = whole * 1_000_000_000 + rest;
    assert(n / 1_000_000_000 == whole && n % 1_000_000_000 == rest);
}

} // verus!
