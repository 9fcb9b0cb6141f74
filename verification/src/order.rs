//! The order of texts and of numbers, and putting lists in order.

use vstd::prelude::*;
use crate::text::{chars_of, views};

verus! {

/// `a` stands before `b`: by the first character in which they differ, a text
/// before the longer ones that it begins.
pub open spec fn precedes(a: Seq<char>, b: Seq<char>) -> bool
    decreases a.len(),
{
    if b.len() == 0 {
        false
    } else if a.len() == 0 {
        true
    } else if a[0] != b[0] {
        (a[0] as int) < (b[0] as int)
    } else {
        precedes(a.skip(1), b.skip(1))
    }
}

fn code(c: char) -> (n: u32)
    ensures
        n == c as int,
{
    c as u32
}

/// See [`precedes`].
pub fn is_before(a: &str, b: &str) -> (r: bool)
    ensures
        r == precedes(a@, b@),
{
    let x = chars_of(a);
    let y = chars_of(b);
    let mut i: usize = 0;
    assert(x@.skip(0) =~= x@);
    assert(y@.skip(0) =~= y@);
    loop
        invariant
            x@ == a@,
            y@ == b@,
            i <= x@.len(),
            i <= y@.len(),
            precedes(x@, y@) == precedes(x@.skip(i as int), y@.skip(i as int)),
        decreases x@.len() - i,
    {
        if i == y.len() {
            return false;
        }
        if i == x.len() {
            return true;
        }
        let (c, d) = (x[i], y[i]);
        if c != d {
            return code(c) < code(d);
        }
        assert(x@.skip(i as int).skip(1) =~= x@.skip(i + 1));
        assert(y@.skip(i as int).skip(1) =~= y@.skip(i + 1));
        i = i + 1;
    }
}

/// The order is total: of two texts one precedes the other, or they are the same.
pub proof fn lemma_total(a: Seq<char>, b: Seq<char>)
    ensures
        precedes(a, b) || precedes(b, a) || a == b,
        !(precedes(a, b) && precedes(b, a)),
        precedes(a, b) ==> a != b,
    decreases a.len(),
{
    if a.len() == 0 || b.len() == 0 {
        if a.len() == 0 && b.len() == 0 {
            assert(a =~= b);
        }
    } else {
        lemma_total(a.skip(1), b.skip(1));
        if a[0] == b[0] && a.skip(1) == b.skip(1) {
            assert(a =~= seq![a[0]] + a.skip(1));
            assert(b =~= seq![b[0]] + b.skip(1));
        }
    }
}

/// What precedes a text precedes everything behind that text.
pub proof fn lemma_transitive(a: Seq<char>, b: Seq<char>, c: Seq<char>)
    requires
        !precedes(b, a),
        !precedes(c, b),
    ensures
        !precedes(c, a),
    decreases a.len(),
{
    if a.len() > 0 && b.len() > 0 && c.len() > 0 && a[0] == b[0] && b[0] == c[0] {
        lemma_transitive(a.skip(1), b.skip(1), c.skip(1));
    }
}

/// Where an item with key `k` goes in a list of items in order: behind every item
/// whose key it does not precede.
pub open spec fn slot(keys: Seq<Seq<char>>, list: Seq<int>, k: Seq<char>) -> int
    decreases list.len(),
{
    if list.len() > 0 && precedes(k, keys[list.last()]) {
        slot(keys, list.drop_last(), k)
    } else {
        list.len() as int
    }
}

/// The places of the first `n` keys in the order of the keys; equal keys keep the
/// order in which they stand.
pub open spec fn order(keys: Seq<Seq<char>>, n: nat) -> Seq<int>
    decreases n,
{
    if n == 0 {
        Seq::empty()
    } else {
        let rest = order(keys, (n - 1) as nat);
        rest.insert(slot(keys, rest, keys[n - 1]), n - 1)
    }
}

/// Places as numbers.
pub open spec fn places(v: Seq<usize>) -> Seq<int> {
    Seq::new(v.len(), |i: int| v[i] as int)
}

proof fn lemma_slot(keys: Seq<Seq<char>>, list: Seq<int>, k: Seq<char>)
    ensures
        0 <= slot(keys, list, k) <= list.len(),
    decreases list.len(),
{
    if list.len() > 0 && precedes(k, keys[list.last()]) {
        lemma_slot(keys, list.drop_last(), k);
    }
}

/// The places of `keys` in order.
pub fn order_of(keys: &Vec<String>) -> (r: Vec<usize>)
    ensures
        places(r@) == order(views(keys@), keys@.len()),
        r@.len() == keys@.len(),
        forall|i: int| 0 <= i < r@.len() ==> #[trigger] r@[i] < keys@.len(),
{
    let mut out: Vec<usize> = Vec::new();
    let mut n: usize = 0;
    assert(places(out@) =~= Seq::<int>::empty());
    while n < keys.len()
        invariant
            n <= keys@.len(),
            out@.len() == n,
            places(out@) == order(views(keys@), n as nat),
            forall|i: int| 0 <= i < n ==> #[trigger] out@[i] < n,
        decreases keys@.len() - n,
    {
        let ghost list = places(out@);
        let ghost k = keys@[n as int]@;
        assert(views(keys@)[n as int] == k);
        let mut at: usize = n;
        assert(list.take(n as int) =~= list);
        while at > 0 && is_before(keys[n].as_str(), keys[out[at - 1]].as_str())
            invariant
                n < keys@.len(),
                at <= n,
                out@.len() == n,
                list == places(out@),
                k == keys@[n as int]@,
                forall|i: int| 0 <= i < n ==> #[trigger] out@[i] < n,
                slot(views(keys@), list, k) == slot(views(keys@), list.take(at as int), k),
            decreases at,
        {
            let ghost t = list.take(at as int);
            assert(t.last() == out@[at - 1]);
            assert(t.drop_last() =~= list.take(at - 1));
            assert(views(keys@)[t.last()] == keys@[out@[at - 1] as int]@);
            at = at - 1;
        }
        proof {
            let t = list.take(at as int);
            if at > 0 {
                assert(t.last() == out@[at - 1]);
                assert(views(keys@)[t.last()] == keys@[out@[at - 1] as int]@);
            }
            assert(slot(views(keys@), list, k) == at);
        }
        let ghost was = out@;
        out.insert(at, n);
        assert(places(out@) =~= list.insert(at as int, n as int));
        assert forall|i: int| 0 <= i < n + 1 implies #[trigger] out@[i] < n + 1 by {
            if i < at {
                assert(out@[i] == was[i]);
            } else if i > at {
                assert(out@[i] == was[i - 1]);
            }
        }
        n = n + 1;
    }
    out
}

/// The list holds each of the first `n` places once.
pub open spec fn all_places(list: Seq<int>, n: nat) -> bool {
    &&& list.len() == n
    &&& list.no_duplicates()
    &&& forall|i: int| 0 <= i < list.len() ==> 0 <= #[trigger] list[i] < n
}

/// The list goes up in the order of the keys; equal keys stand in the order of
/// their places.
pub open spec fn goes_up(keys: Seq<Seq<char>>, list: Seq<int>) -> bool {
    forall|i: int, j: int|
        0 <= i < j < list.len() ==> {
            &&& !precedes(keys[#[trigger] list[j]], keys[#[trigger] list[i]])
            &&& keys[list[i]] == keys[list[j]] ==> list[i] < list[j]
        }
}

proof fn lemma_slot_splits(keys: Seq<Seq<char>>, list: Seq<int>, k: Seq<char>)
    requires
        goes_up(keys, list),
    ensures
        0 <= slot(keys, list, k) <= list.len(),
        forall|i: int| 0 <= i < slot(keys, list, k) ==> !precedes(k, keys[#[trigger] list[i]]),
        forall|i: int| slot(keys, list, k) <= i < list.len() ==> precedes(k, keys[#[trigger] list[i]]),
    decreases list.len(),
{
    if list.len() > 0 && precedes(k, keys[list.last()]) {
        let front = list.drop_last();
        assert(goes_up(keys, front)) by {
            assert forall|i: int, j: int| 0 <= i < j < front.len() implies {
                &&& !precedes(keys[#[trigger] front[j]], keys[#[trigger] front[i]])
                &&& keys[front[i]] == keys[front[j]] ==> front[i] < front[j]
            } by {
                assert(front[i] == list[i] && front[j] == list[j]);
            }
        }
        lemma_slot_splits(keys, front, k);
        let s = slot(keys, list, k);
        assert forall|i: int| 0 <= i < s implies !precedes(k, keys[#[trigger] list[i]]) by {
            assert(front[i] == list[i]);
        }
        assert forall|i: int| s <= i < list.len() implies precedes(k, keys[#[trigger] list[i]]) by {
            if i < front.len() {
                assert(front[i] == list[i]);
            }
        }
    } else if list.len() > 0 {
        assert forall|i: int| 0 <= i < list.len() implies !precedes(k, keys[#[trigger] list[i]]) by {
            if i < list.len() - 1 {
                assert(!precedes(keys[list[list.len() - 1]], keys[list[i]]));
                lemma_transitive(keys[list[i]], keys[list.last()], k);
            }
        }
    }
}

/// Putting a list in order loses nothing and invents nothing, the keys then go
/// up, and equal keys keep the order in which they stood.
pub proof fn law_order_sorts(keys: Seq<Seq<char>>, n: nat)
    requires
        n <= keys.len(),
    ensures
        all_places(order(keys, n), n),
        goes_up(keys, order(keys, n)),
    decreases n,
{
    if n > 0 {
        let m = (n - 1) as nat;
        law_order_sorts(keys, m);
        let rest = order(keys, m);
        let k = keys[n - 1];
        lemma_slot_splits(keys, rest, k);
        let s = slot(keys, rest, k);
        let out = rest.insert(s, n - 1);
        assert forall|i: int| 0 <= i < out.len() implies out[i] == (if i < s { rest[i] } else if i == s { n - 1 } else { rest[i - 1] }) by {}
        assert forall|i: int| 0 <= i < out.len() implies 0 <= #[trigger] out[i] < n by {
            if i < s {
                assert(0 <= rest[i] < m);
            } else if i > s {
                assert(0 <= rest[i - 1] < m);
            }
        }
        assert forall|i: int, j: int| 0 <= i < out.len() && 0 <= j < out.len() && i != j implies out[i] != out[j] by {
            let a = if i < s { i } else { i - 1 };
            let b = if j < s { j } else { j - 1 };
            if i != s {
                assert(0 <= rest[a] < m);
            }
            if j != s {
                assert(0 <= rest[b] < m);
            }
            if i != s && j != s {
                assert(a != b);
                assert(rest[a] != rest[b]);
            }
        }
        assert forall|i: int, j: int| 0 <= i < j < out.len() implies {
            &&& !precedes(keys[#[trigger] out[j]], keys[#[trigger] out[i]])
            &&& keys[out[i]] == keys[out[j]] ==> out[i] < out[j]
        } by {
            let a = if i < s { i } else { i - 1 };
            let b = if j < s { j } else { j - 1 };
            if i != s && j != s {
                assert(out[i] == rest[a] && out[j] == rest[b]);
                assert(a < b);
                assert(!precedes(keys[rest[b]], keys[rest[a]]));
            } else if j == s {
                assert(out[i] == rest[i]);
                assert(!precedes(k, keys[rest[i]]));
                assert(0 <= rest[i] < m);
            } else {
                assert(out[j] == rest[j - 1]);
                assert(precedes(k, keys[rest[j - 1]]));
                lemma_total(k, keys[rest[j - 1]]);
            }
        }
    }
}

/// Where an item with number `k` goes in a list of items in order: behind every
/// item whose number is not above it.
pub open spec fn num_slot(keys: Seq<int>, list: Seq<int>, k: int) -> int
    decreases list.len(),
{
    if list.len() > 0 && k < keys[list.last()] {
        num_slot(keys, list.drop_last(), k)
    } else {
        list.len() as int
    }
}

/// The places of the first `n` numbers from the lowest up; equal numbers keep the
/// order in which they stand.
pub open spec fn num_order(keys: Seq<int>, n: nat) -> Seq<int>
    decreases n,
{
    if n == 0 {
        Seq::empty()
    } else {
        let rest = num_order(keys, (n - 1) as nat);
        rest.insert(num_slot(keys, rest, keys[n - 1]), n - 1)
    }
}

/// Numbers as they are.
pub open spec fn nums(v: Seq<u64>) -> Seq<int> {
    Seq::new(v.len(), |i: int| v[i] as int)
}

/// The places of `keys` from the lowest up.
pub fn order_of_nums(keys: &Vec<u64>) -> (r: Vec<usize>)
    ensures
        places(r@) == num_order(nums(keys@), keys@.len()),
        r@.len() == keys@.len(),
        forall|i: int| 0 <= i < r@.len() ==> #[trigger] r@[i] < keys@.len(),
{
    let mut out: Vec<usize> = Vec::new();
    let mut n: usize = 0;
    assert(places(out@) =~= Seq::<int>::empty());
    while n < keys.len()
        invariant
            n <= keys@.len(),
            out@.len() == n,
            places(out@) == num_order(nums(keys@), n as nat),
            forall|i: int| 0 <= i < n ==> #[trigger] out@[i] < n,
        decreases keys@.len() - n,
    {
        let ghost list = places(out@);
        let ghost k = keys@[n as int] as int;
        assert(nums(keys@)[n as int] == k);
        let mut at: usize = n;
        assert(list.take(n as int) =~= list);
        while at > 0 && keys[n] < keys[out[at - 1]]
            invariant
                n < keys@.len(),
                at <= n,
                out@.len() == n,
                list == places(out@),
                k == keys@[n as int],
                forall|i: int| 0 <= i < n ==> #[trigger] out@[i] < n,
                num_slot(nums(keys@), list, k) == num_slot(nums(keys@), list.take(at as int), k),
            decreases at,
        {
            let ghost t = list.take(at as int);
            assert(t.last() == out@[at - 1]);
            assert(t.drop_last() =~= list.take(at - 1));
            assert(nums(keys@)[t.last()] == keys@[out@[at - 1] as int]);
            at = at - 1;
        }
        proof {
            let t = list.take(at as int);
            if at > 0 {
                assert(t.last() == out@[at - 1]);
                assert(nums(keys@)[t.last()] == keys@[out@[at - 1] as int]);
            }
            assert(num_slot(nums(keys@), list, k) == at);
        }
        let ghost was = out@;
        out.insert(at, n);
        assert(places(out@) =~= list.insert(at as int, n as int));
        assert forall|i: int| 0 <= i < n + 1 implies #[trigger] out@[i] < n + 1 by {
            if i < at {
                assert(out@[i] == was[i]);
            } else if i > at {
                assert(out@[i] == was[i - 1]);
            }
        }
        n = n + 1;
    }
    out
}

/// The list goes up by number; equal numbers stand in the order of their places.
pub open spec fn climbs(keys: Seq<int>, list: Seq<int>) -> bool {
    forall|i: int, j: int|
        0 <= i < j < list.len() ==> {
            &&& keys[#[trigger] list[i]] <= keys[#[trigger] list[j]]
            &&& keys[list[i]] == keys[list[j]] ==> list[i] < list[j]
        }
}

proof fn lemma_num_slot(keys: Seq<int>, list: Seq<int>, k: int)
    requires
        climbs(keys, list),
    ensures
        0 <= num_slot(keys, list, k) <= list.len(),
        forall|i: int| 0 <= i < num_slot(keys, list, k) ==> keys[#[trigger] list[i]] <= k,
        forall|i: int| num_slot(keys, list, k) <= i < list.len() ==> k < keys[#[trigger] list[i]],
    decreases list.len(),
{
    if list.len() > 0 && k < keys[list.last()] {
        let front = list.drop_last();
        assert(climbs(keys, front)) by {
            assert forall|i: int, j: int| 0 <= i < j < front.len() implies {
                &&& keys[#[trigger] front[i]] <= keys[#[trigger] front[j]]
                &&& keys[front[i]] == keys[front[j]] ==> front[i] < front[j]
            } by {
                assert(front[i] == list[i] && front[j] == list[j]);
            }
        }
        lemma_num_slot(keys, front, k);
        let s = num_slot(keys, list, k);
        assert forall|i: int| 0 <= i < s implies keys[#[trigger] list[i]] <= k by {
            assert(front[i] == list[i]);
        }
        assert forall|i: int| s <= i < list.len() implies k < keys[#[trigger] list[i]] by {
            if i < front.len() {
                assert(front[i] == list[i]);
            }
        }
    } else if list.len() > 0 {
        assert forall|i: int| 0 <= i < list.len() implies keys[#[trigger] list[i]] <= k by {
            if i < list.len() - 1 {
                assert(keys[list[i]] <= keys[list[list.len() - 1]]);
            }
        }
    }
}

/// Putting numbers in order loses nothing and invents nothing, the numbers then
/// go up, and equal ones keep the order in which they stood.
pub proof fn law_num_order_sorts(keys: Seq<int>, n: nat)
    requires
        n <= keys.len(),
    ensures
        all_places(num_order(keys, n), n),
        climbs(keys, num_order(keys, n)),
    decreases n,
{
    if n > 0 {
        let m = (n - 1) as nat;
        law_num_order_sorts(keys, m);
        let rest = num_order(keys, m);
        let k = keys[n - 1];
        lemma_num_slot(keys, rest, k);
        let s = num_slot(keys, rest, k);
        let out = rest.insert(s, n - 1);
        assert forall|i: int| 0 <= i < out.len() implies 0 <= #[trigger] out[i] < n by {
            if i < s {
                assert(out[i] == rest[i]);
                assert(0 <= rest[i] < m);
            } else if i > s {
                assert(out[i] == rest[i - 1]);
                assert(0 <= rest[i - 1] < m);
            }
        }
        assert forall|i: int, j: int| 0 <= i < out.len() && 0 <= j < out.len() && i != j implies out[i] != out[j] by {
            let a = if i < s { i } else { i - 1 };
            let b = if j < s { j } else { j - 1 };
            if i != s {
                assert(out[i] == rest[a]);
                assert(0 <= rest[a] < m);
            }
            if j != s {
                assert(out[j] == rest[b]);
                assert(0 <= rest[b] < m);
            }
            if i != s && j != s {
                assert(a != b);
                assert(rest[a] != rest[b]);
            }
        }
        assert forall|i: int, j: int| 0 <= i < j < out.len() implies {
            &&& keys[#[trigger] out[i]] <= keys[#[trigger] out[j]]
            &&& keys[out[i]] == keys[out[j]] ==> out[i] < out[j]
        } by {
            let a = if i < s { i } else { i - 1 };
            let b = if j < s { j } else { j - 1 };
            if i != s && j != s {
                assert(out[i] == rest[a] && out[j] == rest[b]);
                assert(a < b);
                assert(keys[rest[a]] <= keys[rest[b]]);
            } else if j == s {
                assert(out[i] == rest[i]);
                assert(keys[rest[i]] <= k);
                assert(0 <= rest[i] < m);
            } else {
                assert(out[j] == rest[j - 1]);
                assert(k < keys[rest[j - 1]]);
            }
        }
    }
}

/// A list of places taken in the order of another list.
pub open spec fn through(outer: Seq<int>, inner: Seq<int>) -> Seq<int> {
    Seq::new(inner.len(), |i: int| outer[inner[i]])
}

/// Places that go up.
pub open spec fn rising(idx: Seq<int>) -> bool {
    forall|i: int, j: int| 0 <= i < j < idx.len() ==> #[trigger] idx[i] < #[trigger] idx[j]
}

/// One place more, behind all others, leaves the places going up.
pub proof fn lemma_rising_push(idx: Seq<int>, n: int)
    requires
        rising(idx),
        forall|k: int| 0 <= k < idx.len() ==> #[trigger] idx[k] < n,
    ensures
        rising(idx.push(n)),
        forall|i: int| #[trigger] idx.contains(i) ==> idx.push(n).contains(i),
        idx.push(n).contains(n),
{
    let more = idx.push(n);
    assert(more[idx.len() as int] == n);
    assert forall|i: int| #[trigger] idx.contains(i) implies more.contains(i) by {
        let k = choose|k: int| 0 <= k < idx.len() && idx[k] == i;
        assert(more[k] == i);
    }
}

/// A text stands before another where, behind what they begin with alike, it has the
/// lower character or nothing more; and never both ways.
pub proof fn law_texts_stand_by_their_first_difference(common: Seq<char>, x: char, y: char, a: Seq<char>, b: Seq<char>)
    requires
        (x as int) < (y as int),
    ensures
        precedes(common + seq![x] + a, common + seq![y] + b),
        !precedes(common + seq![y] + b, common + seq![x] + a),
        precedes(common, common + seq![y] + b),
        !precedes(common + seq![y] + b, common),
        !precedes(common, common),
    decreases common.len(),
{
    let (s, t) = (common + seq![x] + a, common + seq![y] + b);
    if common.len() > 0 {
        let c = common.skip(1);
        law_texts_stand_by_their_first_difference(c, x, y, a, b);
        assert(s.skip(1) =~= c + seq![x] + a);
        assert(t.skip(1) =~= c + seq![y] + b);
        assert(s[0] == common[0] && t[0] == common[0]);
    } else {
        assert(s[0] == x && t[0] == y);
    }
}

} // verus!
