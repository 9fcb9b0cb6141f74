//! Values kept under names, one for each name.

use vstd::prelude::*;
use crate::text::same;

verus! {

/// Values under names.
#[derive(Debug)]
pub struct Table<V> {
    pub rows: Vec<(String, V)>,
}

/// The value that some rows hold under a name.
pub open spec fn look<V>(rows: Seq<(String, V)>, k: Seq<char>) -> Option<V>
    decreases rows.len(),
{
    if rows.len() == 0 {
        None
    } else if rows[0].0@ == k {
        Some(rows[0].1)
    } else {
        look(rows.skip(1), k)
    }
}

proof fn lemma_look_update<V>(rows: Seq<(String, V)>, i: int, row: (String, V), k: Seq<char>)
    requires
        0 <= i < rows.len(),
        rows[i].0@ == row.0@,
        forall|j: int| 0 <= j < i ==> (#[trigger] rows[j]).0@ != row.0@,
    ensures
        look(rows.update(i, row), k) == (if k == row.0@ { Some(row.1) } else { look(rows, k) }),
    decreases i,
{
    let n = rows.update(i, row);
    if i == 0 {
        assert(n.skip(1) =~= rows.skip(1));
    } else {
        assert(n[0] == rows[0]);
        assert(rows[0].0@ != row.0@);
        assert(n.skip(1) =~= rows.skip(1).update(i - 1, row));
        assert forall|j: int| 0 <= j < i - 1 implies (#[trigger] rows.skip(1)[j]).0@ != row.0@ by {
            assert(rows[j + 1].0@ != row.0@);
        }
        lemma_look_update(rows.skip(1), i - 1, row, k);
    }
}

proof fn lemma_look_push<V>(rows: Seq<(String, V)>, row: (String, V), k: Seq<char>)
    requires
        forall|j: int| 0 <= j < rows.len() ==> (#[trigger] rows[j]).0@ != row.0@,
    ensures
        look(rows.push(row), k) == (if k == row.0@ { Some(row.1) } else { look(rows, k) }),
    decreases rows.len(),
{
    let n = rows.push(row);
    if rows.len() == 0 {
        assert(n.skip(1) =~= Seq::<(String, V)>::empty());
        assert(look(n.skip(1), k) is None);
    } else {
        assert(n[0] == rows[0]);
        assert(n.skip(1) =~= rows.skip(1).push(row));
        assert forall|j: int| 0 <= j < rows.skip(1).len() implies (#[trigger] rows.skip(1)[j]).0@ != row.0@ by {
            assert(rows[j + 1].0@ != row.0@);
        }
        lemma_look_push(rows.skip(1), row, k);
    }
}

impl<V> Table<V> {
    /// Every name stands once.
    pub open spec fn wf(&self) -> bool {
        forall|i: int, j: int|
            0 <= i < j < self.rows@.len() ==> (#[trigger] self.rows@[i]).0@ != (#[trigger] self.rows@[j]).0@
    }

    /// What is kept under a name.
    pub open spec fn at(&self, k: Seq<char>) -> Option<V> {
        look(self.rows@, k)
    }

    /// Nothing under any name.
    pub fn new() -> (r: Table<V>)
        ensures
            r.wf(),
            r.rows@.len() == 0,
            forall|k: Seq<char>| (#[trigger] r.at(k)) is None,
    {
        Table { rows: Vec::new() }
    }

    /// What is kept under a name.
    pub fn get(&self, k: &str) -> (r: Option<&V>)
        ensures
            r is Some <==> self.at(k@) is Some,
            r matches Some(v) ==> self.at(k@) == Some(*v),
    {
        let mut i: usize = 0;
        assert(self.rows@.skip(0) =~= self.rows@);
        while i < self.rows.len()
            invariant
                i <= self.rows@.len(),
                self.at(k@) == look(self.rows@.skip(i as int), k@),
            decreases self.rows@.len() - i,
        {
            assert(self.rows@.skip(i as int)[0] == self.rows@[i as int]);
            assert(self.rows@.skip(i as int).skip(1) =~= self.rows@.skip(i + 1));
            if same(self.rows[i].0.as_str(), k) {
                return Some(&self.rows[i].1);
            }
            i = i + 1;
        }
        None
    }

    /// Keeps a value under a name, in place of the one that was there.
    pub fn insert(&mut self, k: String, v: V)
        requires
            old(self).wf(),
        ensures
            final(self).wf(),
            final(self).at(k@) == Some(v),
            forall|q: Seq<char>| q != k@ ==> #[trigger] final(self).at(q) == old(self).at(q),
            final(self).rows@.len() == old(self).rows@.len() + (if old(self).at(k@) is Some { 0int } else { 1 }),
    {
        let ghost was = self.rows@;
        let ghost name = k@;
        let mut i: usize = 0;
        assert(was.skip(0) =~= was);
        while i < self.rows.len()
            invariant
                i <= self.rows@.len(),
                self.rows@ == was,
                name == k@,
                forall|j: int| 0 <= j < i ==> (#[trigger] was[j]).0@ != name,
                look(was, name) == look(was.skip(i as int), name),
                *self == *old(self),
                was == old(self).rows@,
                old(self).wf(),
            decreases self.rows@.len() - i,
        {
            assert(was.skip(i as int)[0] == was[i as int]);
            assert(was.skip(i as int).skip(1) =~= was.skip(i + 1));
            if same(self.rows[i].0.as_str(), k.as_str()) {
                self.rows.set(i, (k, v));
                proof {
                    let row = (k, v);
                    assert(self.rows@ == was.update(i as int, row));
                    assert forall|q: Seq<char>| #[trigger] self.at(q) == (if q == name { Some(v) } else { old(self).at(q) }) by {
                        lemma_look_update(was, i as int, row, q);
                    }
                    assert forall|a: int, b: int| 0 <= a < b < self.rows@.len() implies (#[trigger] self.rows@[a]).0@ != (
                    #[trigger] self.rows@[b]).0@ by {
                        assert(was[a].0@ != was[b].0@);
                    }
                }
                return;
            }
            i = i + 1;
        }
        assert(was.skip(i as int).len() == 0);
        self.rows.push((k, v));
        proof {
            let row = (k, v);
            assert(self.rows@ == was.push(row));
            assert forall|q: Seq<char>| #[trigger] self.at(q) == (if q == name { Some(v) } else { old(self).at(q) }) by {
                lemma_look_push(was, row, q);
            }
            assert forall|a: int, b: int| 0 <= a < b < self.rows@.len() implies (#[trigger] self.rows@[a]).0@ != (
            #[trigger] self.rows@[b]).0@ by {
                if b < was.len() {
                    assert(was[a].0@ != was[b].0@);
                } else {
                    assert(was[a].0@ != name);
                }
            }
        }
    }
}

/// What is kept under a name is the first row under it, and nothing where there is none.
pub proof fn law_a_name_finds_its_row<V>(rows: Seq<(String, V)>, k: Seq<char>)
    ensures
        look(rows, k) matches Some(v) ==> exists|i: int|
            0 <= i < rows.len() && (#[trigger] rows[i]).0@ == k && rows[i].1 == v && forall|j: int| 0 <= j < i ==> (#[trigger] rows[j]).0@ != k,
        look(rows, k) is None ==> forall|i: int| 0 <= i < rows.len() ==> (#[trigger] rows[i]).0@ != k,
    decreases rows.len(),
{
    if rows.len() > 0 {
        if rows[0].0@ == k {
            assert(rows[0].0@ == k && rows[0].1 == look(rows, k)->0);
        } else {
            let rest = rows.skip(1);
            law_a_name_finds_its_row(rest, k);
            assert forall|i: int| 0 <= i < rest.len() implies (#[trigger] rest[i]) == rows[i + 1] by {}
            if look(rest, k) is Some {
                let v = look(rest, k)->0;
                let i = choose|i: int|
                    0 <= i < rest.len() && (#[trigger] rest[i]).0@ == k && rest[i].1 == v && forall|j: int| 0 <= j < i ==> (#[trigger] rest[j]).0@ != k;
                assert(rows[i + 1] == rest[i]);
                assert forall|j: int| 0 <= j < i + 1 implies (#[trigger] rows[j]).0@ != k by {
                    if j > 0 {
                        assert(rest[j - 1].0@ != k);
                    }
                }
            } else {
                assert forall|i: int| 0 <= i < rows.len() implies (#[trigger] rows[i]).0@ != k by {
                    if i > 0 {
                        assert(rest[i - 1].0@ != k);
                    }
                }
            }
        }
    }
}

} // verus!
