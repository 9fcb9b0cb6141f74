//! Hashing the files of a folder, for comparing it with another.

use vstd::prelude::*;
use crate::double::Double;
use crate::text::views;
use crate::tools::progress::{part, part_of, Share};

verus! {

/// What came of hashing a file.
#[derive(Debug)]
pub enum Hashed {
    /// Its hash.
    Hex(String),
    /// It was left half way: the job was stopped.
    Stopped,
    /// It could not be read.
    Unreadable,
}

/// What is done next.
#[derive(Clone, Copy, Debug, PartialEq, Eq, Structural)]
pub enum TreeAct {
    /// The file of this place is hashed.
    Hash(usize),
    /// The folder is done.
    Finish,
    /// The job was stopped.
    Stop,
}

/// A folder as it is hashed: the paths of its files inside it, how many of them are
/// done, and the hashes that there are.
#[derive(Debug)]
pub struct TreeRun {
    pub files: Vec<String>,
    pub at: usize,
    pub hashes: Vec<(String, String)>,
    pub share: Share,
}

/// A path and a hash.
pub type HashView = (Seq<char>, Seq<char>);

/// The texts of a list of paths and hashes.
pub open spec fn hashes_view(v: Seq<(String, String)>) -> Seq<HashView> {
    Seq::new(v.len(), |i: int| (v[i].0@, v[i].1@))
}

/// The hashes of the files that could be read, in the order of the files.
pub open spec fn hashes_of(files: Seq<Seq<char>>, found: Seq<Option<Seq<char>>>) -> Seq<HashView>
    decreases files.len(),
{
    if files.len() == 0 || found.len() != files.len() {
        Seq::empty()
    } else {
        let rest = hashes_of(files.drop_last(), found.drop_last());
        match found.last() {
            Some(hex) => rest.push((files.last(), hex)),
            None => rest,
        }
    }
}

/// What follows when `at` of `n` files are done.
pub open spec fn tree_act(at: int, n: int, stopped: bool) -> TreeAct {
    if at >= n {
        TreeAct::Finish
    } else if stopped {
        TreeAct::Stop
    } else {
        TreeAct::Hash(at as usize)
    }
}

impl TreeRun {
    /// No more files are done than there are.
    pub open spec fn wf(&self) -> bool {
        self.at <= self.files@.len() && self.share.wf()
    }

    /// A folder of which nothing was hashed.
    pub fn new(files: Vec<String>, share: Share) -> (r: TreeRun)
        requires
            share.wf(),
        ensures
            r.wf(),
            r.files@ == files@,
            r.at == 0,
            r.hashes@ == Seq::<(String, String)>::empty(),
            r.share == share,
    {
        TreeRun { files, at: 0, hashes: Vec::new(), share }
    }

    /// Which file is hashed first. A folder without files is done at once, stopped or
    /// not.
    pub fn begin(&self, stopped: bool) -> (r: TreeAct)
        requires
            self.wf(),
        ensures
            r == tree_act(self.at as int, self.files@.len() as int, stopped),
    {
        if self.at >= self.files.len() {
            TreeAct::Finish
        } else if stopped {
            TreeAct::Stop
        } else {
            TreeAct::Hash(self.at)
        }
    }

    /// Takes what came of a file. One that cannot be read is passed over; how far the
    /// job is, is told where a report is `due`; a job that was stopped ends before its
    /// next file.
    pub fn folder_hash_map_prog(&mut self, hashed: Hashed, due: bool, stopped: bool) -> (r: (Option<Double>, TreeAct))
        requires
            old(self).wf(),
            old(self).at < old(self).files@.len(),
        ensures
            final(self).wf(),
            final(self).files == old(self).files,
            final(self).share == old(self).share,
            hashed is Stopped ==> {
                &&& r == (None::<Double>, TreeAct::Stop)
                &&& final(self).at == old(self).at
                &&& final(self).hashes == old(self).hashes
            },
            !(hashed is Stopped) ==> {
                &&& final(self).at == old(self).at + 1
                &&& hashes_view(final(self).hashes@) == (match hashed {
                    Hashed::Hex(hex) => hashes_view(old(self).hashes@).push(
                        (old(self).files@[old(self).at as int]@, hex@),
                    ),
                    _ => hashes_view(old(self).hashes@),
                })
                &&& r.0 == (if due {
                    Some(old(self).share.at(part((old(self).at + 1) as nat, old(self).files@.len())))
                } else {
                    None
                })
                &&& r.1 == tree_act(old(self).at + 1, old(self).files@.len() as int, stopped)
            },
    {
        let n: usize = self.files.len();
        match hashed {
            Hashed::Stopped => {
                return (None, TreeAct::Stop);
            },
            Hashed::Unreadable => {},
            Hashed::Hex(hex) => {
                let ghost before = self.hashes@;
                let path = self.files[self.at].clone();
                self.hashes.push((path, hex));
                assert(hashes_view(self.hashes@) =~= hashes_view(before).push(
                    (self.files@[self.at as int]@, hex@),
                ));
            },
        }
        self.at = self.at + 1;
        let told = if due {
            let f = part_of(self.at as u64, n as u64);
            Some(self.share.reached(&f))
        } else {
            None
        };
        (told, self.begin(stopped))
    }
}

/// The hashes of the files that could be read.
pub fn folder_hash_map(files: &Vec<String>, found: &Vec<Option<String>>) -> (r: Vec<(String, String)>)
    requires
        files@.len() == found@.len(),
    ensures
        hashes_view(r@) == hashes_of(views(files@), found_view(found@)),
{
    let mut out: Vec<(String, String)> = Vec::new();
    let mut i: usize = 0;
    assert(hashes_view(out@) =~= hashes_of(views(files@).take(0), found_view(found@).take(0)));
    while i < files.len()
        invariant
            i <= files@.len(),
            files@.len() == found@.len(),
            hashes_view(out@) == hashes_of(views(files@).take(i as int), found_view(found@).take(i as int)),
        decreases files@.len() - i,
    {
        let ghost before = out@;
        proof {
            assert(views(files@).take(i + 1).drop_last() =~= views(files@).take(i as int));
            assert(found_view(found@).take(i + 1).drop_last() =~= found_view(found@).take(i as int));
        }
        if let Some(hex) = &found[i] {
            out.push((files[i].clone(), hex.clone()));
            assert(hashes_view(out@) =~= hashes_view(before).push((files@[i as int]@, hex@)));
        }
        i = i + 1;
    }
    proof {
        assert(views(files@).take(i as int) =~= views(files@));
        assert(found_view(found@).take(i as int) =~= found_view(found@));
    }
    out
}

/// What was found of each file, as texts.
pub open spec fn found_view(v: Seq<Option<String>>) -> Seq<Option<Seq<char>>> {
    Seq::new(v.len(), |i: int| crate::status::figures::opt_string(v[i]))
}

/// A file that was read is in the tree with its hash.
pub proof fn law_the_readable_files_are_hashed(files: Seq<Seq<char>>, found: Seq<Option<Seq<char>>>, i: int)
    requires
        files.len() == found.len(),
        0 <= i < files.len(),
    ensures
        found[i] matches Some(hex) ==> hashes_of(files, found).contains((files[i], hex)),
    decreases files.len(),
{
    let rest = hashes_of(files.drop_last(), found.drop_last());
    if let Some(hex) = found[i] {
        if i < files.len() - 1 {
            law_the_readable_files_are_hashed(files.drop_last(), found.drop_last(), i);
            let k = choose|k: int| 0 <= k < rest.len() && rest[k] == (files[i], hex);
            assert(hashes_of(files, found)[k] == (files[i], hex));
        } else {
            assert(hashes_of(files, found)[rest.len() as int] == (files[i], hex));
        }
    }
}

/// A file that could not be read is not in the tree: whatever is there was read.
pub proof fn law_only_read_files_are_hashed(files: Seq<Seq<char>>, found: Seq<Option<Seq<char>>>, k: int) -> (i: int)
    requires
        files.len() == found.len(),
        0 <= k < hashes_of(files, found).len(),
    ensures
        0 <= i < files.len(),
        hashes_of(files, found)[k].0 == files[i],
        found[i] == Some(hashes_of(files, found)[k].1),
    decreases files.len(),
{
    let rest = hashes_of(files.drop_last(), found.drop_last());
    if k < rest.len() {
        law_only_read_files_are_hashed(files.drop_last(), found.drop_last(), k)
    } else {
        files.len() - 1
    }
}

/// Going on file by file gives the tree that all the files together give.
pub proof fn law_a_file_extends_the_tree(files: Seq<Seq<char>>, found: Seq<Option<Seq<char>>>, at: int)
    requires
        files.len() == found.len(),
        0 <= at < files.len(),
    ensures
        hashes_of(files.take(at + 1), found.take(at + 1)) == (match found[at] {
            Some(hex) => hashes_of(files.take(at), found.take(at)).push((files[at], hex)),
            None => hashes_of(files.take(at), found.take(at)),
        }),
{
    assert(files.take(at + 1).drop_last() =~= files.take(at));
    assert(found.take(at + 1).drop_last() =~= found.take(at));
}

/// A folder's files are hashed one after the other; a stop is heeded while any is left.
pub proof fn law_a_stop_is_heeded_while_files_are_left(at: int, n: int)
    requires
        0 <= at <= usize::MAX,
    ensures
        at >= n ==> tree_act(at, n, true) == TreeAct::Finish && tree_act(at, n, false) == TreeAct::Finish,
        at < n ==> tree_act(at, n, true) == TreeAct::Stop,
        at < n ==> (tree_act(at, n, false) matches TreeAct::Hash(i) && i == at),
{
}

} // verus!
