//! Walking the checkout.
//!
//! The walker keeps a stack of directories that are still to be read and
//! the list of files found so far. It reads nothing itself: the driver asks
//! it for the next directory, lists that directory and hands the listing
//! back. The directory in which the version control system keeps its own
//! data is never entered.

use crate::paths::{file_name_of, filename};
use crate::text::texts;
use vstd::prelude::*;

verus! {

/// One entry of a directory listing.
#[derive(Clone, Debug, PartialEq, Eq)]
pub struct DirEntry {
    /// The path of the entry, the directory's own path included.
    pub path: String,
    /// Whether the entry is a directory.
    pub is_dir: bool,
}

/// What a `DirEntry` holds.
pub struct Listed {
    pub path: Seq<char>,
    pub is_dir: bool,
}

impl View for DirEntry {
    type V = Listed;

    open spec fn view(&self) -> Listed {
        Listed { path: self.path@, is_dir: self.is_dir }
    }
}

/// What a listing holds.
pub open spec fn listing(entries: Seq<DirEntry>) -> Seq<Listed> {
    entries.map_values(|e: DirEntry| e@)
}

/// The walk of a tree, part way through.
#[derive(Debug)]
pub struct TreeWalker {
    /// The directories still to be read; the last is read next.
    pub pending: Vec<String>,
    /// The files found so far.
    pub files: Vec<String>,
}

/// What a `TreeWalker` holds.
pub struct WalkState {
    pub pending: Seq<Seq<char>>,
    pub files: Seq<Seq<char>>,
}

impl View for TreeWalker {
    type V = WalkState;

    open spec fn view(&self) -> WalkState {
        WalkState { pending: texts(self.pending@), files: texts(self.files@) }
    }
}

/// `path` names the directory of the version control system: its last
/// segment is `.git`.
pub open spec fn is_vcs_dir(path: Seq<char>) -> bool {
    file_name_of(path) == ".git"@
}

/// The directories of `entries` that the walk enters, in order.
pub open spec fn entered(entries: Seq<Listed>) -> Seq<Seq<char>> {
    entries.filter(|e: Listed| e.is_dir && !is_vcs_dir(e.path)).map_values(|e: Listed| e.path)
}

/// The files of `entries`, in order.
pub open spec fn found(entries: Seq<Listed>) -> Seq<Seq<char>> {
    entries.filter(|e: Listed| !e.is_dir).map_values(|e: Listed| e.path)
}

/// The walk `state` after the listing `entries` of one directory.
pub open spec fn after_listing(state: WalkState, entries: Seq<Listed>) -> WalkState {
    WalkState { pending: state.pending + entered(entries), files: state.files + found(entries) }
}

/// Whether `path` names the directory of the version control system.
pub fn names_vcs_dir(path: &str) -> (yes: bool)
    ensures
        yes == is_vcs_dir(path@),
{
    let name = filename(path);
    let vcs: String = ".git".to_owned();
    name == vcs
}

impl TreeWalker {
    /// A walk that has yet to read the directory `root`.
    pub fn new(root: String) -> (walker: Self)
        ensures
            walker@ == (WalkState { pending: seq![root@], files: Seq::empty() }),
    {
        let mut pending: Vec<String> = Vec::new();
        pending.push(root);
        let walker = TreeWalker { pending, files: Vec::new() };
        assert(walker@.pending =~= seq![root@]);
        assert(walker@.files =~= Seq::empty());
        walker
    }

    /// Whether every directory has been read.
    pub fn is_done(&self) -> (done: bool)
        ensures
            done == (self@.pending.len() == 0),
    {
        self.pending.len() == 0
    }

    /// Takes the directory to read next off the stack: the one that was put
    /// there last. `None` when the walk is over.
    pub fn next_dir(&mut self) -> (dir: Option<String>)
        ensures
            final(self)@.files == old(self)@.files,
            match dir {
                Some(d) => old(self)@.pending.len() > 0 && d@ == old(self)@.pending.last()
                    && final(self)@.pending == old(self)@.pending.drop_last(),
                None => old(self)@.pending.len() == 0 && final(self)@.pending == old(
                    self,
                )@.pending,
            },
    {
        let dir = self.pending.pop();
        proof {
            if dir is Some {
                assert(texts(self.pending@) =~= texts(old(self).pending@).drop_last());
            }
        }
        dir
    }

    /// Takes in the listing of the directory that `next_dir` gave last: its
    /// files are found, and its directories are to be read in their turn,
    /// but for the one of the version control system.
    pub fn visit(&mut self, entries: &Vec<DirEntry>)
        ensures
            final(self)@ == after_listing(old(self)@, listing(entries@)),
    {
        let ghost all = listing(entries@);
        let ghost dirs = |e: Listed| e.is_dir && !is_vcs_dir(e.path);
        let ghost plain = |e: Listed| !e.is_dir;
        let ghost to_path = |e: Listed| e.path;
        let mut i: usize = 0;
        while i < entries.len()
            invariant
                i <= entries.len(),
                all == listing(entries@),
                dirs == |e: Listed| e.is_dir && !is_vcs_dir(e.path),
                plain == |e: Listed| !e.is_dir,
                to_path == |e: Listed| e.path,
                self@.pending == old(self)@.pending + all.take(i as int).filter(dirs).map_values(
                    to_path,
                ),
                self@.files == old(self)@.files + all.take(i as int).filter(plain).map_values(
                    to_path,
                ),
            decreases entries.len() - i,
        {
            let path = entries[i].path.clone();
            let is_dir = entries[i].is_dir;
            let skip = names_vcs_dir(path.as_str());
            proof {
                let before = all.take(i as int);
                let next = all.take(i + 1);
                assert(next.drop_last() == before);
                assert(next.last() == entries@[i as int]@);
                reveal(Seq::filter);
                assert(before.filter(dirs).push(next.last()).map_values(to_path)
                    =~= before.filter(dirs).map_values(to_path).push(path@));
                assert(before.filter(plain).push(next.last()).map_values(to_path)
                    =~= before.filter(plain).map_values(to_path).push(path@));
                assert(texts(self.pending@.push(path)) =~= texts(self.pending@).push(path@));
                assert(texts(self.files@.push(path)) =~= texts(self.files@).push(path@));
            }
            if is_dir {
                if !skip {
                    self.pending.push(path);
                }
            } else {
                self.files.push(path);
            }
            assert(self@.pending =~= old(self)@.pending + all.take(i + 1).filter(dirs).map_values(
                to_path,
            ));
            assert(self@.files =~= old(self)@.files + all.take(i + 1).filter(plain).map_values(
                to_path,
            ));
            i += 1;
        }
        assert(all.take(entries.len() as int) == all);
    }

    /// The files found, once the walk is over or given up.
    pub fn into_files(self) -> (files: Vec<String>)
        ensures
            texts(files@) == self@.files,
    {
        self.files
    }
}

/// The directory of the version control system is never entered: no
/// directory that a listing adds to those still to be read bears its name.
pub proof fn law_vcs_dir_is_never_entered(state: WalkState, entries: Seq<Listed>, i: int)
    requires
        state.pending.len() <= i < after_listing(state, entries).pending.len(),
    ensures
        !is_vcs_dir(after_listing(state, entries).pending[i]),
        exists|k: int|
            0 <= k < entries.len() && (#[trigger] entries[k]).is_dir && entries[k].path
                == after_listing(state, entries).pending[i],
{
    let dirs = |e: Listed| e.is_dir && !is_vcs_dir(e.path);
    let picked = entries.filter(dirs);
    let at = i - state.pending.len();
    assert(after_listing(state, entries).pending[i] == picked[at].path);
    entries.lemma_filter_pred(dirs, at);
    assert(picked.contains(picked[at]));
    entries.lemma_filter_contains_rev(dirs, picked[at]);
    let k = choose|k: int| 0 <= k < entries.len() && entries[k] == picked[at];
    assert(entries[k].is_dir && entries[k].path == picked[at].path);
}

/// Every file of a listing is found, and nothing else is: the files found
/// after a listing are those found before and the entries of the listing
/// that are no directories.
pub proof fn law_listed_files_are_found(state: WalkState, entries: Seq<Listed>, k: int)
    requires
        0 <= k < entries.len(),
        !entries[k].is_dir,
    ensures
        after_listing(state, entries).files.contains(entries[k].path),
{
    let plain = |e: Listed| !e.is_dir;
    let picked = entries.filter(plain);
    entries.lemma_filter_contains(plain, k);
    let at = choose|at: int| 0 <= at < picked.len() && picked[at] == entries[k];
    let all = after_listing(state, entries).files;
    assert(all[state.files.len() + at] == entries[k].path);
}

} // verus!
