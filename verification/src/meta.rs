//! The record of what has been translated: the commit last seen, and for
//! each file whose output was written the hash of the content that the
//! output was made from.

use vstd::prelude::*;

verus! {

/// One file whose output was written: its path, the hash of its bytes when
/// the output was made, and the time of that in seconds since the epoch.
#[derive(Debug, PartialEq, Eq)]
pub struct FileEntry {
    pub path: String,
    pub hash: String,
    pub translation_timestamp: u64,
}

/// What a `FileEntry` holds.
pub struct FileRecord {
    pub path: Seq<char>,
    pub hash: Seq<char>,
    pub translation_timestamp: u64,
}

impl View for FileEntry {
    type V = FileRecord;

    open spec fn view(&self) -> FileRecord {
        FileRecord {
            path: self.path@,
            hash: self.hash@,
            translation_timestamp: self.translation_timestamp,
        }
    }
}

/// The metadata of a translated checkout. Entries are only ever added, at
/// the end; an earlier entry for the same path stays.
#[derive(Debug, PartialEq, Eq)]
pub struct TranslationMeta {
    pub commit: String,
    pub files: Vec<FileEntry>,
}

/// What a `TranslationMeta` holds.
pub struct MetaRecord {
    pub commit: Seq<char>,
    pub files: Seq<FileRecord>,
}

impl View for TranslationMeta {
    type V = MetaRecord;

    open spec fn view(&self) -> MetaRecord {
        MetaRecord { commit: self.commit@, files: self.files@.map_values(|e: FileEntry| e@) }
    }
}

/// Some entry of `files` has the path `path` and the hash `hash`.
pub open spec fn has_record(files: Seq<FileRecord>, path: Seq<char>, hash: Seq<char>) -> bool {
    exists|i: int|
        0 <= i < files.len() && (#[trigger] files[i]).path == path && files[i].hash == hash
}

impl Clone for FileEntry {
    fn clone(&self) -> (copy: Self)
        ensures
            copy@ == self@,
    {
        FileEntry {
            path: self.path.clone(),
            hash: self.hash.clone(),
            translation_timestamp: self.translation_timestamp,
        }
    }
}

impl Clone for TranslationMeta {
    fn clone(&self) -> (copy: Self)
        ensures
            copy@ == self@,
    {
        let mut files: Vec<FileEntry> = Vec::new();
        let mut i: usize = 0;
        while i < self.files.len()
            invariant
                i <= self.files.len(),
                files@.len() == i,
                forall|k: int| 0 <= k < i ==> files@[k]@ == self.files@[k]@,
            decreases self.files.len() - i,
        {
            files.push(self.files[i].clone());
            i += 1;
        }
        let copy = TranslationMeta { commit: self.commit.clone(), files };
        assert(copy@.files =~= self@.files);
        copy
    }
}

impl TranslationMeta {
    /// The metadata of a checkout of which nothing has been translated yet.
    pub fn new() -> (meta: Self)
        ensures
            meta@ == (MetaRecord { commit: Seq::empty(), files: Seq::empty() }),
    {
        let meta = TranslationMeta { commit: String::new(), files: Vec::new() };
        assert(meta@.files =~= Seq::empty());
        meta
    }

    /// Whether the file at `path` is up to date where its content hashes
    /// to `hash`: whether an entry holds that path and that hash.
    pub fn is_translated(&self, path: &str, hash: &str) -> (found: bool)
        ensures
            found == has_record(self@.files, path@, hash@),
    {
        let wanted_path: String = path.to_owned();
        let wanted_hash: String = hash.to_owned();
        let mut i: usize = 0;
        while i < self.files.len()
            invariant
                i <= self.files.len(),
                wanted_path@ == path@,
                wanted_hash@ == hash@,
                forall|k: int|
                    0 <= k < i ==> !((#[trigger] self@.files[k]).path == path@
                        && self@.files[k].hash == hash@),
            decreases self.files.len() - i,
        {
            if self.files[i].path == wanted_path && self.files[i].hash == wanted_hash {
                assert(self@.files[i as int].path == path@ && self@.files[i as int].hash == hash@);
                return true;
            }
            i += 1;
        }
        false
    }

    /// Adds an entry for the file at `path` at the end of the list.
    pub fn record(&mut self, path: String, hash: String, now: u64)
        ensures
            final(self)@.commit == old(self)@.commit,
            final(self)@.files == old(self)@.files.push(
                FileRecord { path: path@, hash: hash@, translation_timestamp: now },
            ),
    {
        self.files.push(FileEntry { path, hash, translation_timestamp: now });
        assert(self@.files =~= old(self)@.files.push(
            FileRecord { path: path@, hash: hash@, translation_timestamp: now },
        ));
    }

    /// Notes the commit at which the checkout stands.
    pub fn set_commit(&mut self, commit: String)
        ensures
            final(self)@.commit == commit@,
            final(self)@.files == old(self)@.files,
    {
        self.commit = commit;
    }
}

} // verus!
