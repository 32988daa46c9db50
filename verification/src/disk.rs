//! A snapshot of the relevant part of the local file tree.  The crate never
//! touches the filesystem itself: the caller reports which files exist and
//! the SHA-1 digest of each, and the planner decides against that snapshot.

use vstd::prelude::*;

use crate::hash::Sha1Sum;

verus! {

/// One file the caller found on disk, with the digest of its contents.
#[derive(Debug)]
pub struct FileRecord {
    pub path: String,
    pub sha1: Sha1Sum,
}

impl Clone for FileRecord {
    fn clone(&self) -> (r: FileRecord)
        ensures
            r.path@ == self.path@,
            r.sha1@ == self.sha1@,
    {
        FileRecord { path: self.path.clone(), sha1: self.sha1.clone() }
    }
}

/// What the caller reports about the file tree: the files that exist, each
/// with its content digest.  A path with no record does not exist.
#[derive(Debug)]
pub struct DiskState {
    pub files: Vec<FileRecord>,
}

impl DiskState {
    /// The digest recorded for `path`: that of the first record with this
    /// path, or nothing when no record names it.
    pub open spec fn spec_lookup_at(files: Seq<FileRecord>, path: Seq<char>) -> Option<Seq<u8>>
        decreases files.len(),
    {
        if files.len() == 0 {
            None
        } else if files.first().path@ == path {
            Some(files.first().sha1@)
        } else {
            Self::spec_lookup_at(files.drop_first(), path)
        }
    }

    /// The digest recorded for `path`, if any.
    pub open spec fn spec_lookup(&self, path: Seq<char>) -> Option<Seq<u8>> {
        Self::spec_lookup_at(self.files@, path)
    }

    /// An empty snapshot: no file exists.
    pub fn new() -> (r: DiskState)
        ensures
            r.files@.len() == 0,
    {
        DiskState { files: Vec::new() }
    }

    /// Record that the file at `path` exists with content digest `sha1`.
    pub fn record(&mut self, path: String, sha1: Sha1Sum)
        ensures
            final(self).files@ == old(self).files@.push(FileRecord { path, sha1 }),
    {
        self.files.push(FileRecord { path, sha1 });
    }

    /// The digest recorded for `path`, if any.
    pub fn lookup(&self, path: &str) -> (r: Option<&Sha1Sum>)
        ensures
            match r {
                Some(h) => self.spec_lookup(path@) == Some(h@),
                None => self.spec_lookup(path@) is None,
            },
    {
        let mut i: usize = 0;
        proof {
            assert(self.files@.subrange(0, self.files@.len() as int) =~= self.files@);
        }
        while i < self.files.len()
            invariant
                i <= self.files@.len(),
                Self::spec_lookup_at(self.files@, path@) == Self::spec_lookup_at(
                    self.files@.subrange(i as int, self.files@.len() as int),
                    path@,
                ),
            decreases self.files@.len() - i,
        {
            let ghost rest = self.files@.subrange(i as int, self.files@.len() as int);
            if crate::strutil::str_eq(self.files[i].path.as_str(), path) {
                proof {
                    assert(rest.first() == self.files@[i as int]);
                }
                return Some(&self.files[i].sha1);
            }
            i += 1;
            proof {
                assert(rest.drop_first() =~= self.files@.subrange(
                    i as int,
                    self.files@.len() as int,
                ));
            }
        }
        None
    }
}

} // verus!
