//! Content-addressed assets and the asset index.

use vstd::prelude::*;

use crate::disk::DiskState;
use crate::error::Error;
use crate::hash::{hex_of, Sha1Sum};

verus! {

/// The hex rendering is two characters per byte.
pub proof fn lemma_hex_of_len(bytes: Seq<u8>)
    ensures
        hex_of(bytes).len() == 2 * bytes.len(),
    decreases bytes.len(),
{
    if bytes.len() > 0 {
        lemma_hex_of_len(bytes.drop_last());
    }
}

/// The view of the `objects` path segment.
pub open spec fn objects_seg() -> Seq<char> {
    seq!['o', 'b', 'j', 'e', 'c', 't', 's']
}

/// One content-addressed asset: the SHA-1 of its contents names it.
#[derive(Debug)]
pub struct Asset {
    pub hash: Sha1Sum,
    pub size: i64,
}

impl Clone for Asset {
    fn clone(&self) -> (r: Asset)
        ensures
            r.hash@ == self.hash@,
            r.size == self.size,
    {
        Asset { hash: self.hash.clone(), size: self.size }
    }
}

impl Asset {
    /// Where the asset lives under the assets root `at`:
    /// `<at>/objects/<first-byte-hex>/<full-hex>`.
    pub open spec fn spec_path(&self, at: Seq<char>) -> Seq<char> {
        at + seq!['/'] + objects_seg() + seq!['/'] + hex_of(self.hash@).subrange(0, 2) + seq!['/']
            + hex_of(self.hash@)
    }

    /// Where the asset lives under the assets root `at`.
    pub fn path_at(&self, at: &str) -> (r: String)
        ensures
            r@ == self.spec_path(at@),
    {
        proof {
            use_type_invariant(&self.hash);
            lemma_hex_of_len(self.hash@);
        }
        let hex = self.hash.to_hex();
        let mut r = at.to_owned();
        r.append("/objects/");
        r.append(hex.as_str().substring_char(0, 2));
        r.append("/");
        r.append(hex.as_str());
        proof {
            reveal_strlit("/objects/");
            reveal_strlit("/");
            assert("/objects/"@ =~= seq!['/'] + objects_seg() + seq!['/']);
            assert("/"@ =~= seq!['/']);
            assert(r@ =~= self.spec_path(at@));
        }
        r
    }

    /// The URL the asset is downloaded from: the content-addressed layout
    /// under the public resources host.
    pub open spec fn spec_download_url(h: Seq<u8>) -> Seq<char> {
        "https://resources.download.minecraft.net"@ + seq!['/'] + hex_of(h).subrange(0, 2)
            + seq!['/'] + hex_of(h)
    }

    /// The URL the asset is downloaded from.
    pub fn download_url(&self) -> (r: String)
        ensures
            r@ == Self::spec_download_url(self.hash@),
    {
        proof {
            use_type_invariant(&self.hash);
            lemma_hex_of_len(self.hash@);
        }
        let hex = self.hash.to_hex();
        let mut r = String::from_str("https://resources.download.minecraft.net");
        r.append("/");
        r.append(hex.as_str().substring_char(0, 2));
        r.append("/");
        r.append(hex.as_str());
        proof {
            reveal_strlit("/");
            assert("/"@ =~= seq!['/']);
            assert(r@ =~= Self::spec_download_url(self.hash@));
        }
        r
    }

    /// The integrity verdict for this asset against the disk snapshot: an
    /// absent file is `LibraryMissing`, a digest mismatch is
    /// `LibraryInvalidHash`.
    pub open spec fn spec_check(&self, at: Seq<char>, disk: DiskState) -> Result<(), Error> {
        match disk.spec_lookup(self.spec_path(at)) {
            None => Err(Error::LibraryMissing),
            Some(found) => if found == self.hash@ {
                Ok(())
            } else {
                Err(Error::LibraryInvalidHash)
            },
        }
    }

    /// The integrity verdict for this asset against the disk snapshot.
    pub fn verify_at(&self, at: &str, disk: &DiskState) -> (r: Result<(), Error>)
        ensures
            r == self.spec_check(at@, *disk),
    {
        let path = self.path_at(at);
        match disk.lookup(path.as_str()) {
            None => Err(Error::LibraryMissing),
            Some(found) => {
                if found.matches(&self.hash) {
                    Ok(())
                } else {
                    Err(Error::LibraryInvalidHash)
                }
            },
        }
    }
}

/// A logical asset name bound to its content-addressed asset.
#[derive(Debug)]
pub struct AssetEntry {
    pub name: String,
    pub asset: Asset,
}

impl Clone for AssetEntry {
    fn clone(&self) -> (r: AssetEntry)
        ensures
            r.name@ == self.name@,
            r.asset.hash@ == self.asset.hash@,
            r.asset.size == self.asset.size,
    {
        AssetEntry { name: self.name.clone(), asset: self.asset.clone() }
    }
}

/// The asset index: the assets of one version, each under a logical name,
/// together with this session's per-asset verified flags.
#[derive(Debug)]
pub struct AssetIndex {
    pub objects: Vec<AssetEntry>,
    pub verified: Vec<bool>,
}

impl AssetIndex {
    /// The flags track the objects one to one.
    pub open spec fn wf(&self) -> bool {
        self.verified@.len() == self.objects@.len()
    }

    /// An index over the given entries, none verified yet.
    pub fn new(objects: Vec<AssetEntry>) -> (r: AssetIndex)
        ensures
            r.wf(),
            r.objects@ == objects@,
            forall|j: int| 0 <= j < r.verified@.len() ==> !(#[trigger] r.verified@[j]),
    {
        let mut verified: Vec<bool> = Vec::new();
        let mut i: usize = 0;
        while i < objects.len()
            invariant
                i <= objects@.len(),
                verified@.len() == i,
                forall|j: int| 0 <= j < i ==> !(#[trigger] verified@[j]),
            decreases objects@.len() - i,
        {
            verified.push(false);
            i += 1;
        }
        AssetIndex { objects, verified }
    }

    /// The verdicts the plain (non-caching) sweep collects over the first
    /// `upto` assets: the recoverable failures in order, or the first fatal
    /// error.  Here every failure an asset can produce is recoverable, so
    /// the result is always the list.
    pub open spec fn spec_failures(
        objects: Seq<AssetEntry>,
        flags: Seq<bool>,
        use_flags: bool,
        at: Seq<char>,
        disk: DiskState,
        upto: int,
    ) -> Seq<(int, Error)>
        decreases upto,
    {
        if upto <= 0 {
            Seq::empty()
        } else {
            let s = Self::spec_failures(objects, flags, use_flags, at, disk, upto - 1);
            let j = upto - 1;
            if use_flags && flags[j] {
                s
            } else {
                match objects[j].asset.spec_check(at, disk) {
                    Ok(()) => s,
                    Err(e) => s.push((j, e)),
                }
            }
        }
    }

    /// The flags after a caching sweep: an asset that checked out is
    /// marked, and marks are never cleared.
    pub open spec fn spec_updated_flags(
        objects: Seq<AssetEntry>,
        flags: Seq<bool>,
        at: Seq<char>,
        disk: DiskState,
    ) -> Seq<bool> {
        Seq::new(
            flags.len(),
            |j: int| flags[j] || objects[j].asset.spec_check(at, disk) is Ok,
        )
    }

    /// Reset the session flags: one unset flag per object.
    pub fn reset_flags(&mut self)
        ensures
            final(self).wf(),
            final(self).objects == old(self).objects,
            forall|j: int|
                0 <= j < final(self).verified@.len() ==> !(#[trigger] final(self).verified@[j]),
    {
        let mut flags: Vec<bool> = Vec::new();
        let mut i: usize = 0;
        while i < self.objects.len()
            invariant
                i <= self.objects@.len(),
                flags@.len() == i,
                forall|j: int| 0 <= j < i ==> !(#[trigger] flags@[j]),
            decreases self.objects@.len() - i,
        {
            flags.push(false);
            i += 1;
        }
        self.verified = flags;
    }

    /// Check every asset against the snapshot; each `(index, error)` pair
    /// names an asset that is missing or corrupt under the assets root `at`.
    pub fn verify_at(&self, at: &str, disk: &DiskState) -> (r: Vec<(usize, Error)>)
        requires
            self.wf(),
        ensures
            r@.map_values(|p: (usize, Error)| (p.0 as int, p.1)) == Self::spec_failures(
                self.objects@,
                self.verified@,
                false,
                at@,
                *disk,
                self.objects@.len() as int,
            ),
    {
        let mut r: Vec<(usize, Error)> = Vec::new();
        let mut i: usize = 0;
        while i < self.objects.len()
            invariant
                i <= self.objects@.len(),
                self.wf(),
                r@.map_values(|p: (usize, Error)| (p.0 as int, p.1)) == Self::spec_failures(
                    self.objects@,
                    self.verified@,
                    false,
                    at@,
                    *disk,
                    i as int,
                ),
            decreases self.objects@.len() - i,
        {
            let ghost prev = r@.map_values(|p: (usize, Error)| (p.0 as int, p.1));
            match self.objects[i].asset.verify_at(at, disk) {
                Ok(()) => {},
                Err(e) => {
                    r.push((i, e));
                    proof {
                        assert(r@.map_values(|p: (usize, Error)| (p.0 as int, p.1)) =~= prev.push(
                            (i as int, e),
                        ));
                    }
                },
            }
            i += 1;
        }
        r
    }

    /// Check every asset not yet marked verified, marking those that check
    /// out; each `(index, error)` pair names an asset that is missing or
    /// corrupt under the assets root `at`.
    pub fn verify_caching_at(&mut self, at: &str, disk: &DiskState) -> (r: Vec<(usize, Error)>)
        requires
            old(self).wf(),
        ensures
            final(self).wf(),
            final(self).objects@ == old(self).objects@,
            final(self).verified@ == Self::spec_updated_flags(
                old(self).objects@,
                old(self).verified@,
                at@,
                *disk,
            ),
            r@.map_values(|p: (usize, Error)| (p.0 as int, p.1)) == Self::spec_failures(
                old(self).objects@,
                old(self).verified@,
                true,
                at@,
                *disk,
                old(self).objects@.len() as int,
            ),
    {
        let mut r: Vec<(usize, Error)> = Vec::new();
        let mut i: usize = 0;
        while i < self.objects.len()
            invariant
                i <= self.objects@.len(),
                self.wf(),
                self.objects@ == old(self).objects@,
                self.verified@.len() == old(self).verified@.len(),
                forall|j: int|
                    i <= j < self.verified@.len() ==> self.verified@[j] == old(self).verified@[j],
                forall|j: int|
                    0 <= j < i ==> self.verified@[j] == Self::spec_updated_flags(
                        old(self).objects@,
                        old(self).verified@,
                        at@,
                        *disk,
                    )[j],
                r@.map_values(|p: (usize, Error)| (p.0 as int, p.1)) == Self::spec_failures(
                    old(self).objects@,
                    old(self).verified@,
                    true,
                    at@,
                    *disk,
                    i as int,
                ),
            decreases self.objects@.len() - i,
        {
            let ghost prev = r@.map_values(|p: (usize, Error)| (p.0 as int, p.1));
            if !self.verified[i] {
                match self.objects[i].asset.verify_at(at, disk) {
                    Ok(()) => {
                        self.verified[i] = true;
                    },
                    Err(e) => {
                        r.push((i, e));
                        proof {
                            assert(r@.map_values(|p: (usize, Error)| (p.0 as int, p.1))
                                =~= prev.push((i as int, e)));
                        }
                    },
                }
            }
            i += 1;
        }
        proof {
            assert(self.verified@ =~= Self::spec_updated_flags(
                old(self).objects@,
                old(self).verified@,
                at@,
                *disk,
            ));
        }
        r
    }
}

/// The pointer a manifest holds to its asset index, together with the
/// resolver's cached copy once the index is loaded.
#[derive(Debug)]
pub struct AssetIndexInfo {
    pub id: String,
    pub sha1: Sha1Sum,
    pub size: i64,
    pub total_size: i64,
    pub url: String,
    pub cache: Option<AssetIndex>,
}

} // verus!
