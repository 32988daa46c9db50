//! The registry metadata tree: the top-level index of packages, the
//! per-package index of versions, and the slots the loaders fill in place.

use vstd::prelude::*;

use crate::error::Error;
use crate::hash::Sha256Sum;
use crate::manifest::{Manifest, Requirement};
use crate::strutil::str_eq;

verus! {

/// One package the registry knows: its UID, display name and the SHA-256
/// of its version index, plus the slot the loader fills with that index.
#[derive(Debug)]
pub struct MetaIndexPackage {
    pub name: String,
    pub sha256: Sha256Sum,
    pub uid: String,
    /// Resolved package index.
    pub index: Option<PackageIndex>,
}

/// The top-level registry index: the list of known packages.
#[derive(Debug)]
pub struct MetaIndex {
    pub format_version: u64,
    pub packages: Vec<MetaIndexPackage>,
}

/// One version of a package: its metadata digest, its requirements, and
/// the slot the loader fills with the version's manifest.
#[derive(Debug)]
pub struct PackageVersion {
    pub release_time: String,
    pub requires: Vec<Requirement>,
    pub sha256: Sha256Sum,
    pub release_type: Option<String>,
    pub version: String,
    /// Resolved package manifest.
    pub manifest: Option<Manifest>,
}

/// The versions of one package.
#[derive(Debug)]
pub struct PackageIndex {
    pub format_version: u64,
    pub name: String,
    pub uid: String,
    pub versions: Vec<PackageVersion>,
}

impl MetaIndex {
    /// The position of the first package with the given UID, if any.
    pub open spec fn spec_find_uid_at(
        packages: Seq<MetaIndexPackage>,
        uid: Seq<char>,
    ) -> Option<int>
        decreases packages.len(),
    {
        if packages.len() == 0 {
            None
        } else if packages.first().uid@ == uid {
            Some(0)
        } else {
            match Self::spec_find_uid_at(packages.drop_first(), uid) {
                Some(j) => Some(j + 1),
                None => None,
            }
        }
    }

    /// The position of the first package with the given UID, if any.
    pub open spec fn spec_find_uid(&self, uid: Seq<char>) -> Option<int> {
        Self::spec_find_uid_at(self.packages@, uid)
    }

    /// A found position is in range and names the UID.
    pub proof fn lemma_find_uid_valid(packages: Seq<MetaIndexPackage>, uid: Seq<char>)
        ensures
            match Self::spec_find_uid_at(packages, uid) {
                Some(j) => 0 <= j < packages.len() && packages[j].uid@ == uid,
                None => forall|j: int| 0 <= j < packages.len() ==> (#[trigger] packages[j]).uid@ != uid,
            },
        decreases packages.len(),
    {
        if packages.len() > 0 {
            Self::lemma_find_uid_valid(packages.drop_first(), uid);
            assert(forall|j: int|
                1 <= j < packages.len() ==> #[trigger] packages[j] == packages.drop_first()[j - 1]);
        }
    }

    /// The position of the package with the given UID, or `MetaNotFound`.
    pub fn find_uid(&self, uid: &str) -> (r: Result<usize, Error>)
        ensures
            r matches Ok(i) ==> self.spec_find_uid(uid@) == Some(i as int) && i
                < self.packages@.len() && self.packages@[i as int].uid@ == uid@,
            r is Err ==> self.spec_find_uid(uid@) is None && r == Err::<usize, Error>(
                Error::MetaNotFound,
            ),
    {
        proof {
            Self::lemma_find_uid_valid(self.packages@, uid@);
            assert(self.packages@.subrange(0, self.packages@.len() as int) =~= self.packages@);
        }
        let mut i: usize = 0;
        while i < self.packages.len()
            invariant
                i <= self.packages@.len(),
                Self::spec_find_uid_at(self.packages@, uid@) == match Self::spec_find_uid_at(
                    self.packages@.subrange(i as int, self.packages@.len() as int),
                    uid@,
                ) {
                    Some(j) => Some(j + i),
                    None => None,
                },
            decreases self.packages@.len() - i,
        {
            let ghost rest = self.packages@.subrange(i as int, self.packages@.len() as int);
            if str_eq(self.packages[i].uid.as_str(), uid) {
                proof {
                    assert(rest.first() == self.packages@[i as int]);
                }
                return Ok(i);
            }
            i += 1;
            proof {
                assert(rest.drop_first() =~= self.packages@.subrange(
                    i as int,
                    self.packages@.len() as int,
                ));
            }
        }
        Err(Error::MetaNotFound)
    }

    /// A borrow of the package with the given UID, or `MetaNotFound`.
    pub fn get_uid(&self, uid: &str) -> (r: Result<&MetaIndexPackage, Error>)
        ensures
            r matches Ok(p) ==> (match self.spec_find_uid(uid@) {
                Some(j) => *p == self.packages@[j],
                None => false,
            }),
            r is Err ==> self.spec_find_uid(uid@) is None && r == Err::<&MetaIndexPackage, Error>(
                Error::MetaNotFound,
            ),
    {
        match self.find_uid(uid) {
            Ok(i) => Ok(&self.packages[i]),
            Err(e) => Err(e),
        }
    }

    /// Fill the index slot of the package at position `i`.
    pub fn set_package_index(&mut self, i: usize, index: PackageIndex)
        requires
            i < old(self).packages@.len(),
        ensures
            final(self).format_version == old(self).format_version,
            final(self).packages@ == old(self).packages@.update(
                i as int,
                (MetaIndexPackage {
                    index: Some(index),
                    name: old(self).packages@[i as int].name,
                    sha256: old(self).packages@[i as int].sha256,
                    uid: old(self).packages@[i as int].uid,
                }),
            ),
    {
        let mut pkg = self.packages.remove(i);
        pkg.index = Some(index);
        self.packages.insert(i, pkg);
        proof {
            assert(self.packages@ =~= old(self).packages@.update(
                i as int,
                (MetaIndexPackage {
                    index: Some(index),
                    name: old(self).packages@[i as int].name,
                    sha256: old(self).packages@[i as int].sha256,
                    uid: old(self).packages@[i as int].uid,
                }),
            ));
        }
    }
}

impl PackageIndex {
    /// The position of the first entry with the given version, if any.
    pub open spec fn spec_find_version_at(
        versions: Seq<PackageVersion>,
        version: Seq<char>,
    ) -> Option<int>
        decreases versions.len(),
    {
        if versions.len() == 0 {
            None
        } else if versions.first().version@ == version {
            Some(0)
        } else {
            match Self::spec_find_version_at(versions.drop_first(), version) {
                Some(j) => Some(j + 1),
                None => None,
            }
        }
    }

    /// The position of the first entry with the given version, if any.
    pub open spec fn spec_find_version(&self, version: Seq<char>) -> Option<int> {
        Self::spec_find_version_at(self.versions@, version)
    }

    /// A found position is in range and names the version.
    pub proof fn lemma_find_version_valid(versions: Seq<PackageVersion>, version: Seq<char>)
        ensures
            match Self::spec_find_version_at(versions, version) {
                Some(j) => 0 <= j < versions.len() && versions[j].version@ == version,
                None => forall|j: int|
                    0 <= j < versions.len() ==> (#[trigger] versions[j]).version@ != version,
            },
        decreases versions.len(),
    {
        if versions.len() > 0 {
            Self::lemma_find_version_valid(versions.drop_first(), version);
            assert(forall|j: int|
                1 <= j < versions.len() ==> #[trigger] versions[j] == versions.drop_first()[j - 1]);
        }
    }

    /// The position of the entry with the given version, or `MetaNotFound`.
    pub fn find_version_index(&self, version: &str) -> (r: Result<usize, Error>)
        ensures
            r matches Ok(i) ==> self.spec_find_version(version@) == Some(i as int) && i
                < self.versions@.len() && self.versions@[i as int].version@ == version@,
            r is Err ==> self.spec_find_version(version@) is None && r == Err::<usize, Error>(
                Error::MetaNotFound,
            ),
    {
        proof {
            Self::lemma_find_version_valid(self.versions@, version@);
            assert(self.versions@.subrange(0, self.versions@.len() as int) =~= self.versions@);
        }
        let mut i: usize = 0;
        while i < self.versions.len()
            invariant
                i <= self.versions@.len(),
                Self::spec_find_version_at(self.versions@, version@)
                    == match Self::spec_find_version_at(
                    self.versions@.subrange(i as int, self.versions@.len() as int),
                    version@,
                ) {
                    Some(j) => Some(j + i),
                    None => None,
                },
            decreases self.versions@.len() - i,
        {
            let ghost rest = self.versions@.subrange(i as int, self.versions@.len() as int);
            if str_eq(self.versions[i].version.as_str(), version) {
                proof {
                    assert(rest.first() == self.versions@[i as int]);
                }
                return Ok(i);
            }
            i += 1;
            proof {
                assert(rest.drop_first() =~= self.versions@.subrange(
                    i as int,
                    self.versions@.len() as int,
                ));
            }
        }
        Err(Error::MetaNotFound)
    }

    /// A borrow of the entry with the given version, or `MetaNotFound`.
    pub fn find_version(&self, version: &str) -> (r: Result<&PackageVersion, Error>)
        ensures
            r matches Ok(v) ==> (match self.spec_find_version(version@) {
                Some(j) => *v == self.versions@[j],
                None => false,
            }),
            r is Err ==> self.spec_find_version(version@) is None && r == Err::<
                &PackageVersion,
                Error,
            >(Error::MetaNotFound),
    {
        match self.find_version_index(version) {
            Ok(i) => Ok(&self.versions[i]),
            Err(e) => Err(e),
        }
    }

    /// Fill the manifest slot of the entry at position `i`.
    pub fn set_manifest(&mut self, i: usize, manifest: Manifest)
        requires
            i < old(self).versions@.len(),
        ensures
            final(self).format_version == old(self).format_version,
            final(self).name == old(self).name,
            final(self).uid == old(self).uid,
            final(self).versions@ == old(self).versions@.update(
                i as int,
                (PackageVersion {
                    manifest: Some(manifest),
                    release_time: old(self).versions@[i as int].release_time,
                    requires: old(self).versions@[i as int].requires,
                    sha256: old(self).versions@[i as int].sha256,
                    release_type: old(self).versions@[i as int].release_type,
                    version: old(self).versions@[i as int].version,
                }),
            ),
    {
        let mut ver = self.versions.remove(i);
        ver.manifest = Some(manifest);
        self.versions.insert(i, ver);
        proof {
            assert(self.versions@ =~= old(self).versions@.update(
                i as int,
                (PackageVersion {
                    manifest: Some(manifest),
                    release_time: old(self).versions@[i as int].release_time,
                    requires: old(self).versions@[i as int].requires,
                    sha256: old(self).versions@[i as int].sha256,
                    release_type: old(self).versions@[i as int].release_type,
                    version: old(self).versions@[i as int].version,
                }),
            ));
        }
    }
}


/// How many packages still lack their version index.
pub open spec fn spec_unfilled_indexes(ps: Seq<MetaIndexPackage>) -> nat
    decreases ps.len(),
{
    if ps.len() == 0 {
        0
    } else {
        spec_unfilled_indexes(ps.drop_last()) + (if ps.last().index is None {
            1nat
        } else {
            0nat
        })
    }
}

/// How many version entries of one package still lack a manifest.
pub open spec fn spec_unfilled_manifests_in(vs: Seq<PackageVersion>) -> nat
    decreases vs.len(),
{
    if vs.len() == 0 {
        0
    } else {
        spec_unfilled_manifests_in(vs.drop_last()) + (if vs.last().manifest is None {
            1nat
        } else {
            0nat
        })
    }
}

/// How many version entries across the registry still lack a manifest.
pub open spec fn spec_unfilled_manifests(ps: Seq<MetaIndexPackage>) -> nat
    decreases ps.len(),
{
    if ps.len() == 0 {
        0
    } else {
        spec_unfilled_manifests(ps.drop_last()) + (match ps.last().index {
            None => 0nat,
            Some(pidx) => spec_unfilled_manifests_in(pidx.versions@),
        })
    }
}

/// How many loaded manifests of one package name an asset index whose
/// cache is still absent.
pub open spec fn spec_unfilled_caches_in(vs: Seq<PackageVersion>) -> nat
    decreases vs.len(),
{
    if vs.len() == 0 {
        0
    } else {
        spec_unfilled_caches_in(vs.drop_last()) + (match vs.last().manifest {
            None => 0nat,
            Some(m) => match m.asset_index {
                None => 0nat,
                Some(info) => if info.cache is None {
                    1nat
                } else {
                    0nat
                },
            },
        })
    }
}

/// How many loaded manifests across the registry still lack their asset
/// index cache.
pub open spec fn spec_unfilled_caches(ps: Seq<MetaIndexPackage>) -> nat
    decreases ps.len(),
{
    if ps.len() == 0 {
        0
    } else {
        spec_unfilled_caches(ps.drop_last()) + (match ps.last().index {
            None => 0nat,
            Some(pidx) => spec_unfilled_caches_in(pidx.versions@),
        })
    }
}

/// What one package contributes to the unfilled-index count.
pub open spec fn spec_index_gap(p: MetaIndexPackage) -> nat {
    if p.index is None {
        1
    } else {
        0
    }
}

/// What one package contributes to the unfilled-manifest count.
pub open spec fn spec_manifest_gaps(p: MetaIndexPackage) -> nat {
    match p.index {
        None => 0,
        Some(pidx) => spec_unfilled_manifests_in(pidx.versions@),
    }
}

/// What one package contributes to the unfilled-cache count.
pub open spec fn spec_cache_gaps(p: MetaIndexPackage) -> nat {
    match p.index {
        None => 0,
        Some(pidx) => spec_unfilled_caches_in(pidx.versions@),
    }
}

/// What one version entry contributes to the unfilled-manifest count.
pub open spec fn spec_manifest_gap(v: PackageVersion) -> nat {
    if v.manifest is None {
        1
    } else {
        0
    }
}

/// What one version entry contributes to the unfilled-cache count.
pub open spec fn spec_cache_gap(v: PackageVersion) -> nat {
    match v.manifest {
        None => 0,
        Some(m) => match m.asset_index {
            None => 0,
            Some(info) => if info.cache is None {
                1
            } else {
                0
            },
        },
    }
}

/// Changing one package moves the three counts by that package's own
/// contributions alone.
pub proof fn lemma_unfilled_update(ps0: Seq<MetaIndexPackage>, ps1: Seq<MetaIndexPackage>, i: int)
    requires
        0 <= i < ps0.len(),
        ps1.len() == ps0.len(),
        forall|k: int| 0 <= k < ps0.len() && k != i ==> ps1[k] == ps0[k],
    ensures
        spec_unfilled_indexes(ps1) + spec_index_gap(ps0[i]) == spec_unfilled_indexes(ps0)
            + spec_index_gap(ps1[i]),
        spec_unfilled_manifests(ps1) + spec_manifest_gaps(ps0[i]) == spec_unfilled_manifests(ps0)
            + spec_manifest_gaps(ps1[i]),
        spec_unfilled_caches(ps1) + spec_cache_gaps(ps0[i]) == spec_unfilled_caches(ps0)
            + spec_cache_gaps(ps1[i]),
    decreases ps0.len(),
{
    if i == ps0.len() - 1 {
        assert(ps1.drop_last() =~= ps0.drop_last());
    } else {
        assert(ps1.last() == ps0.last());
        lemma_unfilled_update(ps0.drop_last(), ps1.drop_last(), i);
        assert(ps1.drop_last()[i] == ps1[i]);
        assert(ps0.drop_last()[i] == ps0[i]);
    }
}

/// Changing one version entry moves the two per-package counts by that
/// entry's own contributions alone.
pub proof fn lemma_unfilled_in_update(vs0: Seq<PackageVersion>, vs1: Seq<PackageVersion>, j: int)
    requires
        0 <= j < vs0.len(),
        vs1.len() == vs0.len(),
        forall|k: int| 0 <= k < vs0.len() && k != j ==> vs1[k] == vs0[k],
    ensures
        spec_unfilled_manifests_in(vs1) + spec_manifest_gap(vs0[j]) == spec_unfilled_manifests_in(
            vs0,
        ) + spec_manifest_gap(vs1[j]),
        spec_unfilled_caches_in(vs1) + spec_cache_gap(vs0[j]) == spec_unfilled_caches_in(vs0)
            + spec_cache_gap(vs1[j]),
    decreases vs0.len(),
{
    if j == vs0.len() - 1 {
        assert(vs1.drop_last() =~= vs0.drop_last());
    } else {
        assert(vs1.last() == vs0.last());
        lemma_unfilled_in_update(vs0.drop_last(), vs1.drop_last(), j);
        assert(vs1.drop_last()[j] == vs1[j]);
        assert(vs0.drop_last()[j] == vs0[j]);
    }
}

} // verus!
