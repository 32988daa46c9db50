//! The staged resolver: wanted packages, the annotated registry, the
//! loaders that fill it, and the fixed-point search that emits download
//! requests until the transitive closure is fully materialised.

use vstd::prelude::*;

use crate::asset::AssetIndex;
use crate::disk::DiskState;
use crate::error::Error;
use crate::index::{MetaIndex, PackageIndex};
use crate::manifest::{Manifest, Requirement, OS};
use crate::request::{index_json_seg, DownloadRequest};
use crate::strutil::str_eq;

verus! {

/// One package the caller wants resolved: a UID, the version to take, and
/// an optional release-type preference.
#[derive(Debug)]
pub struct Wants {
    pub uid: String,
    pub version: String,
    pub release_type: Option<String>,
}

impl Clone for Wants {
    fn clone(&self) -> (r: Wants)
        ensures
            r.uid@ == self.uid@,
            r.version@ == self.version@,
    {
        Wants {
            uid: self.uid.clone(),
            version: self.version.clone(),
            release_type: match &self.release_type {
                Some(t) => Some(t.clone()),
                None => None,
            },
        }
    }
}

impl Wants {
    /// A want for the given UID at the given version.
    pub fn new(uid: &str, version: &str) -> (r: Wants)
        ensures
            r.uid@ == uid@,
            r.version@ == version@,
            r.release_type is None,
    {
        Wants { uid: uid.to_owned(), version: version.to_owned(), release_type: None }
    }

    /// The want a requirement induces: its UID at the suggested version.
    pub fn from(req: &Requirement) -> (r: Wants)
        ensures
            r.uid@ == req.uid@,
            r.version@ == req.spec_version(),
            r.release_type is None,
    {
        Wants { uid: req.uid.clone(), version: req.version(), release_type: None }
    }
}

/// What one `continue_search` call hands back: the downloads the caller
/// must perform before the next call, a snapshot of every manifest pushed
/// so far, and the primary UID (that of the first want).
#[derive(Debug)]
pub struct SearchResult {
    pub requests: Vec<DownloadRequest>,
    pub manifests: Vec<Manifest>,
    pub uid: String,
}

impl SearchResult {
    /// A result carrying the given parts.
    pub fn new(requests: Vec<DownloadRequest>, manifests: Vec<Manifest>, uid: String) -> (r:
        SearchResult)
        ensures
            r.requests == requests,
            r.manifests == manifests,
            r.uid == uid,
    {
        SearchResult { requests, manifests, uid }
    }

    /// True exactly when the resolution reached its fixed point: nothing
    /// is left to download.
    pub fn is_ready(&self) -> (r: bool)
        ensures
            r == (self.requests@.len() == 0),
    {
        self.requests.len() == 0
    }
}

/// True when some want in either list names `uid`.
pub open spec fn spec_uid_present(wants: Seq<Wants>, extra: Seq<Wants>, uid: Seq<char>) -> bool {
    (exists|k: int| 0 <= k < wants.len() && (#[trigger] wants[k]).uid@ == uid) || (exists|k: int|
        0 <= k < extra.len() && (#[trigger] extra[k]).uid@ == uid)
}

/// True when every requirement's UID is already wanted.
pub open spec fn spec_reqs_merged(
    wants: Seq<Wants>,
    extra: Seq<Wants>,
    reqs: Seq<Requirement>,
) -> bool {
    forall|k: int|
        0 <= k < reqs.len() ==> spec_uid_present(wants, extra, (#[trigger] reqs[k]).uid@)
}

/// True when some want in either list names `uid`.
fn uid_present(wants: &Vec<Wants>, extra: &Vec<Wants>, uid: &str) -> (r: bool)
    ensures
        r == spec_uid_present(wants@, extra@, uid@),
{
    let mut k: usize = 0;
    while k < wants.len()
        invariant
            k <= wants@.len(),
            forall|j: int| 0 <= j < k ==> (#[trigger] wants@[j]).uid@ != uid@,
        decreases wants@.len() - k,
    {
        if str_eq(wants[k].uid.as_str(), uid) {
            return true;
        }
        k += 1;
    }
    let mut k2: usize = 0;
    while k2 < extra.len()
        invariant
            k2 <= extra@.len(),
            forall|j: int| 0 <= j < k2 ==> (#[trigger] extra@[j]).uid@ != uid@,
            forall|j: int| 0 <= j < wants@.len() ==> (#[trigger] wants@[j]).uid@ != uid@,
        decreases extra@.len() - k2,
    {
        if str_eq(extra[k2].uid.as_str(), uid) {
            return true;
        }
        k2 += 1;
    }
    false
}

/// Append to `extra` a want for each requirement whose UID is not yet
/// wanted; requirements already covered add nothing.  Each appended want
/// carries some requirement's UID at exactly the version that requirement
/// asks for, and a UID no earlier want (primary, derived, or appended
/// before it) already carries.
fn merge_requirements(wants: &Vec<Wants>, extra: &mut Vec<Wants>, reqs: &Vec<Requirement>)
    ensures
        final(extra)@.len() >= old(extra)@.len(),
        forall|j: int| 0 <= j < old(extra)@.len() ==> final(extra)@[j] == old(extra)@[j],
        spec_reqs_merged(wants@, final(extra)@, reqs@),
        forall|u: Seq<char>|
            spec_uid_present(wants@, old(extra)@, u) ==> spec_uid_present(wants@, final(extra)@, u),
        spec_reqs_merged(wants@, old(extra)@, reqs@) ==> final(extra)@ == old(extra)@,
        forall|t: int|
            old(extra)@.len() <= t < final(extra)@.len() ==> exists|q: int|
                0 <= q < reqs@.len() && (#[trigger] final(extra)@[t]).uid@ == reqs@[q].uid@
                    && final(extra)@[t].version@ == reqs@[q].spec_version(),
        forall|t: int|
            old(extra)@.len() <= t < final(extra)@.len() ==> !spec_uid_present(
                wants@,
                final(extra)@.subrange(0, t),
                (#[trigger] final(extra)@[t]).uid@,
            ),
{
    let mut k: usize = 0;
    while k < reqs.len()
        invariant
            k <= reqs@.len(),
            extra@.len() >= old(extra)@.len(),
            forall|j: int| 0 <= j < old(extra)@.len() ==> extra@[j] == old(extra)@[j],
            forall|j: int|
                0 <= j < k ==> spec_uid_present(wants@, extra@, (#[trigger] reqs@[j]).uid@),
            forall|u: Seq<char>|
                spec_uid_present(wants@, old(extra)@, u) ==> spec_uid_present(wants@, extra@, u),
            spec_reqs_merged(wants@, old(extra)@, reqs@.subrange(0, k as int)) ==> extra@ == old(
                extra,
            )@,
            forall|t: int|
                old(extra)@.len() <= t < extra@.len() ==> exists|q: int|
                    0 <= q < reqs@.len() && (#[trigger] extra@[t]).uid@ == reqs@[q].uid@
                        && extra@[t].version@ == reqs@[q].spec_version(),
            forall|t: int|
                old(extra)@.len() <= t < extra@.len() ==> !spec_uid_present(
                    wants@,
                    extra@.subrange(0, t),
                    (#[trigger] extra@[t]).uid@,
                ),
        decreases reqs@.len() - k,
    {
        let ghost prev = extra@;
        if !uid_present(wants, extra, reqs[k].uid.as_str()) {
            extra.push(Wants::from(&reqs[k]));
            proof {
                assert(extra@[extra@.len() - 1].uid@ == reqs@[k as int].uid@);
                assert(extra@[extra@.len() - 1].version@ == reqs@[k as int].spec_version());
                assert(extra@.subrange(0, extra@.len() - 1) =~= prev);
                assert(!spec_uid_present(
                    wants@,
                    extra@.subrange(0, extra@.len() - 1),
                    extra@[extra@.len() - 1].uid@,
                ));
                assert(forall|t: int|
                    old(extra)@.len() <= t < prev.len() ==> extra@.subrange(0, t) =~= prev.subrange(
                        0,
                        t,
                    ));
                assert forall|u: Seq<char>|
                    spec_uid_present(wants@, prev, u) implies spec_uid_present(
                    wants@,
                    extra@,
                    u,
                ) by {
                    if exists|k2: int| 0 <= k2 < prev.len() && (#[trigger] prev[k2]).uid@ == u {
                        let k2 = choose|k2: int|
                            0 <= k2 < prev.len() && (#[trigger] prev[k2]).uid@ == u;
                        assert(extra@[k2].uid@ == u);
                    }
                }
            }
        }
        k += 1;
        proof {
            assert(forall|j: int|
                0 <= j < k - 1 ==> spec_uid_present(wants@, prev, (#[trigger] reqs@[j]).uid@));
            assert(forall|j: int|
                0 <= j < k ==> spec_uid_present(wants@, extra@, (#[trigger] reqs@[j]).uid@));
            if spec_reqs_merged(wants@, old(extra)@, reqs@.subrange(0, k as int)) {
                assert(reqs@.subrange(0, k as int)[k - 1] == reqs@[k - 1]);
                assert(spec_uid_present(wants@, old(extra)@, reqs@[k - 1].uid@));
                assert(spec_reqs_merged(wants@, old(extra)@, reqs@.subrange(0, k - 1))) by {
                    assert(forall|j: int|
                        0 <= j < k - 1 ==> reqs@.subrange(0, k as int)[j] == reqs@.subrange(
                            0,
                            k - 1,
                        )[j]);
                    assert(forall|j: int|
                        0 <= j < k - 1 ==> spec_uid_present(
                            wants@,
                            old(extra)@,
                            (#[trigger] reqs@.subrange(0, k - 1)[j]).uid@,
                        ));
                }
            }
        }
    }
    proof {
        assert(reqs@.subrange(0, reqs@.len() as int) =~= reqs@);
    }
}

/// The staged resolver: the roots it materialises into, the wanted
/// packages, and the annotated registry index.
#[derive(Debug)]
pub struct MetaManager {
    pub library_path: String,
    pub assets_path: String,
    pub base_url: String,
    pub wants: Vec<Wants>,
    pub extra_wants: Vec<Wants>,
    pub index: Option<MetaIndex>,
}

/// The manifest loaded for `(uid, version)` in the registry `ix`, if the
/// package's index and that version's manifest slot are both filled.
pub open spec fn spec_manifest_in(ix: MetaIndex, uid: Seq<char>, version: Seq<char>) -> Option<
    Manifest,
> {
    match ix.spec_find_uid(uid) {
        None => None,
        Some(i) => match ix.packages@[i].index {
            None => None,
            Some(pidx) => match pidx.spec_find_version(version) {
                None => None,
                Some(j) => pidx.versions@[j].manifest,
            },
        },
    }
}

/// True when `req` is the re-download request for the sweep failure
/// `entry` of manifest `m`: a Library request whose destination is the
/// failing artifact's path and whose download is the artifact selected
/// for the host.  The index `m.libraries.len()` stands for the main jar.
pub open spec fn spec_library_request_for(
    m: Manifest,
    entry: (int, Error),
    at: Seq<char>,
    host: Seq<char>,
    req: DownloadRequest,
) -> bool {
    req matches DownloadRequest::Library { path, download } && (if entry.0 < m.libraries@.len() {
        &&& path@ == m.libraries@[entry.0].spec_path_for(at, host)
        &&& Some(download.sha1@) == m.libraries@[entry.0].spec_selected_sha1(host)
        &&& Some(download.url@) == m.libraries@[entry.0].spec_selected_url(host)
        &&& Some(download.size as int) == m.libraries@[entry.0].spec_selected_size(host)
    } else {
        m.main_jar matches Some(jar) && {
            &&& path@ == jar.spec_path_for(at, host)
            &&& Some(download.sha1@) == jar.spec_selected_sha1(host)
            &&& Some(download.url@) == jar.spec_selected_url(host)
            &&& Some(download.size as int) == jar.spec_selected_size(host)
        }
    })
}

impl MetaManager {
    /// The manifest loaded for `(uid, version)`, if the registry, the
    /// package's index and that version's manifest slot are all filled.
    pub open spec fn spec_manifest_at(&self, uid: Seq<char>, version: Seq<char>) -> Option<
        Manifest,
    > {
        match self.index {
            None => None,
            Some(ix) => spec_manifest_in(ix, uid, version),
        }
    }

    /// True when the slot for `(uid, version)` is addressable: the
    /// registry is loaded, it knows the UID, that package's version index
    /// is loaded, and the index lists the version.
    pub open spec fn spec_slot_ready(&self, uid: Seq<char>, version: Seq<char>) -> bool {
        match self.index {
            None => false,
            Some(ix) => match ix.spec_find_uid(uid) {
                None => false,
                Some(i) => match ix.packages@[i].index {
                    None => false,
                    Some(pidx) => pidx.spec_find_version(version) is Some,
                },
            },
        }
    }

    /// A new manager over the given library root, assets root and registry
    /// base URL, with nothing wanted and no registry loaded.
    pub fn new(library_path: &str, assets_path: &str, base_url: &str) -> (r: MetaManager)
        ensures
            r.library_path@ == library_path@,
            r.assets_path@ == assets_path@,
            r.base_url@ == base_url@,
            r.wants@.len() == 0,
            r.extra_wants@.len() == 0,
            r.index is None,
    {
        MetaManager {
            library_path: library_path.to_owned(),
            assets_path: assets_path.to_owned(),
            base_url: base_url.to_owned(),
            wants: Vec::new(),
            extra_wants: Vec::new(),
            index: None,
        }
    }

    /// Ask for one more package; the next `continue_search` calls will
    /// work towards it.
    pub fn search(&mut self, what: Wants) -> (r: Result<(), Error>)
        ensures
            r is Ok,
            final(self).wants@ == old(self).wants@.push(what),
            final(self).extra_wants == old(self).extra_wants,
            final(self).index == old(self).index,
            final(self).library_path == old(self).library_path,
            final(self).assets_path == old(self).assets_path,
            final(self).base_url == old(self).base_url,
    {
        self.wants.push(what);
        Ok(())
    }

    /// The URL of the registry's top-level index: `<base_url>/index.json`.
    pub fn index_url(&self) -> (r: String)
        ensures
            r@ == self.base_url@ + index_json_seg(),
    {
        let mut r = self.base_url.clone();
        r.append("/index.json");
        proof {
            reveal_strlit("/index.json");
            assert("/index.json"@ =~= index_json_seg());
            assert(r@ =~= self.base_url@ + index_json_seg());
        }
        r
    }

    /// Install the registry's top-level index.
    pub fn load_meta_index(&mut self, index: MetaIndex) -> (r: Result<(), Error>)
        ensures
            r is Ok,
            final(self).index == Some(index),
            final(self).wants == old(self).wants,
            final(self).extra_wants == old(self).extra_wants,
            final(self).library_path == old(self).library_path,
            final(self).assets_path == old(self).assets_path,
            final(self).base_url == old(self).base_url,
    {
        self.index = Some(index);
        Ok(())
    }

    /// Install one package's version index into its slot.  Fails with
    /// `MetaNotFound` when no registry is loaded or the registry does not
    /// know the package's UID.  Filling an empty slot strictly shrinks
    /// the count of unfilled index slots: the registry -> index ->
    /// manifest chain can repeat only finitely often.
    pub fn load_index(&mut self, package: PackageIndex) -> (r: Result<(), Error>)
        ensures
            r is Ok <==> (old(self).index matches Some(ix) && ix.spec_find_uid(package.uid@)
                is Some),
            r is Ok ==> (match (old(self).index, final(self).index) {
                (Some(ix0a), Some(ix1a)) => (ix0a.spec_find_uid(package.uid@) matches Some(i)
                    && ix0a.packages@[i].index is None)
                    ==> crate::index::spec_unfilled_indexes(ix1a.packages@)
                    < crate::index::spec_unfilled_indexes(ix0a.packages@),
                _ => false,
            }),
            r is Err ==> r == Err::<(), Error>(Error::MetaNotFound) && *final(self) == *old(self),
            final(self).wants == old(self).wants,
            final(self).extra_wants == old(self).extra_wants,
            final(self).library_path == old(self).library_path,
            final(self).assets_path == old(self).assets_path,
            final(self).base_url == old(self).base_url,
            r is Ok ==> (match (old(self).index, final(self).index) {
                (Some(ix0), Some(ix1)) => ix1.format_version == ix0.format_version
                    && ix1.packages@.len() == ix0.packages@.len() && (match ix0.spec_find_uid(
                    package.uid@,
                ) {
                    Some(i) => ix1.packages@ == ix0.packages@.update(
                        i,
                        (crate::index::MetaIndexPackage {
                            index: Some(package),
                            name: ix0.packages@[i].name,
                            sha256: ix0.packages@[i].sha256,
                            uid: ix0.packages@[i].uid,
                        }),
                    ),
                    None => false,
                }),
                _ => false,
            }),
    {
        let mut ix = match self.index.take() {
            Some(ix) => ix,
            None => {
                return Err(Error::MetaNotFound);
            },
        };
        let ghost ix0 = ix;
        let i = match ix.find_uid(package.uid.as_str()) {
            Ok(i) => i,
            Err(e) => {
                self.index = Some(ix);
                return Err(e);
            },
        };
        ix.set_package_index(i, package);
        proof {
            crate::index::lemma_unfilled_update(ix0.packages@, ix.packages@, i as int);
        }
        self.index = Some(ix);
        Ok(())
    }

    /// Install one version's manifest into its slot, with fresh session
    /// flags.  Succeeds exactly when the registry is loaded, knows the
    /// manifest's UID, has that package's version index, and the index
    /// lists the manifest's version; everything else is `MetaNotFound`.
    pub fn load_manifest(&mut self, manifest: Manifest) -> (r: Result<(), Error>)
        ensures
            r is Ok <==> old(self).spec_slot_ready(manifest.uid@, manifest.version@),
            r is Ok ==> (match (old(self).index, final(self).index) {
                (Some(ix0a), Some(ix1a)) => crate::index::spec_unfilled_indexes(ix1a.packages@)
                    == crate::index::spec_unfilled_indexes(ix0a.packages@) && (old(
                    self,
                ).spec_manifest_at(manifest.uid@, manifest.version@) is None
                    ==> crate::index::spec_unfilled_manifests(ix1a.packages@)
                    < crate::index::spec_unfilled_manifests(ix0a.packages@)),
                _ => false,
            }),
            final(self).wants == old(self).wants,
            final(self).extra_wants == old(self).extra_wants,
            final(self).library_path == old(self).library_path,
            final(self).assets_path == old(self).assets_path,
            final(self).base_url == old(self).base_url,
            r is Err ==> r == Err::<(), Error>(Error::MetaNotFound) && *final(self) == *old(self),
            r is Ok ==> (match final(self).spec_manifest_at(manifest.uid@, manifest.version@) {
                Some(m) => m.wf() && m.libraries == manifest.libraries && m.traits
                    == manifest.traits && m.asset_index == manifest.asset_index && m.main_class
                    == manifest.main_class && m.main_jar == manifest.main_jar
                    && m.minecraft_arguments == manifest.minecraft_arguments && m.name
                    == manifest.name && m.order == manifest.order && m.release_time
                    == manifest.release_time && m.requires == manifest.requires && m.release_type
                    == manifest.release_type && m.uid == manifest.uid && m.version
                    == manifest.version && !m.main_jar_verified && (forall|j: int|
                    0 <= j < m.libs_verified@.len() ==> !(#[trigger] m.libs_verified@[j])),
                None => false,
            }),
            // Nothing else changes: every other slot reads as before.
            r is Ok ==> (forall|u: Seq<char>, v: Seq<char>|
                #![trigger final(self).spec_manifest_at(u, v)]
                !(u == manifest.uid@ && v == manifest.version@) ==> final(self).spec_manifest_at(
                    u,
                    v,
                ) == old(self).spec_manifest_at(u, v)),
    {
        let (i, j) = {
            let ix_ref = match &self.index {
                Some(ix) => ix,
                None => {
                    return Err(Error::MetaNotFound);
                },
            };
            let i = match ix_ref.find_uid(manifest.uid.as_str()) {
                Ok(i) => i,
                Err(_) => {
                    return Err(Error::MetaNotFound);
                },
            };
            let pidx_ref = match &ix_ref.packages[i].index {
                Some(p) => p,
                None => {
                    return Err(Error::MetaNotFound);
                },
            };
            let j = match pidx_ref.find_version_index(manifest.version.as_str()) {
                Ok(j) => j,
                Err(_) => {
                    return Err(Error::MetaNotFound);
                },
            };
            (i, j)
        };
        let mut manifest = manifest;
        manifest.init_verification();
        let ghost uid_view = manifest.uid@;
        let ghost version_view = manifest.version@;
        let mut ix = match self.index.take() {
            Some(ix) => ix,
            None => {
                proof {
                    assert(false);
                }
                return Err(Error::MetaNotFound);
            },
        };
        let ghost ix0 = ix;
        let mut pkg = ix.packages.remove(i);
        let mut pidx = match pkg.index.take() {
            Some(p) => p,
            None => {
                proof {
                    assert(false);
                }
                return Err(Error::MetaNotFound);
            },
        };
        let ghost pidx0 = pidx;
        pidx.set_manifest(j, manifest);
        pkg.index = Some(pidx);
        ix.packages.insert(i, pkg);
        proof {
            assert(forall|k: int|
                0 <= k < ix0.packages@.len() && k != i ==> ix.packages@[k] == ix0.packages@[k]);
            lemma_find_uid_after_update(ix0.packages@, ix.packages@, i as int, uid_view);
            lemma_find_version_after_update(
                pidx0.versions@,
                pidx.versions@,
                j as int,
                version_view,
            );
            crate::index::lemma_unfilled_update(ix0.packages@, ix.packages@, i as int);
            crate::index::lemma_unfilled_in_update(pidx0.versions@, pidx.versions@, j as int);
            lemma_slot_update_frame(
                ix0,
                ix,
                pidx0,
                i as int,
                j as int,
                uid_view,
                version_view,
            );
        }
        self.index = Some(ix);
        Ok(())
    }

    /// Install a downloaded asset index into the cache slot of the
    /// manifest at `(uid, version)`.  Succeeds exactly when that manifest
    /// is loaded and names an asset index; everything else is
    /// `MetaNotFound`.
    pub fn load_asset_index(&mut self, uid: &str, version: &str, aindex: AssetIndex) -> (r: Result<
        (),
        Error,
    >)
        ensures
            r is Ok <==> (old(self).spec_manifest_at(uid@, version@) matches Some(m)
                && m.asset_index is Some),
            r is Ok ==> (match (old(self).index, final(self).index) {
                (Some(ix0a), Some(ix1a)) => crate::index::spec_unfilled_indexes(ix1a.packages@)
                    == crate::index::spec_unfilled_indexes(ix0a.packages@)
                    && crate::index::spec_unfilled_manifests(ix1a.packages@)
                    == crate::index::spec_unfilled_manifests(ix0a.packages@) && ((old(
                    self,
                ).spec_manifest_at(uid@, version@) matches Some(m) && (m.asset_index
                    matches Some(info) && info.cache is None))
                    ==> crate::index::spec_unfilled_caches(ix1a.packages@)
                    < crate::index::spec_unfilled_caches(ix0a.packages@)),
                _ => false,
            }),
            final(self).wants == old(self).wants,
            final(self).extra_wants == old(self).extra_wants,
            final(self).library_path == old(self).library_path,
            final(self).assets_path == old(self).assets_path,
            final(self).base_url == old(self).base_url,
            r is Err ==> r == Err::<(), Error>(Error::MetaNotFound) && *final(self) == *old(self),
            // The touched manifest keeps everything but the cache slot.
            r is Ok ==> (match (
                old(self).spec_manifest_at(uid@, version@),
                final(self).spec_manifest_at(uid@, version@),
            ) {
                (Some(m0), Some(m1)) => m1.libraries == m0.libraries && m1.libs_verified
                    == m0.libs_verified && m1.main_jar == m0.main_jar && m1.main_jar_verified
                    == m0.main_jar_verified && m1.traits == m0.traits && m1.main_class
                    == m0.main_class && m1.minecraft_arguments == m0.minecraft_arguments
                    && m1.name == m0.name && m1.order == m0.order && m1.release_time
                    == m0.release_time && m1.requires == m0.requires && m1.release_type
                    == m0.release_type && m1.uid == m0.uid && m1.version == m0.version && (match (
                    m0.asset_index,
                    m1.asset_index,
                ) {
                    (Some(i0), Some(i1)) => i1.id == i0.id && i1.sha1 == i0.sha1 && i1.size
                        == i0.size && i1.total_size == i0.total_size && i1.url == i0.url
                        && i1.cache == Some(aindex),
                    _ => false,
                }),
                _ => false,
            }),
            // Nothing else changes: every other slot reads as before.
            r is Ok ==> (forall|u: Seq<char>, v: Seq<char>|
                #![trigger final(self).spec_manifest_at(u, v)]
                !(u == uid@ && v == version@) ==> final(self).spec_manifest_at(u, v) == old(
                    self,
                ).spec_manifest_at(u, v)),
    {
        let (i, j) = {
            let ix_ref = match &self.index {
                Some(ix) => ix,
                None => {
                    return Err(Error::MetaNotFound);
                },
            };
            let i = match ix_ref.find_uid(uid) {
                Ok(i) => i,
                Err(_) => {
                    return Err(Error::MetaNotFound);
                },
            };
            let pidx_ref = match &ix_ref.packages[i].index {
                Some(p) => p,
                None => {
                    return Err(Error::MetaNotFound);
                },
            };
            let j = match pidx_ref.find_version_index(version) {
                Ok(j) => j,
                Err(_) => {
                    return Err(Error::MetaNotFound);
                },
            };
            let mani_ref = match &pidx_ref.versions[j].manifest {
                Some(m) => m,
                None => {
                    return Err(Error::MetaNotFound);
                },
            };
            match &mani_ref.asset_index {
                Some(_) => {},
                None => {
                    return Err(Error::MetaNotFound);
                },
            }
            (i, j)
        };
        let mut ix = match self.index.take() {
            Some(ix) => ix,
            None => {
                proof {
                    assert(false);
                }
                return Err(Error::MetaNotFound);
            },
        };
        let ghost ix0 = ix;
        let mut pkg = ix.packages.remove(i);
        let mut pidx = match pkg.index.take() {
            Some(p) => p,
            None => {
                proof {
                    assert(false);
                }
                return Err(Error::MetaNotFound);
            },
        };
        let ghost pidx0 = pidx;
        let mut ver = pidx.versions.remove(j);
        let mut mani = match ver.manifest.take() {
            Some(m) => m,
            None => {
                proof {
                    assert(false);
                }
                return Err(Error::MetaNotFound);
            },
        };
        let ghost mani0 = mani;
        let mut info = match mani.asset_index.take() {
            Some(info) => info,
            None => {
                proof {
                    assert(false);
                }
                return Err(Error::MetaNotFound);
            },
        };
        info.cache = Some(aindex);
        mani.asset_index = Some(info);
        ver.manifest = Some(mani);
        pidx.versions.insert(j, ver);
        pkg.index = Some(pidx);
        ix.packages.insert(i, pkg);
        proof {
            assert(forall|k: int|
                0 <= k < pidx0.versions@.len() && k != j ==> pidx.versions@[k]
                    == pidx0.versions@[k]);
            assert(forall|k: int|
                0 <= k < ix0.packages@.len() && k != i ==> ix.packages@[k] == ix0.packages@[k]);
            lemma_find_uid_after_update(ix0.packages@, ix.packages@, i as int, uid@);
            lemma_find_version_after_update(pidx0.versions@, pidx.versions@, j as int, version@);
            crate::index::lemma_unfilled_update(ix0.packages@, ix.packages@, i as int);
            crate::index::lemma_unfilled_in_update(pidx0.versions@, pidx.versions@, j as int);
            lemma_slot_update_frame(ix0, ix, pidx0, i as int, j as int, uid@, version@);
            assert(spec_manifest_in(ix0, uid@, version@) == Some(mani0));
        }
        self.index = Some(ix);
        Ok(())
    }
}

/// Updating one package without changing its UID moves no lookup: every
/// UID finds the same position before and after.
pub proof fn lemma_find_uid_after_update(
    p0: Seq<crate::index::MetaIndexPackage>,
    p1: Seq<crate::index::MetaIndexPackage>,
    i: int,
    uid: Seq<char>,
)
    requires
        0 <= i < p0.len(),
        p1.len() == p0.len(),
        forall|k: int| 0 <= k < p0.len() && k != i ==> p1[k] == p0[k],
        p1[i].uid@ == p0[i].uid@,
    ensures
        forall|u: Seq<char>|
            #[trigger] MetaIndex::spec_find_uid_at(p1, u) == MetaIndex::spec_find_uid_at(p0, u),
    decreases p0.len(),
{
    assert forall|u: Seq<char>|
        #[trigger] MetaIndex::spec_find_uid_at(p1, u) == MetaIndex::spec_find_uid_at(p0, u) by {
        lemma_find_uid_after_update_one(p0, p1, i, u);
    }
}

/// Helper for one UID at a time.
pub proof fn lemma_find_uid_after_update_one(
    p0: Seq<crate::index::MetaIndexPackage>,
    p1: Seq<crate::index::MetaIndexPackage>,
    i: int,
    u: Seq<char>,
)
    requires
        0 <= i < p0.len(),
        p1.len() == p0.len(),
        forall|k: int| 0 <= k < p0.len() && k != i ==> p1[k] == p0[k],
        p1[i].uid@ == p0[i].uid@,
    ensures
        MetaIndex::spec_find_uid_at(p1, u) == MetaIndex::spec_find_uid_at(p0, u),
    decreases p0.len(),
{
    if p0.len() > 0 {
        assert(p1.first().uid@ == p0.first().uid@);
        if p0.first().uid@ != u {
            if i == 0 {
                assert(p1.drop_first() =~= p0.drop_first());
            } else {
                lemma_find_uid_after_update_one(p0.drop_first(), p1.drop_first(), i - 1, u);
            }
        }
    }
}

/// Updating one version entry without changing its version string moves no
/// lookup.
pub proof fn lemma_find_version_after_update(
    v0: Seq<crate::index::PackageVersion>,
    v1: Seq<crate::index::PackageVersion>,
    j: int,
    version: Seq<char>,
)
    requires
        0 <= j < v0.len(),
        v1.len() == v0.len(),
        forall|k: int| 0 <= k < v0.len() && k != j ==> v1[k] == v0[k],
        v1[j].version@ == v0[j].version@,
    ensures
        forall|v: Seq<char>|
            #[trigger] PackageIndex::spec_find_version_at(v1, v) == PackageIndex::spec_find_version_at(
                v0,
                v,
            ),
{
    assert forall|v: Seq<char>|
        #[trigger] PackageIndex::spec_find_version_at(v1, v) == PackageIndex::spec_find_version_at(
            v0,
            v,
        ) by {
        lemma_find_version_after_update_one(v0, v1, j, v);
    }
}

/// Helper for one version string at a time.
pub proof fn lemma_find_version_after_update_one(
    v0: Seq<crate::index::PackageVersion>,
    v1: Seq<crate::index::PackageVersion>,
    j: int,
    v: Seq<char>,
)
    requires
        0 <= j < v0.len(),
        v1.len() == v0.len(),
        forall|k: int| 0 <= k < v0.len() && k != j ==> v1[k] == v0[k],
        v1[j].version@ == v0[j].version@,
    ensures
        PackageIndex::spec_find_version_at(v1, v) == PackageIndex::spec_find_version_at(v0, v),
    decreases v0.len(),
{
    if v0.len() > 0 {
        assert(v1.first().version@ == v0.first().version@);
        if v0.first().version@ != v {
            if j == 0 {
                assert(v1.drop_first() =~= v0.drop_first());
            } else {
                lemma_find_version_after_update_one(v0.drop_first(), v1.drop_first(), j - 1, v);
            }
        }
    }
}


/// True when `(uid, version)` is fully resolved in the registry: the
/// package and version are known, the manifest is loaded and well-formed,
/// its requirements are all wanted, a caching sweep of its artifacts
/// reports no failures, and its asset index (when it names one) is cached
/// with no failing assets.
pub open spec fn spec_resolved(
    ix: MetaIndex,
    wants: Seq<Wants>,
    extra: Seq<Wants>,
    uid: Seq<char>,
    version: Seq<char>,
    lib_path: Seq<char>,
    assets_path: Seq<char>,
    host: Seq<char>,
    disk: DiskState,
) -> bool {
    match ix.spec_find_uid(uid) {
        None => false,
        Some(i) => match ix.packages@[i].index {
            None => false,
            Some(pidx) => match pidx.spec_find_version(version) {
                None => false,
                Some(j) => {
                    let ver = pidx.versions@[j];
                    &&& spec_reqs_merged(wants, extra, ver.requires@)
                    &&& match ver.manifest {
                        None => false,
                        Some(m) => {
                            &&& m.uid@ == uid
                            &&& m.version@ == version
                            &&& m.wf()
                            &&& spec_reqs_merged(wants, extra, m.requires@)
                            &&& m.spec_verify_all(true, lib_path, host, disk) == Ok::<
                                Seq<(int, Error)>,
                                Error,
                            >(Seq::empty())
                            &&& match m.asset_index {
                                None => true,
                                Some(info) => match info.cache {
                                    None => false,
                                    Some(c) => c.wf() && AssetIndex::spec_failures(
                                        c.objects@,
                                        c.verified@,
                                        true,
                                        assets_path,
                                        disk,
                                        c.objects@.len() as int,
                                    ) == Seq::<(int, Error)>::empty(),
                                },
                            }
                        },
                    }
                },
            },
        },
    }
}

/// Resolvedness only reads the extra wants positively: growing the list
/// keeps it.
pub proof fn lemma_resolved_extra_monotone(
    ix: MetaIndex,
    wants: Seq<Wants>,
    e0: Seq<Wants>,
    e1: Seq<Wants>,
    uid: Seq<char>,
    version: Seq<char>,
    lib_path: Seq<char>,
    assets_path: Seq<char>,
    host: Seq<char>,
    disk: DiskState,
)
    requires
        spec_resolved(ix, wants, e0, uid, version, lib_path, assets_path, host, disk),
        e1.len() >= e0.len(),
        forall|t: int| 0 <= t < e0.len() ==> e1[t] == e0[t],
    ensures
        spec_resolved(ix, wants, e1, uid, version, lib_path, assets_path, host, disk),
{
    assert forall|u: Seq<char>|
        spec_uid_present(wants, e0, u) implies spec_uid_present(wants, e1, u) by {
        if exists|k: int| 0 <= k < e0.len() && (#[trigger] e0[k]).uid@ == u {
            let k = choose|k: int| 0 <= k < e0.len() && (#[trigger] e0[k]).uid@ == u;
            assert(e1[k].uid@ == u);
        }
    }
}

/// A caching sweep that reported no failures keeps reporting none after
/// flags grow towards artifacts that check out.
pub proof fn lemma_lib_failures_stable(
    libs: Seq<crate::manifest::Library>,
    f0: Seq<bool>,
    f1: Seq<bool>,
    at: Seq<char>,
    host: Seq<char>,
    disk: DiskState,
    upto: int,
)
    requires
        f0.len() == f1.len(),
        upto <= f0.len(),
        upto <= libs.len(),
        forall|j: int| 0 <= j < f0.len() ==> ((#[trigger] f0[j]) ==> f1[j]),
        forall|j: int|
            0 <= j < f0.len() ==> ((#[trigger] f1[j]) ==> f0[j] || (
            crate::manifest::spec_required_for(libs[j].rules@, host) && libs[j].spec_check(
                at,
                host,
                disk,
            ) is Ok)),
        Manifest::spec_lib_failures(libs, f0, true, at, host, disk, upto) == Ok::<
            Seq<(int, Error)>,
            Error,
        >(Seq::empty()),
    ensures
        Manifest::spec_lib_failures(libs, f1, true, at, host, disk, upto) == Ok::<
            Seq<(int, Error)>,
            Error,
        >(Seq::empty()),
    decreases upto,
{
    if upto > 0 {
        let prefix0 = Manifest::spec_lib_failures(libs, f0, true, at, host, disk, upto - 1);
        assert(prefix0 == Ok::<Seq<(int, Error)>, Error>(Seq::empty())) by {
            match prefix0 {
                Err(_) => {
                    assert(false);
                },
                Ok(s) => {
                    if s.len() > 0 {
                        assert(Manifest::spec_lib_failures(libs, f0, true, at, host, disk, upto)
                            matches Ok(s2) && s2.len() >= s.len());
                        assert(false);
                    } else {
                        assert(s =~= Seq::<(int, Error)>::empty());
                    }
                },
            }
        }
        lemma_lib_failures_stable(libs, f0, f1, at, host, disk, upto - 1);
    }
}

/// The asset counterpart of the stability lemma.
pub proof fn lemma_asset_failures_stable(
    objects: Seq<crate::asset::AssetEntry>,
    f0: Seq<bool>,
    f1: Seq<bool>,
    at: Seq<char>,
    disk: DiskState,
    upto: int,
)
    requires
        f0.len() == f1.len(),
        upto <= f0.len(),
        upto <= objects.len(),
        forall|j: int| 0 <= j < f0.len() ==> ((#[trigger] f0[j]) ==> f1[j]),
        forall|j: int|
            0 <= j < f0.len() ==> ((#[trigger] f1[j]) ==> f0[j] || objects[j].asset.spec_check(
                at,
                disk,
            ) is Ok),
        AssetIndex::spec_failures(objects, f0, true, at, disk, upto) == Seq::<(int, Error)>::empty(),
    ensures
        AssetIndex::spec_failures(objects, f1, true, at, disk, upto) == Seq::<(int, Error)>::empty(),
    decreases upto,
{
    if upto > 0 {
        let prefix0 = AssetIndex::spec_failures(objects, f0, true, at, disk, upto - 1);
        assert(prefix0 == Seq::<(int, Error)>::empty()) by {
            if prefix0.len() > 0 {
                assert(AssetIndex::spec_failures(objects, f0, true, at, disk, upto).len()
                    >= prefix0.len());
                assert(false);
            } else {
                assert(prefix0 =~= Seq::<(int, Error)>::empty());
            }
        }
        lemma_asset_failures_stable(objects, f0, f1, at, disk, upto - 1);
    }
}

/// Each entry of a library sweep names a required library whose check
/// failed recoverably.
pub proof fn lemma_lib_failures_entry_facts(
    libs: Seq<crate::manifest::Library>,
    flags: Seq<bool>,
    use_flags: bool,
    at: Seq<char>,
    host: Seq<char>,
    disk: DiskState,
    upto: int,
)
    ensures
        Manifest::spec_lib_failures(libs, flags, use_flags, at, host, disk, upto) matches Ok(s)
            ==> forall|t: int|
            0 <= t < s.len() ==> 0 <= (#[trigger] s[t]).0 < upto && libs[s[t].0].spec_check(
                at,
                host,
                disk,
            ) == Err::<(), Error>(s[t].1) && (s[t].1 == Error::LibraryMissing || s[t].1
                == Error::LibraryInvalidHash),
    decreases upto,
{
    if upto > 0 {
        lemma_lib_failures_entry_facts(libs, flags, use_flags, at, host, disk, upto - 1);
    }
}

/// Each entry of an asset sweep names an asset whose check failed.
pub proof fn lemma_asset_failures_entry_facts(
    objects: Seq<crate::asset::AssetEntry>,
    flags: Seq<bool>,
    use_flags: bool,
    at: Seq<char>,
    disk: DiskState,
    upto: int,
)
    ensures
        forall|t: int|
            0 <= t < AssetIndex::spec_failures(objects, flags, use_flags, at, disk, upto).len()
                ==> 0 <= (#[trigger] AssetIndex::spec_failures(
                objects,
                flags,
                use_flags,
                at,
                disk,
                upto,
            )[t]).0 < upto && objects[AssetIndex::spec_failures(
                objects,
                flags,
                use_flags,
                at,
                disk,
                upto,
            )[t].0].asset.spec_check(at, disk) == Err::<(), Error>(
                AssetIndex::spec_failures(objects, flags, use_flags, at, disk, upto)[t].1,
            ),
    decreases upto,
{
    if upto > 0 {
        lemma_asset_failures_entry_facts(objects, flags, use_flags, at, disk, upto - 1);
    }
}

/// Each entry of a whole-manifest sweep names either a library (by its
/// position) or the main jar (by the position one past the libraries).
pub proof fn lemma_verify_all_entry_facts(
    m: Manifest,
    use_flags: bool,
    at: Seq<char>,
    host: Seq<char>,
    disk: DiskState,
)
    ensures
        m.spec_verify_all(use_flags, at, host, disk) matches Ok(s) ==> forall|t: int|
            0 <= t < s.len() ==> ((0 <= (#[trigger] s[t]).0 < m.libraries@.len()
                && m.libraries@[s[t].0].spec_check(at, host, disk) == Err::<(), Error>(s[t].1)) || (
            s[t].0 == m.libraries@.len() && (m.main_jar matches Some(jar) && jar.spec_check(
                at,
                host,
                disk,
            ) == Err::<(), Error>(s[t].1)))) && (s[t].1 == Error::LibraryMissing || s[t].1
                == Error::LibraryInvalidHash),
{
    let n = m.libraries@.len() as int;
    lemma_lib_failures_entry_facts(
        m.libraries@,
        m.libs_verified@,
        use_flags,
        at,
        host,
        disk,
        n,
    );
}



/// How one resolution step may change a manifest in place: the data is
/// untouched, the session flags only grow towards artifacts that check
/// out, and a cached asset index keeps its objects while its flags grow
/// the same way.
pub open spec fn manifest_step_relation(
    m0: Manifest,
    m1: Manifest,
    lib_path: Seq<char>,
    assets_path: Seq<char>,
    host: Seq<char>,
    disk: DiskState,
) -> bool {
    &&& m1.libraries == m0.libraries
    &&& m1.main_jar == m0.main_jar
    &&& m1.requires == m0.requires
    &&& m1.uid == m0.uid
    &&& m1.version == m0.version
    &&& m1.wf()
    &&& m0.wf()
    &&& m1.libs_verified@.len() == m0.libs_verified@.len()
    &&& forall|t: int|
        0 <= t < m0.libs_verified@.len() ==> ((#[trigger] m0.libs_verified@[t])
            ==> m1.libs_verified@[t])
    &&& forall|t: int|
        0 <= t < m0.libs_verified@.len() ==> ((#[trigger] m1.libs_verified@[t])
            ==> m0.libs_verified@[t] || (crate::manifest::spec_required_for(
            m0.libraries@[t].rules@,
            host,
        ) && m0.libraries@[t].spec_check(lib_path, host, disk) is Ok))
    &&& (m0.main_jar_verified ==> m1.main_jar_verified)
    &&& (m1.main_jar_verified ==> m0.main_jar_verified || (m0.main_jar matches Some(jar)
        && jar.spec_check(lib_path, host, disk) is Ok))
    &&& (match (m0.asset_index, m1.asset_index) {
        (None, None) => true,
        (Some(i0), Some(i1)) => match (i0.cache, i1.cache) {
            (None, None) => true,
            (Some(c0), Some(c1)) => c0.wf() ==> (c1.objects@ == c0.objects@ && c1.wf() && (forall|
                t: int,
            |
                0 <= t < c0.verified@.len() ==> ((#[trigger] c0.verified@[t])
                    ==> c1.verified@[t])) && (forall|t: int|
                0 <= t < c0.verified@.len() ==> ((#[trigger] c1.verified@[t]) ==> c0.verified@[t]
                    || c0.objects@[t].asset.spec_check(assets_path, disk) is Ok))),
            _ => false,
        },
        _ => false,
    })
}

/// A whole-manifest caching sweep that reported nothing keeps reporting
/// nothing across one resolution step.
pub proof fn lemma_verify_all_stable(
    m0: Manifest,
    m1: Manifest,
    lib_path: Seq<char>,
    assets_path: Seq<char>,
    host: Seq<char>,
    disk: DiskState,
)
    requires
        manifest_step_relation(m0, m1, lib_path, assets_path, host, disk),
        m0.spec_verify_all(true, lib_path, host, disk) == Ok::<Seq<(int, Error)>, Error>(
            Seq::empty(),
        ),
    ensures
        m1.spec_verify_all(true, lib_path, host, disk) == Ok::<Seq<(int, Error)>, Error>(
            Seq::empty(),
        ),
{
    let n = m0.libraries@.len() as int;
    let lib0 = Manifest::spec_lib_failures(
        m0.libraries@,
        m0.libs_verified@,
        true,
        lib_path,
        host,
        disk,
        n,
    );
    assert(lib0 == Ok::<Seq<(int, Error)>, Error>(Seq::empty())) by {
        match lib0 {
            Err(_) => {
                assert(false);
            },
            Ok(s) => {
                if s.len() > 0 {
                    match m0.spec_verify_all(true, lib_path, host, disk) {
                        Ok(s2) => {
                            assert(s2.len() >= s.len());
                            assert(false);
                        },
                        Err(_) => {
                            assert(false);
                        },
                    }
                } else {
                    assert(s =~= Seq::<(int, Error)>::empty());
                }
            },
        }
    }
    lemma_lib_failures_stable(
        m0.libraries@,
        m0.libs_verified@,
        m1.libs_verified@,
        lib_path,
        host,
        disk,
        n,
    );
}

/// True when positions `o .. o + fails.len()` of `requests` hold the
/// Library requests of the sweep failures `fails` of `m`, in order.
pub open spec fn spec_planned_at(
    m: Manifest,
    fails: Seq<(int, Error)>,
    at: Seq<char>,
    host: Seq<char>,
    requests: Seq<DownloadRequest>,
    o: int,
) -> bool {
    0 <= o && o + fails.len() <= requests.len() && (forall|t: int|
        0 <= t < fails.len() ==> spec_library_request_for(
            m,
            fails[t],
            at,
            host,
            #[trigger] requests[o + t],
        ))
}

/// True when `requests` holds, in order at some offset, one Library
/// request per failure of `m`'s caching sweep.
pub open spec fn spec_sweep_planned(
    m: Manifest,
    at: Seq<char>,
    host: Seq<char>,
    disk: DiskState,
    requests: Seq<DownloadRequest>,
) -> bool {
    m.spec_verify_all(true, at, host, disk) matches Ok(fails) ==> exists|o: int|
        #[trigger] spec_planned_at(m, fails, at, host, requests, o)
}

/// True when the want's loaded manifest (if any, well-formed and carrying
/// the slot's coordinates) has its sweep failures planned in `requests`.
pub open spec fn spec_want_planned(
    ix: MetaIndex,
    w: Wants,
    at: Seq<char>,
    host: Seq<char>,
    disk: DiskState,
    requests: Seq<DownloadRequest>,
) -> bool {
    match spec_manifest_in(ix, w.uid@, w.version@) {
        Some(m) => (m.wf() && m.uid@ == w.uid@ && m.version@ == w.version@)
            ==> spec_sweep_planned(m, at, host, disk, requests),
        None => true,
    }
}

/// Planned sweeps stay planned as the request list grows.
pub proof fn lemma_want_planned_monotone(
    ix: MetaIndex,
    w: Wants,
    at: Seq<char>,
    host: Seq<char>,
    disk: DiskState,
    r0: Seq<DownloadRequest>,
    r1: Seq<DownloadRequest>,
)
    requires
        spec_want_planned(ix, w, at, host, disk, r0),
        r1.len() >= r0.len(),
        forall|q: int| 0 <= q < r0.len() ==> r1[q] == r0[q],
    ensures
        spec_want_planned(ix, w, at, host, disk, r1),
{
    match spec_manifest_in(ix, w.uid@, w.version@) {
        Some(m) => {
            if m.wf() && m.uid@ == w.uid@ && m.version@ == w.version@ {
                match m.spec_verify_all(true, at, host, disk) {
                    Ok(fails) => {
                        let o = choose|o: int| #[trigger] spec_planned_at(m, fails, at, host, r0, o);
                        assert(forall|t: int|
                            0 <= t < fails.len() ==> #[trigger] r1[o + t] == r0[o + t]);
                        assert(spec_planned_at(m, fails, at, host, r1, o));
                    },
                    Err(_) => {},
                }
            }
        },
        None => {},
    }
}

/// The SHA-256 the registry promises for `uid`'s version index, when the
/// package is known and that index is not yet loaded.
pub open spec fn spec_owed_index(ix: MetaIndex, uid: Seq<char>) -> Option<Seq<u8>> {
    match ix.spec_find_uid(uid) {
        None => None,
        Some(i) => if ix.packages@[i].index is None {
            Some(ix.packages@[i].sha256@)
        } else {
            None
        },
    }
}

/// The SHA-256 the version index promises for `(uid, version)`'s
/// manifest, when the entry is listed and the manifest is not yet loaded.
pub open spec fn spec_owed_manifest(ix: MetaIndex, uid: Seq<char>, version: Seq<char>) -> Option<
    Seq<u8>,
> {
    match ix.spec_find_uid(uid) {
        None => None,
        Some(i) => match ix.packages@[i].index {
            None => None,
            Some(pidx) => match pidx.spec_find_version(version) {
                None => None,
                Some(j) => if pidx.versions@[j].manifest is None {
                    Some(pidx.versions@[j].sha256@)
                } else {
                    None
                },
            },
        },
    }
}

/// The requirements of the version entry at `(uid, version)`, when it is
/// listed.
pub open spec fn spec_entry_requires_in(
    ix: MetaIndex,
    uid: Seq<char>,
    version: Seq<char>,
) -> Option<Seq<Requirement>> {
    match ix.spec_find_uid(uid) {
        None => None,
        Some(i) => match ix.packages@[i].index {
            None => None,
            Some(pidx) => match pidx.spec_find_version(version) {
                None => None,
                Some(j) => Some(pidx.versions@[j].requires@),
            },
        },
    }
}

/// True when `(uid, version)` cannot make progress: the registry does
/// not know the UID, the loaded version index does not list the version,
/// or the loaded manifest is corrupt (wrong width of session flags,
/// coordinates other than its slot's) or suffers a fatal sweep error.
pub open spec fn spec_want_faulty(
    ix: MetaIndex,
    u: Seq<char>,
    v: Seq<char>,
    lp: Seq<char>,
    host: Seq<char>,
    disk: DiskState,
) -> bool {
    match ix.spec_find_uid(u) {
        None => true,
        Some(i) => match ix.packages@[i].index {
            None => false,
            Some(pidx) => match pidx.spec_find_version(v) {
                None => true,
                Some(j) => match pidx.versions@[j].manifest {
                    None => false,
                    Some(m) => !(m.wf() && m.uid@ == u && m.version@ == v) || m.spec_verify_all(
                        true,
                        lp,
                        host,
                        disk,
                    ) is Err,
                },
            },
        },
    }
}

/// True when `requests` holds the metadata download `(uid, version)` is
/// blocked on: the Index request for an unfilled version index, or the
/// Manifest request for an unfilled manifest slot, with the URL, context
/// and digest the registry promises.
pub open spec fn spec_want_requested(
    ix: MetaIndex,
    u: Seq<char>,
    v: Seq<char>,
    base: Seq<char>,
    requests: Seq<DownloadRequest>,
) -> bool {
    &&& (match spec_owed_index(ix, u) {
        Some(h) => exists|t: int|
            0 <= t < requests.len() && ((#[trigger] requests[t])
                matches DownloadRequest::Index { url, uid, hash } && uid@ == u && hash@ == h
                && url@ == base + seq!['/'] + u + index_json_seg()),
        None => true,
    })
    &&& (match spec_owed_manifest(ix, u, v) {
        Some(h) => exists|t: int|
            0 <= t < requests.len() && ((#[trigger] requests[t])
                matches DownloadRequest::Manifest { url, version, uid, hash } && uid@ == u
                && version@ == v && hash@ == h && url@ == base + seq!['/'] + u + seq!['/'] + v
                + crate::request::json_suffix()),
        None => true,
    })
}

/// True when the requirements `(uid, version)` names — in its version
/// entry and, if its manifest is loaded under the slot's own coordinates,
/// in that manifest — are all merged into the wanted packages.
pub open spec fn spec_want_reqs_merged(
    ix: MetaIndex,
    u: Seq<char>,
    v: Seq<char>,
    wants: Seq<Wants>,
    extra: Seq<Wants>,
) -> bool {
    &&& (match spec_entry_requires_in(ix, u, v) {
        Some(rs) => spec_reqs_merged(wants, extra, rs),
        None => true,
    })
    &&& (match spec_manifest_in(ix, u, v) {
        Some(m) => (m.uid@ == u && m.version@ == v) ==> spec_reqs_merged(
            wants,
            extra,
            m.requires@,
        ),
        None => true,
    })
}

/// Merged requirements stay merged as the wanted lists grow.
pub proof fn lemma_reqs_merged_monotone(
    wants: Seq<Wants>,
    e0: Seq<Wants>,
    e1: Seq<Wants>,
    rs: Seq<Requirement>,
)
    requires
        spec_reqs_merged(wants, e0, rs),
        e1.len() >= e0.len(),
        forall|t: int| 0 <= t < e0.len() ==> e1[t] == e0[t],
    ensures
        spec_reqs_merged(wants, e1, rs),
{
    assert forall|k: int|
        0 <= k < rs.len() implies spec_uid_present(wants, e1, (#[trigger] rs[k]).uid@) by {
        assert(spec_uid_present(wants, e0, rs[k].uid@));
        if exists|q: int| 0 <= q < e0.len() && (#[trigger] e0[q]).uid@ == rs[k].uid@ {
            let q = choose|q: int| 0 <= q < e0.len() && (#[trigger] e0[q]).uid@ == rs[k].uid@;
            assert(e1[q].uid@ == rs[k].uid@);
        }
    }
}

/// A requested metadata download stays in the list as it grows.
pub proof fn lemma_want_requested_monotone(
    ix: MetaIndex,
    u: Seq<char>,
    v: Seq<char>,
    base: Seq<char>,
    r0: Seq<DownloadRequest>,
    r1: Seq<DownloadRequest>,
)
    requires
        spec_want_requested(ix, u, v, base, r0),
        r1.len() >= r0.len(),
        forall|t: int| 0 <= t < r0.len() ==> r1[t] == r0[t],
    ensures
        spec_want_requested(ix, u, v, base, r1),
{
    match spec_owed_index(ix, u) {
        Some(h) => {
            let t = choose|t: int|
                0 <= t < r0.len() && ((#[trigger] r0[t]) matches DownloadRequest::Index {
                    url,
                    uid,
                    hash,
                } && uid@ == u && hash@ == h && url@ == base + seq!['/'] + u + index_json_seg());
            assert(r1[t] == r0[t]);
        },
        None => {},
    }
    match spec_owed_manifest(ix, u, v) {
        Some(h) => {
            let t = choose|t: int|
                0 <= t < r0.len() && ((#[trigger] r0[t]) matches DownloadRequest::Manifest {
                    url,
                    version,
                    uid,
                    hash,
                } && uid@ == u && version@ == v && hash@ == h && url@ == base + seq!['/'] + u
                    + seq!['/'] + v + crate::request::json_suffix());
            assert(r1[t] == r0[t]);
        },
        None => {},
    }
}

/// A slot update that keeps the package's identity and digest, the
/// entry's version, digest and requirements, and both Some-states, moves
/// none of the owed downloads, entry requirements or manifest identities.
pub proof fn lemma_slot_update_identities(
    ix0: MetaIndex,
    ix1: MetaIndex,
    pidx0: PackageIndex,
    i: int,
    j: int,
    mani0: Manifest,
    mani1: Manifest,
)
    requires
        0 <= i < ix0.packages@.len(),
        ix1.packages@.len() == ix0.packages@.len(),
        forall|k: int|
            0 <= k < ix0.packages@.len() && k != i ==> ix1.packages@[k] == ix0.packages@[k],
        ix1.packages@[i].uid == ix0.packages@[i].uid,
        ix1.packages@[i].sha256 == ix0.packages@[i].sha256,
        ix0.packages@[i].index == Some(pidx0),
        0 <= j < pidx0.versions@.len(),
        ix1.packages@[i].index matches Some(pidx1) && pidx1.versions@.len()
            == pidx0.versions@.len() && (forall|k: int|
            0 <= k < pidx0.versions@.len() && k != j ==> pidx1.versions@[k] == pidx0.versions@[k])
            && pidx1.versions@[j].version == pidx0.versions@[j].version
            && pidx1.versions@[j].sha256 == pidx0.versions@[j].sha256
            && pidx1.versions@[j].requires == pidx0.versions@[j].requires
            && pidx1.versions@[j].manifest == Some(mani1),
        pidx0.versions@[j].manifest == Some(mani0),
        mani1.uid == mani0.uid,
        mani1.version == mani0.version,
        mani1.requires == mani0.requires,
    ensures
        forall|u: Seq<char>| #[trigger] spec_owed_index(ix1, u) == spec_owed_index(ix0, u),
        forall|u: Seq<char>, v: Seq<char>|
            #[trigger] spec_owed_manifest(ix1, u, v) == spec_owed_manifest(ix0, u, v),
        forall|u: Seq<char>, v: Seq<char>|
            #[trigger] spec_entry_requires_in(ix1, u, v) == spec_entry_requires_in(ix0, u, v),
        forall|u: Seq<char>, v: Seq<char>|
            #![trigger spec_manifest_in(ix0, u, v)]
            (match (spec_manifest_in(ix0, u, v), spec_manifest_in(ix1, u, v)) {
                (Some(m0), Some(m1)) => m1.uid == m0.uid && m1.version == m0.version
                    && m1.requires == m0.requires,
                (None, None) => true,
                _ => false,
            }),
{
    let pidx1 = ix1.packages@[i].index.unwrap();
    assert forall|u: Seq<char>, v: Seq<char>|
        #![trigger spec_owed_manifest(ix0, u, v)]
        #![trigger spec_entry_requires_in(ix0, u, v)]
        #![trigger spec_manifest_in(ix0, u, v)]
        spec_owed_index(ix1, u) == spec_owed_index(ix0, u) && spec_owed_manifest(ix1, u, v)
            == spec_owed_manifest(ix0, u, v) && spec_entry_requires_in(ix1, u, v)
            == spec_entry_requires_in(ix0, u, v) && (match (
            spec_manifest_in(ix0, u, v),
            spec_manifest_in(ix1, u, v),
        ) {
            (Some(m0), Some(m1)) => m1.uid == m0.uid && m1.version == m0.version && m1.requires
                == m0.requires,
            (None, None) => true,
            _ => false,
        }) by {
        lemma_find_uid_after_update_one(ix0.packages@, ix1.packages@, i, u);
        MetaIndex::lemma_find_uid_valid(ix0.packages@, u);
        match MetaIndex::spec_find_uid_at(ix0.packages@, u) {
            None => {},
            Some(i2) => {
                if i2 != i {
                    assert(ix1.packages@[i2] == ix0.packages@[i2]);
                } else {
                    lemma_find_version_after_update_one(pidx0.versions@, pidx1.versions@, j, v);
                    PackageIndex::lemma_find_version_valid(pidx0.versions@, v);
                    match PackageIndex::spec_find_version_at(pidx0.versions@, v) {
                        None => {},
                        Some(j2) => {
                            if j2 != j {
                                assert(pidx1.versions@[j2] == pidx0.versions@[j2]);
                            }
                        },
                    }
                }
            },
        }
    }
    assert forall|u: Seq<char>| #[trigger] spec_owed_index(ix1, u) == spec_owed_index(ix0, u) by {
        assert(spec_owed_manifest(ix1, u, u) == spec_owed_manifest(ix0, u, u));
    }
}

/// Writing one version slot leaves every other slot of the registry
/// exactly as it was.
pub proof fn lemma_slot_update_frame(
    ix0: MetaIndex,
    ix1: MetaIndex,
    pidx0: PackageIndex,
    i: int,
    j: int,
    uid: Seq<char>,
    version: Seq<char>,
)
    requires
        0 <= i < ix0.packages@.len(),
        ix1.packages@.len() == ix0.packages@.len(),
        forall|k: int|
            0 <= k < ix0.packages@.len() && k != i ==> ix1.packages@[k] == ix0.packages@[k],
        ix1.packages@[i].uid == ix0.packages@[i].uid,
        ix0.packages@[i].uid@ == uid,
        ix0.packages@[i].index == Some(pidx0),
        0 <= j < pidx0.versions@.len(),
        pidx0.versions@[j].version@ == version,
        ix1.packages@[i].index matches Some(pidx1) && pidx1.versions@.len()
            == pidx0.versions@.len() && (forall|k: int|
            0 <= k < pidx0.versions@.len() && k != j ==> pidx1.versions@[k] == pidx0.versions@[k])
            && pidx1.versions@[j].version == pidx0.versions@[j].version,
    ensures
        forall|u: Seq<char>, v: Seq<char>|
            #![trigger spec_manifest_in(ix0, u, v)]
            !(u == uid && v == version) ==> spec_manifest_in(ix1, u, v) == spec_manifest_in(
                ix0,
                u,
                v,
            ),
{
    let pidx1 = ix1.packages@[i].index.unwrap();
    assert forall|u: Seq<char>, v: Seq<char>|
        #![trigger spec_manifest_in(ix0, u, v)]
        !(u == uid && v == version) implies spec_manifest_in(ix1, u, v) == spec_manifest_in(
        ix0,
        u,
        v,
    ) by {
        lemma_find_uid_after_update_one(ix0.packages@, ix1.packages@, i, u);
        MetaIndex::lemma_find_uid_valid(ix0.packages@, u);
        match MetaIndex::spec_find_uid_at(ix0.packages@, u) {
            None => {},
            Some(i2) => {
                if i2 != i {
                    assert(ix1.packages@[i2] == ix0.packages@[i2]);
                } else {
                    assert(u == uid);
                    lemma_find_version_after_update_one(pidx0.versions@, pidx1.versions@, j, v);
                    PackageIndex::lemma_find_version_valid(pidx0.versions@, v);
                    match PackageIndex::spec_find_version_at(pidx0.versions@, v) {
                        None => {},
                        Some(j2) => {
                            if j2 != j {
                                assert(pidx1.versions@[j2] == pidx0.versions@[j2]);
                            } else {
                                assert(v == version);
                            }
                        },
                    }
                }
            },
        }
    }
}

/// The step relation composes: two resolution steps are one.
pub proof fn lemma_step_relation_trans(
    m0: Manifest,
    m1: Manifest,
    m2: Manifest,
    lib_path: Seq<char>,
    assets_path: Seq<char>,
    host: Seq<char>,
    disk: DiskState,
)
    requires
        manifest_step_relation(m0, m1, lib_path, assets_path, host, disk),
        manifest_step_relation(m1, m2, lib_path, assets_path, host, disk),
    ensures
        manifest_step_relation(m0, m2, lib_path, assets_path, host, disk),
{
    match (m0.asset_index, m1.asset_index, m2.asset_index) {
        (Some(i0), Some(i1), Some(i2)) => {
            match (i0.cache, i1.cache, i2.cache) {
                (Some(c0), Some(c1), Some(c2)) => {
                    if c0.wf() {
                        assert(c1.wf());
                    }
                },
                _ => {},
            }
        },
        _ => {},
    }
}

/// Flags that grow only towards artifacts that check out leave the
/// caching sweep's verdict untouched: a failing artifact stays unflagged
/// on both sides, and a flagged one would have checked out anyway.
pub proof fn lemma_lib_failures_equal_under_flag_step(
    libs: Seq<crate::manifest::Library>,
    f0: Seq<bool>,
    f1: Seq<bool>,
    at: Seq<char>,
    host: Seq<char>,
    disk: DiskState,
    upto: int,
)
    requires
        f0.len() == f1.len(),
        upto <= f0.len(),
        upto <= libs.len(),
        forall|j: int| 0 <= j < f0.len() ==> ((#[trigger] f0[j]) ==> f1[j]),
        forall|j: int|
            0 <= j < f0.len() ==> ((#[trigger] f1[j]) ==> f0[j] || (
            crate::manifest::spec_required_for(libs[j].rules@, host) && libs[j].spec_check(
                at,
                host,
                disk,
            ) is Ok)),
    ensures
        Manifest::spec_lib_failures(libs, f1, true, at, host, disk, upto)
            == Manifest::spec_lib_failures(libs, f0, true, at, host, disk, upto),
    decreases upto,
{
    if upto > 0 {
        lemma_lib_failures_equal_under_flag_step(libs, f0, f1, at, host, disk, upto - 1);
    }
}

/// One resolution step leaves the whole-manifest sweep verdict untouched.
pub proof fn lemma_verify_all_invariant_under_step(
    m0: Manifest,
    m1: Manifest,
    lib_path: Seq<char>,
    assets_path: Seq<char>,
    host: Seq<char>,
    disk: DiskState,
)
    requires
        manifest_step_relation(m0, m1, lib_path, assets_path, host, disk),
    ensures
        m1.spec_verify_all(true, lib_path, host, disk) == m0.spec_verify_all(
            true,
            lib_path,
            host,
            disk,
        ),
{
    lemma_lib_failures_equal_under_flag_step(
        m0.libraries@,
        m0.libs_verified@,
        m1.libs_verified@,
        lib_path,
        host,
        disk,
        m0.libraries@.len() as int,
    );
}

/// When the registry is untouched, every loaded well-formed manifest is
/// one (trivial) resolution step from itself.
pub proof fn lemma_slots_step_refl(
    ix: MetaIndex,
    lib_path: Seq<char>,
    assets_path: Seq<char>,
    host: Seq<char>,
    disk: DiskState,
)
    ensures
        forall|u: Seq<char>, v: Seq<char>|
            #![trigger spec_manifest_in(ix, u, v)]
            (match (spec_manifest_in(ix, u, v), spec_manifest_in(ix, u, v)) {
                (Some(m0), Some(m1)) => m0.wf() ==> manifest_step_relation(
                    m0,
                    m1,
                    lib_path,
                    assets_path,
                    host,
                    disk,
                ),
                (None, None) => true,
                _ => false,
            }),
{
    assert forall|u: Seq<char>, v: Seq<char>|
        #![trigger spec_manifest_in(ix, u, v)]
        (match (spec_manifest_in(ix, u, v), spec_manifest_in(ix, u, v)) {
            (Some(m0), Some(m1)) => m0.wf() ==> manifest_step_relation(
                m0,
                m1,
                lib_path,
                assets_path,
                host,
                disk,
            ),
            (None, None) => true,
            _ => false,
        }) by {
        match spec_manifest_in(ix, u, v) {
            Some(m) => {
                MetaManager::lemma_step_reflexive(m, lib_path, assets_path, host, disk);
            },
            None => {},
        }
    }
}

/// Replacing the manifest in one registry slot by a manifest one
/// resolution step away relates every slot of the old registry to the
/// same slot of the new one by (at most) one step.
pub proof fn lemma_slots_step_after_update(
    ix0: MetaIndex,
    ix1: MetaIndex,
    pidx0: PackageIndex,
    i: int,
    j: int,
    mani0: Manifest,
    mani1: Manifest,
    lib_path: Seq<char>,
    assets_path: Seq<char>,
    host: Seq<char>,
    disk: DiskState,
)
    requires
        0 <= i < ix0.packages@.len(),
        ix1.packages@.len() == ix0.packages@.len(),
        forall|k: int|
            0 <= k < ix0.packages@.len() && k != i ==> ix1.packages@[k] == ix0.packages@[k],
        ix1.packages@[i].uid == ix0.packages@[i].uid,
        ix0.packages@[i].index == Some(pidx0),
        0 <= j < pidx0.versions@.len(),
        ix1.packages@[i].index matches Some(pidx1) && pidx1.versions@.len()
            == pidx0.versions@.len() && (forall|k: int|
            0 <= k < pidx0.versions@.len() && k != j ==> pidx1.versions@[k] == pidx0.versions@[k])
            && pidx1.versions@[j].version == pidx0.versions@[j].version
            && pidx1.versions@[j].requires == pidx0.versions@[j].requires
            && pidx1.versions@[j].manifest == Some(mani1),
        pidx0.versions@[j].manifest == Some(mani0),
        mani0.wf() ==> manifest_step_relation(mani0, mani1, lib_path, assets_path, host, disk),
    ensures
        forall|u: Seq<char>, v: Seq<char>|
            #![trigger spec_manifest_in(ix0, u, v)]
            (match (spec_manifest_in(ix0, u, v), spec_manifest_in(ix1, u, v)) {
                (Some(m0), Some(m1)) => m0.wf() ==> manifest_step_relation(
                    m0,
                    m1,
                    lib_path,
                    assets_path,
                    host,
                    disk,
                ),
                (None, None) => true,
                _ => false,
            }),
{
    let pidx1 = ix1.packages@[i].index.unwrap();
    assert forall|u: Seq<char>, v: Seq<char>|
        #![trigger spec_manifest_in(ix0, u, v)]
        (match (spec_manifest_in(ix0, u, v), spec_manifest_in(ix1, u, v)) {
            (Some(m0), Some(m1)) => m0.wf() ==> manifest_step_relation(
                m0,
                m1,
                lib_path,
                assets_path,
                host,
                disk,
            ),
            (None, None) => true,
            _ => false,
        }) by {
        lemma_find_uid_after_update_one(ix0.packages@, ix1.packages@, i, u);
        MetaIndex::lemma_find_uid_valid(ix0.packages@, u);
        match MetaIndex::spec_find_uid_at(ix0.packages@, u) {
            None => {},
            Some(i2) => {
                if i2 != i {
                    assert(ix1.packages@[i2] == ix0.packages@[i2]);
                    match spec_manifest_in(ix0, u, v) {
                        Some(m) => {
                            MetaManager::lemma_step_reflexive(
                                m,
                                lib_path,
                                assets_path,
                                host,
                                disk,
                            );
                        },
                        None => {},
                    }
                } else {
                    lemma_find_version_after_update_one(pidx0.versions@, pidx1.versions@, j, v);
                    PackageIndex::lemma_find_version_valid(pidx0.versions@, v);
                    match PackageIndex::spec_find_version_at(pidx0.versions@, v) {
                        None => {},
                        Some(j2) => {
                            if j2 != j {
                                assert(pidx1.versions@[j2] == pidx0.versions@[j2]);
                                match spec_manifest_in(ix0, u, v) {
                                    Some(m) => {
                                        MetaManager::lemma_step_reflexive(
                                            m,
                                            lib_path,
                                            assets_path,
                                            host,
                                            disk,
                                        );
                                    },
                                    None => {},
                                }
                            }
                        },
                    }
                }
            },
        }
    }
}

/// Replacing the manifest in one registry slot by a manifest one
/// resolution step away preserves resolvedness everywhere.
pub proof fn lemma_slot_update_preserves_resolved(
    ix0: MetaIndex,
    ix1: MetaIndex,
    pidx0: PackageIndex,
    i: int,
    j: int,
    mani0: Manifest,
    mani1: Manifest,
    wants: Seq<Wants>,
    extra: Seq<Wants>,
    lib_path: Seq<char>,
    assets_path: Seq<char>,
    host: Seq<char>,
    disk: DiskState,
)
    requires
        0 <= i < ix0.packages@.len(),
        ix1.packages@.len() == ix0.packages@.len(),
        forall|k: int|
            0 <= k < ix0.packages@.len() && k != i ==> ix1.packages@[k] == ix0.packages@[k],
        ix1.packages@[i].uid == ix0.packages@[i].uid,
        ix0.packages@[i].index == Some(pidx0),
        0 <= j < pidx0.versions@.len(),
        ix1.packages@[i].index matches Some(pidx1) && pidx1.versions@.len()
            == pidx0.versions@.len() && (forall|k: int|
            0 <= k < pidx0.versions@.len() && k != j ==> pidx1.versions@[k] == pidx0.versions@[k])
            && pidx1.versions@[j].version == pidx0.versions@[j].version
            && pidx1.versions@[j].requires == pidx0.versions@[j].requires
            && pidx1.versions@[j].manifest == Some(mani1),
        pidx0.versions@[j].manifest == Some(mani0),
        mani0.wf() ==> manifest_step_relation(mani0, mani1, lib_path, assets_path, host, disk),
    ensures
        forall|u: Seq<char>, v: Seq<char>|
            #[trigger] spec_resolved(ix0, wants, extra, u, v, lib_path, assets_path, host, disk)
                ==> spec_resolved(ix1, wants, extra, u, v, lib_path, assets_path, host, disk),
{
    let pidx1 = ix1.packages@[i].index.unwrap();
    assert forall|u: Seq<char>, v: Seq<char>|
        #[trigger] spec_resolved(ix0, wants, extra, u, v, lib_path, assets_path, host, disk)
            implies spec_resolved(ix1, wants, extra, u, v, lib_path, assets_path, host, disk) by {
        lemma_find_uid_after_update_one(ix0.packages@, ix1.packages@, i, u);
        MetaIndex::lemma_find_uid_valid(ix0.packages@, u);
        match MetaIndex::spec_find_uid_at(ix0.packages@, u) {
            None => {
                assert(false);
            },
            Some(i2) => {
                if i2 != i {
                    assert(ix1.packages@[i2] == ix0.packages@[i2]);
                } else {
                    lemma_find_version_after_update_one(pidx0.versions@, pidx1.versions@, j, v);
                    PackageIndex::lemma_find_version_valid(pidx0.versions@, v);
                    match PackageIndex::spec_find_version_at(pidx0.versions@, v) {
                        None => {
                            assert(false);
                        },
                        Some(j2) => {
                            if j2 != j {
                                assert(pidx1.versions@[j2] == pidx0.versions@[j2]);
                            } else {
                                assert(mani0.wf());
                                lemma_verify_all_stable(
                                    mani0,
                                    mani1,
                                    lib_path,
                                    assets_path,
                                    host,
                                    disk,
                                );
                                match (mani0.asset_index, mani1.asset_index) {
                                    (None, None) => {},
                                    (Some(i0), Some(i1)) => {
                                        match (i0.cache, i1.cache) {
                                            (None, None) => {
                                                assert(false);
                                            },
                                            (Some(c0), Some(c1)) => {
                                                assert(c0.wf());
                                                lemma_asset_failures_stable(
                                                    c0.objects@,
                                                    c0.verified@,
                                                    c1.verified@,
                                                    assets_path,
                                                    disk,
                                                    c0.objects@.len() as int,
                                                );
                                            },
                                            _ => {
                                                assert(false);
                                            },
                                        }
                                    },
                                    _ => {
                                        assert(false);
                                    },
                                }
                            }
                        },
                    }
                }
            },
        }
    }
}

impl MetaManager {
    /// Plan the asset downloads of one manifest: emit a request for the
    /// asset index itself when it is not yet cached, and otherwise sweep
    /// the cached assets and emit a request for each that is missing or
    /// corrupt.  Only the cache's session flags change.
    fn plan_assets(
        mani: &mut Manifest,
        requests: &mut Vec<DownloadRequest>,
        uid: &str,
        version: &str,
        assets_path: &str,
        disk: &DiskState,
    )
        ensures
            final(mani).libraries == old(mani).libraries,
            final(mani).libs_verified == old(mani).libs_verified,
            final(mani).main_jar == old(mani).main_jar,
            final(mani).main_jar_verified == old(mani).main_jar_verified,
            final(mani).requires == old(mani).requires,
            final(mani).traits == old(mani).traits,
            final(mani).main_class == old(mani).main_class,
            final(mani).minecraft_arguments == old(mani).minecraft_arguments,
            final(mani).name == old(mani).name,
            final(mani).order == old(mani).order,
            final(mani).release_time == old(mani).release_time,
            final(mani).release_type == old(mani).release_type,
            final(mani).uid == old(mani).uid,
            final(mani).version == old(mani).version,
            final(mani).asset_index is Some <==> old(mani).asset_index is Some,
            (match (old(mani).asset_index, final(mani).asset_index) {
                (None, None) => true,
                (Some(i0), Some(i1)) => i0.id == i1.id && i0.sha1 == i1.sha1 && i0.url == i1.url
                    && i0.size == i1.size && i0.total_size == i1.total_size && (match (
                    i0.cache,
                    i1.cache,
                ) {
                    (None, None) => true,
                    (Some(c0), Some(c1)) => c0.wf() ==> (c1.objects@ == c0.objects@ && c1.wf() && (
                    forall|t: int|
                        0 <= t < c0.verified@.len() ==> ((#[trigger] c0.verified@[t])
                            ==> c1.verified@[t])) && (forall|t: int|
                        0 <= t < c0.verified@.len() ==> ((#[trigger] c1.verified@[t])
                            ==> c0.verified@[t] || c0.objects@[t].asset.spec_check(
                            assets_path@,
                            *disk,
                        ) is Ok))),
                    _ => false,
                }),
                _ => false,
            }),
            final(requests)@.len() >= old(requests)@.len(),
            forall|t: int|
                0 <= t < old(requests)@.len() ==> final(requests)@[t] == old(requests)@[t],
            final(requests)@.len() == old(requests)@.len() ==> (match final(mani).asset_index {
                None => true,
                Some(i1) => i1.cache matches Some(c1) && c1.wf() && AssetIndex::spec_failures(
                    c1.objects@,
                    c1.verified@,
                    true,
                    assets_path@,
                    *disk,
                    c1.objects@.len() as int,
                ) == Seq::<(int, Error)>::empty(),
            }),
            (match old(mani).asset_index {
                None => true,
                Some(i0) => i0.cache matches Some(c0) && c0.wf() && AssetIndex::spec_failures(
                    c0.objects@,
                    c0.verified@,
                    true,
                    assets_path@,
                    *disk,
                    c0.objects@.len() as int,
                ) == Seq::<(int, Error)>::empty(),
            }) ==> final(requests)@.len() == old(requests)@.len(),
    {
        let apath = mani.assets_path_at(assets_path);
        match mani.asset_index.take() {
            None => {},
            Some(mut info) => {
                match info.cache.take() {
                    None => {
                        // The asset index itself is not yet loaded.
                        let path = match apath {
                            Some(p) => p,
                            None => {
                                proof {
                                    assert(false);
                                }
                                return ;
                            },
                        };
                        let info_copy = crate::asset::AssetIndexInfo {
                            id: info.id.clone(),
                            sha1: info.sha1.clone(),
                            size: info.size,
                            total_size: info.total_size,
                            url: info.url.clone(),
                            cache: None,
                        };
                        requests.push(
                            DownloadRequest::AssetIndex {
                                uid: uid.to_owned(),
                                version: version.to_owned(),
                                info: info_copy,
                                path,
                            },
                        );
                        info.cache = None;
                    },
                    Some(mut cache) => {
                        if cache.verified.len() != cache.objects.len() {
                            cache.reset_flags();
                        }
                        let ghost cache_pre = cache;
                        let ghost req0 = requests@.len();
                        let afails = cache.verify_caching_at(assets_path, disk);
                        proof {
                            lemma_asset_failures_entry_facts(
                                cache_pre.objects@,
                                cache_pre.verified@,
                                true,
                                assets_path@,
                                *disk,
                                cache_pre.objects@.len() as int,
                            );
                        }
                        proof {
                            assert forall|t2: int|
                                0 <= t2 < afails@.len() implies 0 <= (#[trigger] afails@[t2]).0
                                < cache_pre.objects@.len() by {
                                assert(afails@.map_values(
                                    |p: (usize, Error)| (p.0 as int, p.1),
                                )[t2] == (afails@[t2].0 as int, afails@[t2].1));
                            }
                        }
                        let mut a: usize = 0;
                        while a < afails.len()
                            invariant
                                a <= afails@.len(),
                                cache.objects@ == cache_pre.objects@,
                                forall|t2: int|
                                    0 <= t2 < afails@.len() ==> 0 <= (#[trigger] afails@[t2]).0
                                        < cache_pre.objects@.len(),
                                requests@.len() == req0 + a,
                                forall|q: int|
                                    0 <= q < req0 ==> requests@[q] == old(requests)@[q],
                            decreases afails@.len() - a,
                        {
                            let (aidx, _ae) = afails[a];
                            let asset = cache.objects[aidx].asset.clone();
                            let url = asset.download_url();
                            let path = asset.path_at(assets_path);
                            requests.push(
                                DownloadRequest::Asset { asset, uid: uid.to_owned(), url, path },
                            );
                            a += 1;
                        }
                        proof {
                            if requests@.len() == old(requests)@.len() {
                                assert(afails@.len() == 0);
                                assert(afails@.map_values(|p: (usize, Error)| (p.0 as int, p.1))
                                    =~= Seq::<(int, Error)>::empty());
                                lemma_asset_failures_stable(
                                    cache_pre.objects@,
                                    cache_pre.verified@,
                                    cache.verified@,
                                    assets_path@,
                                    *disk,
                                    cache_pre.objects@.len() as int,
                                );
                            }
                            if cache_pre.wf() && AssetIndex::spec_failures(
                                cache_pre.objects@,
                                cache_pre.verified@,
                                true,
                                assets_path@,
                                *disk,
                                cache_pre.objects@.len() as int,
                            ) == Seq::<(int, Error)>::empty() {
                                assert(afails@.map_values(|p: (usize, Error)| (p.0 as int, p.1)).len()
                                    == 0);
                                assert(afails@.len() == 0);
                            }
                        }
                        info.cache = Some(cache);
                    },
                }
                mani.asset_index = Some(info);
            },
        }
    }

    /// Resolve one want a step further against the registry `ix`: emit the
    /// download request the want is blocked on, or — when its manifest is
    /// loaded — merge its requirements, sweep its artifacts and assets, emit
    /// a download for each failure, and snapshot the manifest.
    fn search_one(
        ix: &mut MetaIndex,
        extra: &mut Vec<Wants>,
        wants: &Vec<Wants>,
        requests: &mut Vec<DownloadRequest>,
        manifests: &mut Vec<Manifest>,
        library_path: &str,
        assets_path: &str,
        base_url: &str,
        uid: &str,
        version: &str,
        os: &OS,
        disk: &DiskState,
    ) -> (r: Result<(), Error>)
        ensures
            final(requests)@.len() >= old(requests)@.len(),
            forall|t: int|
                0 <= t < old(requests)@.len() ==> final(requests)@[t] == old(requests)@[t],
            final(manifests)@.len() >= old(manifests)@.len(),
            forall|t: int|
                0 <= t < old(manifests)@.len() ==> final(manifests)@[t] == old(manifests)@[t],
            final(extra)@.len() >= old(extra)@.len(),
            forall|t: int| 0 <= t < old(extra)@.len() ==> final(extra)@[t] == old(extra)@[t],
            // Every derived want this call appends carries a UID that no
            // earlier want — primary, derived, or appended before it —
            // already carried.
            forall|t: int|
                old(extra)@.len() <= t < final(extra)@.len() ==> !spec_uid_present(
                    wants@,
                    final(extra)@.subrange(0, t),
                    (#[trigger] final(extra)@[t]).uid@,
                ),
            forall|u: Seq<char>, v: Seq<char>|
                #[trigger] spec_resolved(
                    *old(ix),
                    wants@,
                    old(extra)@,
                    u,
                    v,
                    library_path@,
                    assets_path@,
                    os.name@,
                    *disk,
                ) ==> spec_resolved(
                    *final(ix),
                    wants@,
                    final(extra)@,
                    u,
                    v,
                    library_path@,
                    assets_path@,
                    os.name@,
                    *disk,
                ),
            r is Ok && final(requests)@.len() == old(requests)@.len() ==> spec_resolved(
                *final(ix),
                wants@,
                final(extra)@,
                uid@,
                version@,
                library_path@,
                assets_path@,
                os.name@,
                *disk,
            ) && (exists|t: int|
                old(manifests)@.len() <= t < final(manifests)@.len()
                    && (#[trigger] final(manifests)@[t]).uid@ == uid@
                    && final(manifests)@[t].version@ == version@),
            spec_resolved(
                *old(ix),
                wants@,
                old(extra)@,
                uid@,
                version@,
                library_path@,
                assets_path@,
                os.name@,
                *disk,
            ) ==> r is Ok && final(requests)@.len() == old(requests)@.len() && final(extra)@
                == old(extra)@,
            // Re-download planning: when this want's manifest is loaded,
            // well-formed and carries the slot's coordinates, the call
            // appends one Library request per failure of its caching
            // sweep, each carrying the failing artifact's selected
            // download and destination path.
            r is Ok ==> (match spec_manifest_in(*old(ix), uid@, version@) {
                Some(m) => (m.wf() && m.uid@ == uid@ && m.version@ == version@) ==> (
                m.spec_verify_all(true, library_path@, os.name@, *disk) matches Ok(fails)
                    ==> final(requests)@.len() >= old(requests)@.len() + fails.len() && (forall|
                    t: int,
                |
                    0 <= t < fails.len() ==> spec_library_request_for(
                        m,
                        fails[t],
                        library_path@,
                        os.name@,
                        #[trigger] final(requests)@[old(requests)@.len() + t],
                    ))),
                None => true,
            }),
            // Every slot of the registry moves by at most one resolution
            // step: manifests are never removed, and a well-formed one
            // keeps its data while its session flags only grow towards
            // artifacts that check out.
            forall|u: Seq<char>, v: Seq<char>|
                #![trigger spec_manifest_in(*old(ix), u, v)]
                (match (spec_manifest_in(*old(ix), u, v), spec_manifest_in(*final(ix), u, v)) {
                    (Some(m0), Some(m1)) => m0.wf() ==> manifest_step_relation(
                        m0,
                        m1,
                        library_path@,
                        assets_path@,
                        os.name@,
                        *disk,
                    ),
                    (None, None) => true,
                    _ => false,
                }),
            // The search fills no slot itself: the progress measure the
            // loaders shrink is left untouched.
            crate::index::spec_unfilled_indexes(final(ix).packages@)
                == crate::index::spec_unfilled_indexes(old(ix).packages@),
            crate::index::spec_unfilled_manifests(final(ix).packages@)
                == crate::index::spec_unfilled_manifests(old(ix).packages@),
            crate::index::spec_unfilled_caches(final(ix).packages@)
                == crate::index::spec_unfilled_caches(old(ix).packages@),
            // A failure names a want that cannot make progress.
            r is Err ==> spec_want_faulty(
                *final(ix),
                uid@,
                version@,
                library_path@,
                os.name@,
                *disk,
            ),
            // The metadata download this want is blocked on is in the list.
            r is Ok ==> spec_want_requested(
                *old(ix),
                uid@,
                version@,
                base_url@,
                final(requests)@,
            ),
            // The requirements this want names are merged into the wanted
            // packages.
            r is Ok ==> spec_want_reqs_merged(
                *old(ix),
                uid@,
                version@,
                wants@,
                final(extra)@,
            ),
            // Package identities, digests, entry requirements and the owed
            // downloads read the same before and after.
            forall|u: Seq<char>| #[trigger] spec_owed_index(*final(ix), u) == spec_owed_index(
                *old(ix),
                u,
            ),
            forall|u: Seq<char>, v: Seq<char>|
                #[trigger] spec_owed_manifest(*final(ix), u, v) == spec_owed_manifest(
                    *old(ix),
                    u,
                    v,
                ),
            forall|u: Seq<char>, v: Seq<char>|
                #[trigger] spec_entry_requires_in(*final(ix), u, v) == spec_entry_requires_in(
                    *old(ix),
                    u,
                    v,
                ),
            forall|u: Seq<char>, v: Seq<char>|
                #![trigger spec_manifest_in(*old(ix), u, v)]
                (match (spec_manifest_in(*old(ix), u, v), spec_manifest_in(*final(ix), u, v)) {
                    (Some(m0), Some(m1)) => m1.uid == m0.uid && m1.version == m0.version
                        && m1.requires == m0.requires,
                    (None, None) => true,
                    _ => false,
                }),
    {
        let ghost ix0 = *ix;
        let ghost extra0 = extra@;
        let ghost host = os.name@;
        // Phase one: read-only checks against the registry.
        let i = match ix.find_uid(uid) {
            Ok(i) => i,
            Err(_) => {
                proof {
                    lemma_slots_step_refl(ix0, library_path@, assets_path@, host, *disk);
                }
                return Err(Error::MetaNotFound);
            },
        };
        let index_present = ix.packages[i].index.is_some();
        if !index_present {
            let ghost req_pos = requests@.len();
            requests.push(DownloadRequest::new_package_index(base_url, &ix.packages[i]));
            proof {
                lemma_slots_step_refl(ix0, library_path@, assets_path@, host, *disk);
                assert(spec_manifest_in(ix0, uid@, version@) is None);
                assert(spec_owed_index(ix0, uid@) == Some(ix0.packages@[i as int].sha256@));
                assert(requests@[req_pos as int] matches DownloadRequest::Index {
                    url,
                    uid: u2,
                    hash,
                } && u2@ == uid@ && hash@ == ix0.packages@[i as int].sha256@ && url@ == base_url@
                    + seq!['/'] + uid@ + index_json_seg());
                assert(spec_owed_manifest(ix0, uid@, version@) is None);
                assert(spec_want_requested(ix0, uid@, version@, base_url@, requests@));
            }
            return Ok(());
        }
        let j = {
            let pidx_ref = match &ix.packages[i].index {
                Some(p) => p,
                None => {
                    proof {
                        assert(false);
                    }
                    return Err(Error::MetaNotFound);
                },
            };
            match pidx_ref.find_version_index(version) {
                Ok(j) => j,
                Err(_) => {
                    proof {
                        lemma_slots_step_refl(ix0, library_path@, assets_path@, host, *disk);
                    }
                    return Err(Error::MetaNotFound);
                },
            }
        };
        // First requirements merge, from the version entry.
        let manifest_present = {
            let pidx_ref = match &ix.packages[i].index {
                Some(p) => p,
                None => {
                    proof {
                        assert(false);
                    }
                    return Err(Error::MetaNotFound);
                },
            };
            merge_requirements(wants, extra, &pidx_ref.versions[j].requires);
            pidx_ref.versions[j].manifest.is_some()
        };
        let ghost extra_mid = extra@;
        proof {
            assert forall|u: Seq<char>, v: Seq<char>|
                #[trigger] spec_resolved(
                    ix0,
                    wants@,
                    extra0,
                    u,
                    v,
                    library_path@,
                    assets_path@,
                    host,
                    *disk,
                ) implies spec_resolved(
                *ix,
                wants@,
                extra@,
                u,
                v,
                library_path@,
                assets_path@,
                host,
                *disk,
            ) by {
                lemma_resolved_extra_monotone(
                    ix0,
                    wants@,
                    extra0,
                    extra@,
                    u,
                    v,
                    library_path@,
                    assets_path@,
                    host,
                    *disk,
                );
            }
        }
        if !manifest_present {
            let pidx_ref = match &ix.packages[i].index {
                Some(p) => p,
                None => {
                    proof {
                        assert(false);
                    }
                    return Err(Error::MetaNotFound);
                },
            };
            let ghost req_pos = requests@.len();
            requests.push(
                DownloadRequest::new_package_manifest(base_url, uid, &pidx_ref.versions[j]),
            );
            proof {
                lemma_slots_step_refl(ix0, library_path@, assets_path@, host, *disk);
                assert(spec_manifest_in(ix0, uid@, version@) is None);
                assert(spec_owed_index(ix0, uid@) is None);
                match spec_owed_manifest(ix0, uid@, version@) {
                    Some(h) => {
                        assert(requests@[req_pos as int] matches DownloadRequest::Manifest {
                            url,
                            version: v2,
                            uid: u2,
                            hash,
                        } && u2@ == uid@ && v2@ == version@ && hash@ == h && url@ == base_url@
                            + seq!['/'] + uid@ + seq!['/'] + version@
                            + crate::request::json_suffix());
                    },
                    None => {
                        assert(false);
                    },
                }
                assert(spec_want_requested(ix0, uid@, version@, base_url@, requests@));
                assert(spec_want_reqs_merged(ix0, uid@, version@, wants@, extra@));
            }
            return Ok(());
        }
        // Phase two: the manifest is loaded; take the subtree out, work on
        // it, and put it back.
        let mut pkg = ix.packages.remove(i);
        let mut pidx = match pkg.index.take() {
            Some(p) => p,
            None => {
                proof {
                    assert(false);
                }
                return Err(Error::MetaNotFound);
            },
        };
        let ghost pidx0 = pidx;
        let mut ver = pidx.versions.remove(j);
        let mut mani = match ver.manifest.take() {
            Some(m) => m,
            None => {
                proof {
                    assert(false);
                }
                return Err(Error::MetaNotFound);
            },
        };
        let ghost mani0 = mani;
        // A slot whose manifest does not carry the slot's own coordinates
        // is corrupt metadata.
        let ids_match = str_eq(mani.uid.as_str(), uid) && str_eq(mani.version.as_str(), version);
        if !ids_match {
            ver.manifest = Some(mani);
            pidx.versions.insert(j, ver);
            pkg.index = Some(pidx);
            ix.packages.insert(i, pkg);
            proof {
                crate::index::lemma_unfilled_update(ix0.packages@, ix.packages@, i as int);
                crate::index::lemma_unfilled_in_update(pidx0.versions@, pidx.versions@, j as int);
                lemma_slot_update_identities(
                    ix0,
                    *ix,
                    pidx0,
                    i as int,
                    j as int,
                    mani0,
                    mani0,
                );
                Self::lemma_step_reflexive(mani0, library_path@, assets_path@, host, *disk);
                lemma_slots_step_after_update(
                    ix0,
                    *ix,
                    pidx0,
                    i as int,
                    j as int,
                    mani0,
                    mani0,
                    library_path@,
                    assets_path@,
                    host,
                    *disk,
                );
                Self::lemma_slot_update_preserves_resolved_outer(
                    ix0,
                    *ix,
                    pidx0,
                    i as int,
                    j as int,
                    mani0,
                    mani0,
                    wants@,
                    extra0,
                    extra@,
                    library_path@,
                    assets_path@,
                    host,
                    *disk,
                );
            }
            return Err(Error::MetaNotFound);
        }
        // Second requirements merge, from the manifest.
        merge_requirements(wants, extra, &mani.requires);
        proof {
            assert forall|t: int|
                extra0.len() <= t < extra@.len() implies !spec_uid_present(
                wants@,
                extra@.subrange(0, t),
                (#[trigger] extra@[t]).uid@,
            ) by {
                if t < extra_mid.len() {
                    assert(extra@[t] == extra_mid[t]);
                    assert(extra@.subrange(0, t) =~= extra_mid.subrange(0, t));
                }
            }
        }
        if mani.libs_verified.len() != mani.libraries.len() {
            mani.init_verification();
        }
        let ghost mani_pre = mani;
        // Sweep the artifacts; emit a download for each failure.
        let failures = match mani.verify_caching_at(library_path, os, disk) {
            Ok(v) => v,
            Err(e) => {
                // A fatal sweep error: put the subtree back and report it.
                ver.manifest = Some(mani);
                pidx.versions.insert(j, ver);
                pkg.index = Some(pidx);
                ix.packages.insert(i, pkg);
                proof {
                    crate::index::lemma_unfilled_update(ix0.packages@, ix.packages@, i as int);
                    crate::index::lemma_unfilled_in_update(
                        pidx0.versions@,
                        pidx.versions@,
                        j as int,
                    );
                    assert(mani.asset_index == mani0.asset_index);
                    assert(mani.uid == mani0.uid && mani.version == mani0.version
                        && mani.requires == mani0.requires);
                    lemma_slot_update_identities(ix0, *ix, pidx0, i as int, j as int, mani0, mani);
                    if mani0.wf() {
                        assert(mani_pre == mani0);
                        assert(manifest_step_relation(
                            mani0,
                            mani,
                            library_path@,
                            assets_path@,
                            host,
                            *disk,
                        ));
                    }
                    lemma_slots_step_after_update(
                        ix0,
                        *ix,
                        pidx0,
                        i as int,
                        j as int,
                        mani0,
                        mani,
                        library_path@,
                        assets_path@,
                        host,
                        *disk,
                    );
                    Self::lemma_slot_update_preserves_resolved_outer(
                        ix0,
                        *ix,
                        pidx0,
                        i as int,
                        j as int,
                        mani0,
                        mani,
                        wants@,
                        extra0,
                        extra@,
                        library_path@,
                        assets_path@,
                        host,
                        *disk,
                    );
                    if spec_resolved(
                        ix0,
                        wants@,
                        extra0,
                        uid@,
                        version@,
                        library_path@,
                        assets_path@,
                        host,
                        *disk,
                    ) {
                        assert(mani0.spec_verify_all(true, library_path@, host, *disk) == Ok::<
                            Seq<(int, Error)>,
                            Error,
                        >(Seq::empty()));
                        assert(false);
                    }
                    // The restored slot witnesses the fault: its sweep is
                    // still fatal.
                    assert(manifest_step_relation(
                        mani_pre,
                        mani,
                        library_path@,
                        assets_path@,
                        host,
                        *disk,
                    ));
                    lemma_verify_all_invariant_under_step(
                        mani_pre,
                        mani,
                        library_path@,
                        assets_path@,
                        host,
                        *disk,
                    );
                    assert(mani.spec_verify_all(true, library_path@, host, *disk) is Err);
                    lemma_find_uid_after_update_one(ix0.packages@, ix.packages@, i as int, uid@);
                    lemma_find_version_after_update_one(
                        pidx0.versions@,
                        pidx.versions@,
                        j as int,
                        version@,
                    );
                    assert(spec_manifest_in(*ix, uid@, version@) == Some(mani));
                    assert(spec_want_faulty(*ix, uid@, version@, library_path@, host, *disk));
                }
                return Err(e);
            },
        };
        proof {
            lemma_verify_all_entry_facts(mani_pre, true, library_path@, host, *disk);
        }
        let ghost req_before_sweep = requests@.len();
        let mut t: usize = 0;
        while t < failures.len()
            invariant
                t <= failures@.len(),
                host == os.name@,
                mani.libraries == mani_pre.libraries,
                mani.main_jar == mani_pre.main_jar,
                mani_pre.spec_verify_all(true, library_path@, host, *disk) == Ok::<
                    Seq<(int, Error)>,
                    Error,
                >(failures@.map_values(|p: (usize, Error)| (p.0 as int, p.1))),
                requests@.len() == req_before_sweep + t,
                req_before_sweep == old(requests)@.len(),
                forall|q: int|
                    0 <= q < old(requests)@.len() ==> requests@[q] == old(requests)@[q],
                forall|q: int|
                    0 <= q < t ==> spec_library_request_for(
                        mani_pre,
                        failures@.map_values(|p: (usize, Error)| (p.0 as int, p.1))[q],
                        library_path@,
                        os.name@,
                        #[trigger] requests@[req_before_sweep + q],
                    ),
            decreases failures@.len() - t,
        {
            let (idx, _e) = failures[t];
            proof {
                lemma_verify_all_entry_facts(mani_pre, true, library_path@, host, *disk);
                assert(failures@.map_values(|p: (usize, Error)| (p.0 as int, p.1))[t as int] == (
                    failures@[t as int].0 as int,
                    failures@[t as int].1,
                ));
            }
            proof {
                let s = failures@.map_values(|p: (usize, Error)| (p.0 as int, p.1));
                assert(s[t as int].0 == idx as int);
                assert(((idx as int) < mani_pre.libraries@.len()
                    && mani_pre.libraries@[idx as int].spec_check(library_path@, host, *disk)
                    == Err::<(), Error>(s[t as int].1)) || (idx as int
                    == mani_pre.libraries@.len() && (mani_pre.main_jar matches Some(jar)
                    && jar.spec_check(library_path@, host, *disk) == Err::<(), Error>(
                    s[t as int].1,
                ))));
                assert(s[t as int].1 == Error::LibraryMissing || s[t as int].1
                    == Error::LibraryInvalidHash);
            }
            if idx < mani.libraries.len() {
                proof {
                    let s = failures@.map_values(|p: (usize, Error)| (p.0 as int, p.1));
                    assert(mani.libraries@[idx as int] == mani_pre.libraries@[idx as int]);
                    assert(mani.libraries@[idx as int].spec_selected_sha1(os.name@) is Some);
                }
                let dl = match mani.libraries[idx].select_for(os) {
                    Some(d) => d.clone(),
                    None => {
                        proof {
                            assert(false);
                        }
                        return Err(Error::MetaNotFound);
                    },
                };
                let p = mani.libraries[idx].path_at_for(library_path, os);
                let ghost dl_g = dl;
                let ghost p_g = p;
                requests.push(DownloadRequest::new_library(dl, p));
                proof {
                    let s = failures@.map_values(|p2: (usize, Error)| (p2.0 as int, p2.1));
                    assert(requests@[req_before_sweep + t as int] == (DownloadRequest::Library {
                        download: dl_g,
                        path: p_g,
                    }));
                    assert(spec_library_request_for(
                        mani_pre,
                        s[t as int],
                        library_path@,
                        os.name@,
                        requests@[req_before_sweep + t as int],
                    ));
                }
            } else {
                proof {
                    assert(idx as int == mani_pre.libraries@.len());
                    assert(mani.main_jar is Some);
                    match &mani.main_jar {
                        Some(jar) => {
                            assert(jar.spec_selected_sha1(os.name@) is Some);
                        },
                        None => {
                            assert(false);
                        },
                    }
                }
                let jar_dl = match &mani.main_jar {
                    Some(jar) => {
                        match jar.select_for(os) {
                            Some(d) => (d.clone(), jar.path_at_for(library_path, os)),
                            None => {
                                proof {
                                    assert(false);
                                }
                                return Err(Error::MetaNotFound);
                            },
                        }
                    },
                    None => {
                        proof {
                            assert(false);
                        }
                        return Err(Error::MetaNotFound);
                    },
                };
                let (dl, p) = jar_dl;
                let ghost dl_g = dl;
                let ghost p_g = p;
                requests.push(DownloadRequest::new_library(dl, p));
                proof {
                    let s = failures@.map_values(|p2: (usize, Error)| (p2.0 as int, p2.1));
                    assert(requests@[req_before_sweep + t as int] == (DownloadRequest::Library {
                        download: dl_g,
                        path: p_g,
                    }));
                    assert(spec_library_request_for(
                        mani_pre,
                        s[t as int],
                        library_path@,
                        os.name@,
                        requests@[req_before_sweep + t as int],
                    ));
                }
            }
            t += 1;
        }
        // Plan the asset index and the assets.
        let ghost req_after_sweep = requests@.len();
        let ghost reqs_after_sweep = requests@;
        let ghost mani_swept = mani;
        Self::plan_assets(&mut mani, requests, uid, version, assets_path, disk);
        let ghost mani_fin = mani;
        // Snapshot the manifest for the caller.
        manifests.push(mani.clone());
        // Put the subtree back.
        ver.manifest = Some(mani);
        pidx.versions.insert(j, ver);
        pkg.index = Some(pidx);
        ix.packages.insert(i, pkg);
        proof {
            crate::index::lemma_unfilled_update(ix0.packages@, ix.packages@, i as int);
            crate::index::lemma_unfilled_in_update(pidx0.versions@, pidx.versions@, j as int);
            assert(mani_fin.uid == mani0.uid && mani_fin.version == mani0.version
                && mani_fin.requires == mani0.requires);
            lemma_slot_update_identities(ix0, *ix, pidx0, i as int, j as int, mani0, mani_fin);
            // The metadata downloads are settled for this want, and its
            // requirements are merged.
            assert(spec_owed_index(ix0, uid@) is None);
            assert(spec_owed_manifest(ix0, uid@, version@) is None);
            assert(spec_want_requested(ix0, uid@, version@, base_url@, requests@));
            assert(spec_want_reqs_merged(ix0, uid@, version@, wants@, extra@)) by {
                match spec_entry_requires_in(ix0, uid@, version@) {
                    Some(rs) => {
                        assert(rs == pidx0.versions@[j as int].requires@);
                        lemma_reqs_merged_monotone(wants@, extra_mid, extra@, rs);
                    },
                    None => {
                        assert(false);
                    },
                }
                assert(spec_manifest_in(ix0, uid@, version@) == Some(mani0));
                if mani0.uid@ == uid@ && mani0.version@ == version@ {
                    assert(spec_reqs_merged(wants@, extra@, mani0.requires@));
                }
            }
            assert(crate::index::spec_cache_gap(pidx.versions@[j as int])
                == crate::index::spec_cache_gap(pidx0.versions@[j as int])) by {
                assert(mani_swept.asset_index == mani0.asset_index);
                match (mani_swept.asset_index, mani_fin.asset_index) {
                    (None, None) => {},
                    (Some(i0), Some(i1)) => {
                        match (i0.cache, i1.cache) {
                            (None, None) => {},
                            (Some(_), Some(_)) => {},
                            _ => {
                                assert(false);
                            },
                        }
                    },
                    _ => {
                        assert(false);
                    },
                }
            }
            assert(manifest_step_relation(
                mani_pre,
                mani_fin,
                library_path@,
                assets_path@,
                host,
                *disk,
            ));
            if mani0.wf() {
                assert(mani_pre == mani0);
            }
            Self::lemma_slot_update_preserves_resolved_outer(
                ix0,
                *ix,
                pidx0,
                i as int,
                j as int,
                mani0,
                mani_fin,
                wants@,
                extra0,
                extra@,
                library_path@,
                assets_path@,
                host,
                *disk,
            );
            // When nothing was pushed, this want is now resolved.
            if requests@.len() == old(requests)@.len() {
                assert(failures@.len() == 0);
                assert(failures@.map_values(|p: (usize, Error)| (p.0 as int, p.1)) =~= Seq::<
                    (int, Error),
                >::empty());
                lemma_verify_all_stable(
                    mani_pre,
                    mani_fin,
                    library_path@,
                    assets_path@,
                    host,
                    *disk,
                );
                lemma_find_uid_after_update_one(ix0.packages@, ix.packages@, i as int, uid@);
                lemma_find_version_after_update_one(
                    pidx0.versions@,
                    pidx.versions@,
                    j as int,
                    version@,
                );
                assert(spec_resolved(
                    *ix,
                    wants@,
                    extra@,
                    uid@,
                    version@,
                    library_path@,
                    assets_path@,
                    host,
                    *disk,
                ));
                assert(manifests@[manifests@.len() - 1].uid@ == uid@);
            }
            // An already-resolved want pushed nothing and grew nothing.
            if spec_resolved(
                ix0,
                wants@,
                extra0,
                uid@,
                version@,
                library_path@,
                assets_path@,
                host,
                *disk,
            ) {
                assert(mani_pre == mani0);
                assert(failures@.map_values(|p: (usize, Error)| (p.0 as int, p.1)).len() == 0);
                assert(failures@.len() == 0);
                assert(req_after_sweep == old(requests)@.len());
                assert(requests@.len() == old(requests)@.len());
                assert(extra@ == extra0);
            }
            // Every slot moved by at most one resolution step.
            lemma_slots_step_after_update(
                ix0,
                *ix,
                pidx0,
                i as int,
                j as int,
                mani0,
                mani_fin,
                library_path@,
                assets_path@,
                host,
                *disk,
            );
            // Re-download planning: the requests pushed by the sweep are
            // the Library requests of this manifest's failures.
            assert(spec_manifest_in(ix0, uid@, version@) == Some(mani0));
            if mani0.wf() && mani0.uid@ == uid@ && mani0.version@ == version@ {
                assert(mani_pre == mani0);
                let s = failures@.map_values(|p: (usize, Error)| (p.0 as int, p.1));
                assert(mani0.spec_verify_all(true, library_path@, host, *disk) == Ok::<
                    Seq<(int, Error)>,
                    Error,
                >(s));
                assert(requests@.len() >= old(requests)@.len() + s.len());
                assert forall|t2: int|
                    0 <= t2 < s.len() implies spec_library_request_for(
                    mani0,
                    s[t2],
                    library_path@,
                    os.name@,
                    requests@[old(requests)@.len() + t2],
                ) by {
                    assert(spec_library_request_for(
                        mani_pre,
                        s[t2],
                        library_path@,
                        os.name@,
                        reqs_after_sweep[old(requests)@.len() + t2],
                    ));
                    assert(requests@[old(requests)@.len() + t2] == reqs_after_sweep[old(
                        requests,
                    )@.len() + t2]);
                }
            }
        }
        Ok(())
    }

    /// Every want, primary and derived, is resolved in the current state.
    pub open spec fn spec_all_resolved(&self, host: Seq<char>, disk: DiskState) -> bool {
        &&& self.index is Some
        &&& forall|k: int|
            0 <= k < self.wants@.len() ==> spec_resolved(
                self.index.unwrap(),
                self.wants@,
                self.extra_wants@,
                (#[trigger] self.wants@[k]).uid@,
                self.wants@[k].version@,
                self.library_path@,
                self.assets_path@,
                host,
                disk,
            )
        &&& forall|k: int|
            0 <= k < self.extra_wants@.len() ==> spec_resolved(
                self.index.unwrap(),
                self.wants@,
                self.extra_wants@,
                (#[trigger] self.extra_wants@[k]).uid@,
                self.extra_wants@[k].version@,
                self.library_path@,
                self.assets_path@,
                host,
                disk,
            )
    }

    /// Run one resolution pass for the host platform `os` against the
    /// disk snapshot: with no registry yet, ask for it; otherwise work
    /// every want (primary and derived) one step further and return the
    /// downloads the caller must perform before the next call, together
    /// with a snapshot of every loaded manifest.  An empty request list is
    /// the fixed point: every want is then resolved, its manifest is in
    /// the snapshot, and — as long as nothing on disk regresses — further
    /// calls keep returning an empty list without growing any state.
    pub fn continue_search(&mut self, os: &OS, disk: &DiskState) -> (r: Result<SearchResult, Error>)
        ensures
            final(self).wants == old(self).wants,
            final(self).library_path == old(self).library_path,
            final(self).assets_path == old(self).assets_path,
            final(self).base_url == old(self).base_url,
            final(self).extra_wants@.len() >= old(self).extra_wants@.len(),
            forall|t: int|
                0 <= t < old(self).extra_wants@.len() ==> final(self).extra_wants@[t] == old(
                    self,
                ).extra_wants@[t],
            // Every derived want the call appends carries a UID that no
            // earlier want already carried: derived wants never duplicate
            // a UID.
            forall|t: int|
                old(self).extra_wants@.len() <= t < final(self).extra_wants@.len()
                    ==> !spec_uid_present(
                    old(self).wants@,
                    final(self).extra_wants@.subrange(0, t),
                    (#[trigger] final(self).extra_wants@[t]).uid@,
                ),
            old(self).wants@.len() == 0 ==> r == Err::<SearchResult, Error>(Error::MetaNotFound)
                && *final(self) == *old(self),
            old(self).wants@.len() > 0 && old(self).index is None ==> *final(self) == *old(self)
                && (r matches Ok(res) && res.requests@.len() == 1 && (res.requests@[0]
                matches DownloadRequest::MetaIndex { url } && url@ == old(self).base_url@
                + index_json_seg()) && res.manifests@.len() == 0 && res.uid@ == old(
                self,
            ).wants@[0].uid@),
            r matches Ok(res) ==> res.uid@ == old(self).wants@[0].uid@,
            r matches Ok(res) ==> res.requests@.len() != 0 || final(self).spec_all_resolved(
                os.name@,
                *disk,
            ) && (forall|k: int|
                0 <= k < final(self).wants@.len() ==> exists|t: int|
                    0 <= t < res.manifests@.len()
                        && (#[trigger] res.manifests@[t]).uid@
                        == (#[trigger] final(self).wants@[k]).uid@
                        && res.manifests@[t].version@ == final(self).wants@[k].version@) && (
            forall|k: int|
                0 <= k < final(self).extra_wants@.len() ==> exists|t: int|
                    0 <= t < res.manifests@.len()
                        && (#[trigger] res.manifests@[t]).uid@
                        == (#[trigger] final(self).extra_wants@[k]).uid@
                        && res.manifests@[t].version@ == final(self).extra_wants@[k].version@),
            old(self).wants@.len() > 0 && old(self).extra_wants@.len() <= 1024
                && old(self).spec_all_resolved(os.name@, *disk) ==> (r matches Ok(res)
                && res.requests@.len() == 0 && final(self).extra_wants@ == old(
                self,
            ).extra_wants@),
            // Re-download planning: for every primary want whose manifest
            // was already loaded at entry (well-formed, carrying the
            // slot's coordinates), the result holds one Library request
            // per failure of that manifest's caching sweep, each with the
            // failing artifact's selected download and destination path.
            r matches Ok(res) ==> (old(self).index matches Some(ixa) ==> forall|kk: int|
                0 <= kk < old(self).wants@.len() ==> spec_want_planned(
                    ixa,
                    #[trigger] old(self).wants@[kk],
                    old(self).library_path@,
                    os.name@,
                    *disk,
                    res.requests@,
                )),
            // A failure is never gratuitous: it names the empty want list,
            // the derived-wants cap, or a want — primary or derived — that
            // cannot make progress in the final registry state.
            r is Err ==> old(self).wants@.len() == 0 || final(self).extra_wants@.len() > 1024 || (
            final(self).index matches Some(ixb) && ((exists|kk: int|
                0 <= kk < old(self).wants@.len() && spec_want_faulty(
                    ixb,
                    (#[trigger] old(self).wants@[kk]).uid@,
                    old(self).wants@[kk].version@,
                    old(self).library_path@,
                    os.name@,
                    *disk,
                )) || (exists|kk: int|
                0 <= kk < final(self).extra_wants@.len() && spec_want_faulty(
                    ixb,
                    (#[trigger] final(self).extra_wants@[kk]).uid@,
                    final(self).extra_wants@[kk].version@,
                    old(self).library_path@,
                    os.name@,
                    *disk,
                )))),
            // Every pass owes its work: for each want, primary or derived,
            // the result carries the metadata download the want is blocked
            // on, and the requirements of its version entry and loaded
            // manifest are merged into the wanted packages.
            r matches Ok(res) ==> (old(self).index matches Some(ixa) ==> (forall|kk: int|
                0 <= kk < old(self).wants@.len() ==> spec_want_requested(
                    ixa,
                    (#[trigger] old(self).wants@[kk]).uid@,
                    old(self).wants@[kk].version@,
                    old(self).base_url@,
                    res.requests@,
                ) && spec_want_reqs_merged(
                    ixa,
                    old(self).wants@[kk].uid@,
                    old(self).wants@[kk].version@,
                    old(self).wants@,
                    final(self).extra_wants@,
                )) && (forall|kk: int|
                0 <= kk < final(self).extra_wants@.len() ==> spec_want_requested(
                    ixa,
                    (#[trigger] final(self).extra_wants@[kk]).uid@,
                    final(self).extra_wants@[kk].version@,
                    old(self).base_url@,
                    res.requests@,
                ) && spec_want_reqs_merged(
                    ixa,
                    final(self).extra_wants@[kk].uid@,
                    final(self).extra_wants@[kk].version@,
                    old(self).wants@,
                    final(self).extra_wants@,
                ))),
            // The search fills no slot: it leaves the progress measure the
            // loaders shrink untouched, so a caller that fulfils every
            // returned request strictly descends through that measure.
            (match (old(self).index, final(self).index) {
                (Some(ix0a), Some(ix1a)) => crate::index::spec_unfilled_indexes(ix1a.packages@)
                    == crate::index::spec_unfilled_indexes(ix0a.packages@)
                    && crate::index::spec_unfilled_manifests(ix1a.packages@)
                    == crate::index::spec_unfilled_manifests(ix0a.packages@)
                    && crate::index::spec_unfilled_caches(ix1a.packages@)
                    == crate::index::spec_unfilled_caches(ix0a.packages@),
                (None, None) => true,
                _ => false,
            }),
    {
        let ghost self0 = *self;
        let ghost host = os.name@;
        if self.wants.len() == 0 {
            return Err(Error::MetaNotFound);
        }
        if self.index.is_none() {
            let url = self.index_url();
            let mut reqs: Vec<DownloadRequest> = Vec::new();
            reqs.push(DownloadRequest::new_meta_index(url));
            let first_uid = self.wants[0].uid.clone();
            return Ok(SearchResult::new(reqs, Vec::new(), first_uid));
        }
        let mut requests: Vec<DownloadRequest> = Vec::new();
        let mut manifests: Vec<Manifest> = Vec::new();
        let mut ix = match self.index.take() {
            Some(ix) => ix,
            None => {
                proof {
                    assert(false);
                }
                return Err(Error::MetaNotFound);
            },
        };
        let ghost ix0 = ix;
        let ghost wants0 = self.wants@;
        let ghost extra0 = self.extra_wants@;
        let ghost lp = self.library_path@;
        let ghost ap = self.assets_path@;
        let ghost bu = self.base_url@;
        proof {
            lemma_slots_step_refl(ix0, lp, ap, host, *disk);
        }
        let mut k: usize = 0;
        while k < self.wants.len()
            invariant
                k <= wants0.len(),
                host == os.name@,
                wants0.len() > 0,
                self0 == *old(self),
                self.wants@ == wants0,
                self.library_path@ == lp,
                self.assets_path@ == ap,
                self.library_path == self0.library_path,
                self.assets_path == self0.assets_path,
                self.base_url == self0.base_url,
                self.wants == self0.wants,
                self0.wants@ == wants0,
                self0.extra_wants@ == extra0,
                self0.index == Some(ix0),
                self0.library_path@ == lp,
                self0.assets_path@ == ap,
                self.extra_wants@.len() >= extra0.len(),
                forall|t: int| 0 <= t < extra0.len() ==> self.extra_wants@[t] == extra0[t],
                forall|t: int|
                    extra0.len() <= t < self.extra_wants@.len() ==> !spec_uid_present(
                        wants0,
                        self.extra_wants@.subrange(0, t),
                        (#[trigger] self.extra_wants@[t]).uid@,
                    ),
                forall|u: Seq<char>, v: Seq<char>|
                    #[trigger] spec_resolved(ix0, wants0, extra0, u, v, lp, ap, host, *disk)
                        ==> spec_resolved(
                        ix,
                        wants0,
                        self.extra_wants@,
                        u,
                        v,
                        lp,
                        ap,
                        host,
                        *disk,
                    ),
                requests@.len() == 0 ==> forall|jj: int|
                    0 <= jj < k ==> spec_resolved(
                        ix,
                        wants0,
                        self.extra_wants@,
                        (#[trigger] wants0[jj]).uid@,
                        wants0[jj].version@,
                        lp,
                        ap,
                        host,
                        *disk,
                    ),
                requests@.len() == 0 ==> forall|jj: int|
                    0 <= jj < k ==> exists|t: int|
                        0 <= t < manifests@.len() && (#[trigger] manifests@[t]).uid@
                            == (#[trigger] wants0[jj]).uid@ && manifests@[t].version@
                            == wants0[jj].version@,
                self0.spec_all_resolved(host, *disk) ==> requests@.len() == 0
                    && self.extra_wants@ == extra0,
                forall|u2: Seq<char>, v2: Seq<char>|
                    #![trigger spec_manifest_in(ix0, u2, v2)]
                    (match (spec_manifest_in(ix0, u2, v2), spec_manifest_in(ix, u2, v2)) {
                        (Some(m0), Some(m1)) => m0.wf() ==> manifest_step_relation(
                            m0,
                            m1,
                            lp,
                            ap,
                            host,
                            *disk,
                        ),
                        (None, None) => true,
                        _ => false,
                    }),
                forall|jj: int|
                    0 <= jj < k ==> spec_want_planned(
                        ix0,
                        #[trigger] wants0[jj],
                        lp,
                        host,
                        *disk,
                        requests@,
                    ),
                crate::index::spec_unfilled_indexes(ix.packages@)
                    == crate::index::spec_unfilled_indexes(ix0.packages@),
                crate::index::spec_unfilled_manifests(ix.packages@)
                    == crate::index::spec_unfilled_manifests(ix0.packages@),
                crate::index::spec_unfilled_caches(ix.packages@)
                    == crate::index::spec_unfilled_caches(ix0.packages@),
                self.base_url@ == bu,
                forall|u2: Seq<char>| #[trigger] spec_owed_index(ix, u2) == spec_owed_index(
                    ix0,
                    u2,
                ),
                forall|u2: Seq<char>, v2: Seq<char>|
                    #[trigger] spec_owed_manifest(ix, u2, v2) == spec_owed_manifest(ix0, u2, v2),
                forall|u2: Seq<char>, v2: Seq<char>|
                    #[trigger] spec_entry_requires_in(ix, u2, v2) == spec_entry_requires_in(
                        ix0,
                        u2,
                        v2,
                    ),
                forall|u2: Seq<char>, v2: Seq<char>|
                    #![trigger spec_manifest_in(ix0, u2, v2)]
                    (match (spec_manifest_in(ix0, u2, v2), spec_manifest_in(ix, u2, v2)) {
                        (Some(m0), Some(m1)) => m1.uid == m0.uid && m1.version == m0.version
                            && m1.requires == m0.requires,
                        (None, None) => true,
                        _ => false,
                    }),
                forall|jj: int|
                    0 <= jj < k ==> spec_want_requested(
                        ix0,
                        (#[trigger] wants0[jj]).uid@,
                        wants0[jj].version@,
                        bu,
                        requests@,
                    ) && spec_want_reqs_merged(
                        ix0,
                        wants0[jj].uid@,
                        wants0[jj].version@,
                        wants0,
                        self.extra_wants@,
                    ),
            decreases wants0.len() - k,
        {
            let ghost ix_pre = ix;
            let ghost reqs_pre = requests@;
            let ghost extra_pre = self.extra_wants@;
            let uid = self.wants[k].uid.clone();
            let version = self.wants[k].version.clone();
            proof {
                if self0.spec_all_resolved(host, *disk) {
                    assert(spec_resolved(
                        ix0,
                        wants0,
                        extra0,
                        wants0[k as int].uid@,
                        wants0[k as int].version@,
                        lp,
                        ap,
                        host,
                        *disk,
                    ));
                }
            }
            match Self::search_one(
                &mut ix,
                &mut self.extra_wants,
                &self.wants,
                &mut requests,
                &mut manifests,
                self.library_path.as_str(),
                self.assets_path.as_str(),
                self.base_url.as_str(),
                uid.as_str(),
                version.as_str(),
                os,
                disk,
            ) {
                Ok(()) => {},
                Err(e) => {
                    proof {
                        if self0.spec_all_resolved(host, *disk) {
                            assert(false);
                        }
                        assert forall|t: int|
                            extra0.len() <= t < self.extra_wants@.len() implies !spec_uid_present(
                            wants0,
                            self.extra_wants@.subrange(0, t),
                            (#[trigger] self.extra_wants@[t]).uid@,
                        ) by {
                            if t < extra_pre.len() {
                                assert(self.extra_wants@[t] == extra_pre[t]);
                                assert(self.extra_wants@.subrange(0, t) =~= extra_pre.subrange(
                                    0,
                                    t,
                                ));
                            }
                        }
                    }
                    self.index = Some(ix);
                    return Err(e);
                },
            }
            proof {
                assert forall|t: int|
                    extra0.len() <= t < self.extra_wants@.len() implies !spec_uid_present(
                    wants0,
                    self.extra_wants@.subrange(0, t),
                    (#[trigger] self.extra_wants@[t]).uid@,
                ) by {
                    if t < extra_pre.len() {
                        assert(self.extra_wants@[t] == extra_pre[t]);
                        assert(self.extra_wants@.subrange(0, t) =~= extra_pre.subrange(0, t));
                    }
                }
                assert forall|u2: Seq<char>| #[trigger] spec_owed_index(ix, u2)
                    == spec_owed_index(ix0, u2) by {
                    assert(spec_owed_index(ix_pre, u2) == spec_owed_index(ix0, u2));
                }
                assert forall|u2: Seq<char>, v2: Seq<char>|
                    #[trigger] spec_owed_manifest(ix, u2, v2) == spec_owed_manifest(
                    ix0,
                    u2,
                    v2,
                ) by {
                    assert(spec_owed_manifest(ix_pre, u2, v2) == spec_owed_manifest(ix0, u2, v2));
                }
                assert forall|u2: Seq<char>, v2: Seq<char>|
                    #[trigger] spec_entry_requires_in(ix, u2, v2) == spec_entry_requires_in(
                    ix0,
                    u2,
                    v2,
                ) by {
                    assert(spec_entry_requires_in(ix_pre, u2, v2) == spec_entry_requires_in(
                        ix0,
                        u2,
                        v2,
                    ));
                }
                assert forall|u2: Seq<char>, v2: Seq<char>|
                    #![trigger spec_manifest_in(ix0, u2, v2)]
                    (match (spec_manifest_in(ix0, u2, v2), spec_manifest_in(ix, u2, v2)) {
                        (Some(m0), Some(m2)) => m2.uid == m0.uid && m2.version == m0.version
                            && m2.requires == m0.requires,
                        (None, None) => true,
                        _ => false,
                    }) by {
                    match (spec_manifest_in(ix0, u2, v2), spec_manifest_in(ix_pre, u2, v2)) {
                        (Some(m0), Some(m1)) => {
                            match spec_manifest_in(ix, u2, v2) {
                                Some(m2) => {},
                                None => {
                                    assert(false);
                                },
                            }
                        },
                        (None, None) => {},
                        _ => {
                            assert(false);
                        },
                    }
                }
                assert forall|jj: int|
                    0 <= jj < k + 1 implies spec_want_requested(
                    ix0,
                    (#[trigger] wants0[jj]).uid@,
                    wants0[jj].version@,
                    bu,
                    requests@,
                ) && spec_want_reqs_merged(
                    ix0,
                    wants0[jj].uid@,
                    wants0[jj].version@,
                    wants0,
                    self.extra_wants@,
                ) by {
                    if jj < k {
                        lemma_want_requested_monotone(
                            ix0,
                            wants0[jj].uid@,
                            wants0[jj].version@,
                            bu,
                            reqs_pre,
                            requests@,
                        );
                        match spec_entry_requires_in(ix0, wants0[jj].uid@, wants0[jj].version@) {
                            Some(rs) => {
                                lemma_reqs_merged_monotone(
                                    wants0,
                                    extra_pre,
                                    self.extra_wants@,
                                    rs,
                                );
                            },
                            None => {},
                        }
                        match spec_manifest_in(ix0, wants0[jj].uid@, wants0[jj].version@) {
                            Some(m) => {
                                if m.uid@ == wants0[jj].uid@ && m.version@
                                    == wants0[jj].version@ {
                                    lemma_reqs_merged_monotone(
                                        wants0,
                                        extra_pre,
                                        self.extra_wants@,
                                        m.requires@,
                                    );
                                }
                            },
                            None => {},
                        }
                    } else {
                        let u = wants0[k as int].uid@;
                        let v = wants0[k as int].version@;
                        assert(spec_owed_index(ix_pre, u) == spec_owed_index(ix0, u));
                        assert(spec_owed_manifest(ix_pre, u, v) == spec_owed_manifest(ix0, u, v));
                        assert(spec_want_requested(ix_pre, u, v, bu, requests@));
                        assert(spec_want_requested(ix0, u, v, bu, requests@));
                        assert(spec_entry_requires_in(ix_pre, u, v) == spec_entry_requires_in(
                            ix0,
                            u,
                            v,
                        ));
                        assert(spec_want_reqs_merged(ix_pre, u, v, wants0, self.extra_wants@));
                        match (spec_manifest_in(ix0, u, v), spec_manifest_in(ix_pre, u, v)) {
                            (Some(m0), Some(m1)) => {
                                assert(m1.uid == m0.uid && m1.version == m0.version && m1.requires
                                    == m0.requires);
                            },
                            (None, None) => {},
                            _ => {
                                assert(false);
                            },
                        }
                        assert(spec_want_reqs_merged(ix0, u, v, wants0, self.extra_wants@));
                    }
                }
                // Slots compose: entry-to-previous and previous-to-current
                // steps make entry-to-current steps.
                assert forall|u2: Seq<char>, v2: Seq<char>|
                    #![trigger spec_manifest_in(ix0, u2, v2)]
                    (match (spec_manifest_in(ix0, u2, v2), spec_manifest_in(ix, u2, v2)) {
                        (Some(m0), Some(m1)) => m0.wf() ==> manifest_step_relation(
                            m0,
                            m1,
                            lp,
                            ap,
                            host,
                            *disk,
                        ),
                        (None, None) => true,
                        _ => false,
                    }) by {
                    match (spec_manifest_in(ix0, u2, v2), spec_manifest_in(ix_pre, u2, v2)) {
                        (None, None) => {},
                        (Some(m0), Some(m1)) => {
                            match spec_manifest_in(ix, u2, v2) {
                                None => {
                                    assert(false);
                                },
                                Some(m2) => {
                                    if m0.wf() {
                                        assert(manifest_step_relation(m0, m1, lp, ap, host, *disk));
                                        assert(m1.wf());
                                        assert(manifest_step_relation(m1, m2, lp, ap, host, *disk));
                                        lemma_step_relation_trans(m0, m1, m2, lp, ap, host, *disk);
                                    }
                                },
                            }
                        },
                        _ => {
                            assert(false);
                        },
                    }
                }
                // Earlier wants keep their planned requests; the want just
                // processed gains its own.
                assert forall|jj: int|
                    0 <= jj < k + 1 implies spec_want_planned(
                    ix0,
                    #[trigger] wants0[jj],
                    lp,
                    host,
                    *disk,
                    requests@,
                ) by {
                    if jj < k {
                        lemma_want_planned_monotone(
                            ix0,
                            wants0[jj],
                            lp,
                            host,
                            *disk,
                            reqs_pre,
                            requests@,
                        );
                    } else {
                        let u = wants0[k as int].uid@;
                        let v = wants0[k as int].version@;
                        match spec_manifest_in(ix0, u, v) {
                            None => {},
                            Some(m) => {
                                if m.wf() && m.uid@ == u && m.version@ == v {
                                    match spec_manifest_in(ix_pre, u, v) {
                                        None => {
                                            assert(false);
                                        },
                                        Some(m1) => {
                                            assert(manifest_step_relation(
                                                m,
                                                m1,
                                                lp,
                                                ap,
                                                host,
                                                *disk,
                                            ));
                                            lemma_verify_all_invariant_under_step(
                                                m,
                                                m1,
                                                lp,
                                                ap,
                                                host,
                                                *disk,
                                            );
                                            match m.spec_verify_all(true, lp, host, *disk) {
                                                Ok(fails) => {
                                                    assert(m1.spec_verify_all(
                                                        true,
                                                        lp,
                                                        host,
                                                        *disk,
                                                    ) == Ok::<Seq<(int, Error)>, Error>(fails));
                                                    assert forall|t2: int|
                                                        0 <= t2 < fails.len()
                                                            implies spec_library_request_for(
                                                        m,
                                                        fails[t2],
                                                        lp,
                                                        host,
                                                        requests@[reqs_pre.len() + t2],
                                                    ) by {
                                                        assert(spec_library_request_for(
                                                            m1,
                                                            fails[t2],
                                                            lp,
                                                            host,
                                                            requests@[reqs_pre.len() + t2],
                                                        ));
                                                        assert(m1.libraries == m.libraries
                                                            && m1.main_jar == m.main_jar);
                                                    }
                                                    assert(spec_planned_at(
                                                        m,
                                                        fails,
                                                        lp,
                                                        host,
                                                        requests@,
                                                        reqs_pre.len() as int,
                                                    ));
                                                },
                                                Err(_) => {},
                                            }
                                        },
                                    }
                                }
                            },
                        }
                    }
                }
            }
            k += 1;
        }
        let mut k2: usize = 0;
        while k2 < self.extra_wants.len()
            invariant
                k2 <= 1024,
                host == os.name@,
                wants0.len() > 0,
                self0 == *old(self),
                self.wants@ == wants0,
                self.library_path@ == lp,
                self.assets_path@ == ap,
                self.library_path == self0.library_path,
                self.assets_path == self0.assets_path,
                self.base_url == self0.base_url,
                self.wants == self0.wants,
                self0.wants@ == wants0,
                self0.extra_wants@ == extra0,
                self0.index == Some(ix0),
                self0.library_path@ == lp,
                self0.assets_path@ == ap,
                k2 <= self.extra_wants@.len(),
                self.extra_wants@.len() >= extra0.len(),
                forall|t: int| 0 <= t < extra0.len() ==> self.extra_wants@[t] == extra0[t],
                forall|t: int|
                    extra0.len() <= t < self.extra_wants@.len() ==> !spec_uid_present(
                        wants0,
                        self.extra_wants@.subrange(0, t),
                        (#[trigger] self.extra_wants@[t]).uid@,
                    ),
                forall|u: Seq<char>, v: Seq<char>|
                    #[trigger] spec_resolved(ix0, wants0, extra0, u, v, lp, ap, host, *disk)
                        ==> spec_resolved(
                        ix,
                        wants0,
                        self.extra_wants@,
                        u,
                        v,
                        lp,
                        ap,
                        host,
                        *disk,
                    ),
                requests@.len() == 0 ==> forall|jj: int|
                    0 <= jj < wants0.len() ==> spec_resolved(
                        ix,
                        wants0,
                        self.extra_wants@,
                        (#[trigger] wants0[jj]).uid@,
                        wants0[jj].version@,
                        lp,
                        ap,
                        host,
                        *disk,
                    ),
                requests@.len() == 0 ==> forall|jj: int|
                    0 <= jj < wants0.len() ==> exists|t: int|
                        0 <= t < manifests@.len() && (#[trigger] manifests@[t]).uid@
                            == (#[trigger] wants0[jj]).uid@ && manifests@[t].version@
                            == wants0[jj].version@,
                requests@.len() == 0 ==> forall|jj: int|
                    0 <= jj < k2 ==> spec_resolved(
                        ix,
                        wants0,
                        self.extra_wants@,
                        (#[trigger] self.extra_wants@[jj]).uid@,
                        self.extra_wants@[jj].version@,
                        lp,
                        ap,
                        host,
                        *disk,
                    ),
                requests@.len() == 0 ==> forall|jj: int|
                    0 <= jj < k2 ==> exists|t: int|
                        0 <= t < manifests@.len() && (#[trigger] manifests@[t]).uid@
                            == (#[trigger] self.extra_wants@[jj]).uid@ && manifests@[t].version@
                            == self.extra_wants@[jj].version@,
                self0.spec_all_resolved(host, *disk) ==> requests@.len() == 0
                    && self.extra_wants@ == extra0,
                forall|jj: int|
                    0 <= jj < wants0.len() ==> spec_want_planned(
                        ix0,
                        #[trigger] wants0[jj],
                        lp,
                        host,
                        *disk,
                        requests@,
                    ),
                crate::index::spec_unfilled_indexes(ix.packages@)
                    == crate::index::spec_unfilled_indexes(ix0.packages@),
                crate::index::spec_unfilled_manifests(ix.packages@)
                    == crate::index::spec_unfilled_manifests(ix0.packages@),
                crate::index::spec_unfilled_caches(ix.packages@)
                    == crate::index::spec_unfilled_caches(ix0.packages@),
                self.base_url@ == bu,
                forall|u2: Seq<char>| #[trigger] spec_owed_index(ix, u2) == spec_owed_index(
                    ix0,
                    u2,
                ),
                forall|u2: Seq<char>, v2: Seq<char>|
                    #[trigger] spec_owed_manifest(ix, u2, v2) == spec_owed_manifest(ix0, u2, v2),
                forall|u2: Seq<char>, v2: Seq<char>|
                    #[trigger] spec_entry_requires_in(ix, u2, v2) == spec_entry_requires_in(
                        ix0,
                        u2,
                        v2,
                    ),
                forall|u2: Seq<char>, v2: Seq<char>|
                    #![trigger spec_manifest_in(ix0, u2, v2)]
                    (match (spec_manifest_in(ix0, u2, v2), spec_manifest_in(ix, u2, v2)) {
                        (Some(m0), Some(m1)) => m1.uid == m0.uid && m1.version == m0.version
                            && m1.requires == m0.requires,
                        (None, None) => true,
                        _ => false,
                    }),
                forall|jj: int|
                    0 <= jj < wants0.len() ==> spec_want_requested(
                        ix0,
                        (#[trigger] wants0[jj]).uid@,
                        wants0[jj].version@,
                        bu,
                        requests@,
                    ) && spec_want_reqs_merged(
                        ix0,
                        wants0[jj].uid@,
                        wants0[jj].version@,
                        wants0,
                        self.extra_wants@,
                    ),
                forall|jj: int|
                    0 <= jj < k2 ==> spec_want_requested(
                        ix0,
                        (#[trigger] self.extra_wants@[jj]).uid@,
                        self.extra_wants@[jj].version@,
                        bu,
                        requests@,
                    ) && spec_want_reqs_merged(
                        ix0,
                        self.extra_wants@[jj].uid@,
                        self.extra_wants@[jj].version@,
                        wants0,
                        self.extra_wants@,
                    ),
            decreases 1024 - k2,
        {
            if k2 >= 1024 {
                proof {
                    if self0.spec_all_resolved(host, *disk) {
                        assert(self.extra_wants@.len() > 1024);
                        assert(extra0.len() > 1024);
                    }
                }
                self.index = Some(ix);
                return Err(Error::MetaNotFound);
            }
            let ghost ix_pre = ix;
            let ghost reqs_pre = requests@;
            let ghost extra_pre = self.extra_wants@;
            let uid = self.extra_wants[k2].uid.clone();
            let version = self.extra_wants[k2].version.clone();
            proof {
                if self0.spec_all_resolved(host, *disk) {
                    assert(self.extra_wants@ == extra0);
                    assert(spec_resolved(
                        ix0,
                        wants0,
                        extra0,
                        extra0[k2 as int].uid@,
                        extra0[k2 as int].version@,
                        lp,
                        ap,
                        host,
                        *disk,
                    ));
                }
            }
            match Self::search_one(
                &mut ix,
                &mut self.extra_wants,
                &self.wants,
                &mut requests,
                &mut manifests,
                self.library_path.as_str(),
                self.assets_path.as_str(),
                self.base_url.as_str(),
                uid.as_str(),
                version.as_str(),
                os,
                disk,
            ) {
                Ok(()) => {},
                Err(e) => {
                    proof {
                        if self0.spec_all_resolved(host, *disk) {
                            assert(false);
                        }
                        assert forall|t: int|
                            extra0.len() <= t < self.extra_wants@.len() implies !spec_uid_present(
                            wants0,
                            self.extra_wants@.subrange(0, t),
                            (#[trigger] self.extra_wants@[t]).uid@,
                        ) by {
                            if t < extra_pre.len() {
                                assert(self.extra_wants@[t] == extra_pre[t]);
                                assert(self.extra_wants@.subrange(0, t) =~= extra_pre.subrange(
                                    0,
                                    t,
                                ));
                            }
                        }
                    }
                    self.index = Some(ix);
                    return Err(e);
                },
            }
            proof {
                assert forall|t: int|
                    extra0.len() <= t < self.extra_wants@.len() implies !spec_uid_present(
                    wants0,
                    self.extra_wants@.subrange(0, t),
                    (#[trigger] self.extra_wants@[t]).uid@,
                ) by {
                    if t < extra_pre.len() {
                        assert(self.extra_wants@[t] == extra_pre[t]);
                        assert(self.extra_wants@.subrange(0, t) =~= extra_pre.subrange(0, t));
                    }
                }
                assert forall|u2: Seq<char>| #[trigger] spec_owed_index(ix, u2)
                    == spec_owed_index(ix0, u2) by {
                    assert(spec_owed_index(ix_pre, u2) == spec_owed_index(ix0, u2));
                }
                assert forall|u2: Seq<char>, v2: Seq<char>|
                    #[trigger] spec_owed_manifest(ix, u2, v2) == spec_owed_manifest(
                    ix0,
                    u2,
                    v2,
                ) by {
                    assert(spec_owed_manifest(ix_pre, u2, v2) == spec_owed_manifest(ix0, u2, v2));
                }
                assert forall|u2: Seq<char>, v2: Seq<char>|
                    #[trigger] spec_entry_requires_in(ix, u2, v2) == spec_entry_requires_in(
                    ix0,
                    u2,
                    v2,
                ) by {
                    assert(spec_entry_requires_in(ix_pre, u2, v2) == spec_entry_requires_in(
                        ix0,
                        u2,
                        v2,
                    ));
                }
                assert forall|u2: Seq<char>, v2: Seq<char>|
                    #![trigger spec_manifest_in(ix0, u2, v2)]
                    (match (spec_manifest_in(ix0, u2, v2), spec_manifest_in(ix, u2, v2)) {
                        (Some(m0), Some(m2)) => m2.uid == m0.uid && m2.version == m0.version
                            && m2.requires == m0.requires,
                        (None, None) => true,
                        _ => false,
                    }) by {
                    match (spec_manifest_in(ix0, u2, v2), spec_manifest_in(ix_pre, u2, v2)) {
                        (Some(m0), Some(m1)) => {
                            match spec_manifest_in(ix, u2, v2) {
                                Some(m2) => {},
                                None => {
                                    assert(false);
                                },
                            }
                        },
                        (None, None) => {},
                        _ => {
                            assert(false);
                        },
                    }
                }
                assert forall|jj: int|
                    0 <= jj < wants0.len() implies spec_want_requested(
                    ix0,
                    (#[trigger] wants0[jj]).uid@,
                    wants0[jj].version@,
                    bu,
                    requests@,
                ) && spec_want_reqs_merged(
                    ix0,
                    wants0[jj].uid@,
                    wants0[jj].version@,
                    wants0,
                    self.extra_wants@,
                ) by {
                    lemma_want_requested_monotone(
                        ix0,
                        wants0[jj].uid@,
                        wants0[jj].version@,
                        bu,
                        reqs_pre,
                        requests@,
                    );
                    match spec_entry_requires_in(ix0, wants0[jj].uid@, wants0[jj].version@) {
                        Some(rs) => {
                            lemma_reqs_merged_monotone(wants0, extra_pre, self.extra_wants@, rs);
                        },
                        None => {},
                    }
                    match spec_manifest_in(ix0, wants0[jj].uid@, wants0[jj].version@) {
                        Some(m) => {
                            if m.uid@ == wants0[jj].uid@ && m.version@ == wants0[jj].version@ {
                                lemma_reqs_merged_monotone(
                                    wants0,
                                    extra_pre,
                                    self.extra_wants@,
                                    m.requires@,
                                );
                            }
                        },
                        None => {},
                    }
                }
                assert forall|jj: int|
                    0 <= jj < k2 + 1 implies spec_want_requested(
                    ix0,
                    (#[trigger] self.extra_wants@[jj]).uid@,
                    self.extra_wants@[jj].version@,
                    bu,
                    requests@,
                ) && spec_want_reqs_merged(
                    ix0,
                    self.extra_wants@[jj].uid@,
                    self.extra_wants@[jj].version@,
                    wants0,
                    self.extra_wants@,
                ) by {
                    if jj < k2 {
                        assert(self.extra_wants@[jj] == extra_pre[jj]);
                        lemma_want_requested_monotone(
                            ix0,
                            self.extra_wants@[jj].uid@,
                            self.extra_wants@[jj].version@,
                            bu,
                            reqs_pre,
                            requests@,
                        );
                        match spec_entry_requires_in(
                            ix0,
                            self.extra_wants@[jj].uid@,
                            self.extra_wants@[jj].version@,
                        ) {
                            Some(rs) => {
                                lemma_reqs_merged_monotone(
                                    wants0,
                                    extra_pre,
                                    self.extra_wants@,
                                    rs,
                                );
                            },
                            None => {},
                        }
                        match spec_manifest_in(
                            ix0,
                            self.extra_wants@[jj].uid@,
                            self.extra_wants@[jj].version@,
                        ) {
                            Some(m) => {
                                if m.uid@ == self.extra_wants@[jj].uid@ && m.version@
                                    == self.extra_wants@[jj].version@ {
                                    lemma_reqs_merged_monotone(
                                        wants0,
                                        extra_pre,
                                        self.extra_wants@,
                                        m.requires@,
                                    );
                                }
                            },
                            None => {},
                        }
                    } else {
                        let u = extra_pre[k2 as int].uid@;
                        let v = extra_pre[k2 as int].version@;
                        assert(self.extra_wants@[jj] == extra_pre[k2 as int]);
                        assert(spec_owed_index(ix_pre, u) == spec_owed_index(ix0, u));
                        assert(spec_owed_manifest(ix_pre, u, v) == spec_owed_manifest(ix0, u, v));
                        assert(spec_want_requested(ix_pre, u, v, bu, requests@));
                        assert(spec_want_requested(ix0, u, v, bu, requests@));
                        assert(spec_entry_requires_in(ix_pre, u, v) == spec_entry_requires_in(
                            ix0,
                            u,
                            v,
                        ));
                        assert(spec_want_reqs_merged(ix_pre, u, v, wants0, self.extra_wants@));
                        match (spec_manifest_in(ix0, u, v), spec_manifest_in(ix_pre, u, v)) {
                            (Some(m0), Some(m1)) => {
                                assert(m1.uid == m0.uid && m1.version == m0.version && m1.requires
                                    == m0.requires);
                            },
                            (None, None) => {},
                            _ => {
                                assert(false);
                            },
                        }
                        assert(spec_want_reqs_merged(ix0, u, v, wants0, self.extra_wants@));
                    }
                }
                assert forall|jj: int|
                    0 <= jj < wants0.len() implies spec_want_planned(
                    ix0,
                    #[trigger] wants0[jj],
                    lp,
                    host,
                    *disk,
                    requests@,
                ) by {
                    lemma_want_planned_monotone(
                        ix0,
                        wants0[jj],
                        lp,
                        host,
                        *disk,
                        reqs_pre,
                        requests@,
                    );
                }
            }
            k2 += 1;
        }
        self.index = Some(ix);
        let first_uid = self.wants[0].uid.clone();
        let result = SearchResult::new(requests, manifests, first_uid);
        proof {
            if result.requests@.len() == 0 {
                assert(final(self).spec_all_resolved(host, *disk)) by {
                    assert(self.index == Some(ix));
                }
            }
        }
        Ok(result)
    }

    /// Step relation is reflexive on well-formed manifests.
    proof fn lemma_step_reflexive(
        m: Manifest,
        lib_path: Seq<char>,
        assets_path: Seq<char>,
        host: Seq<char>,
        disk: DiskState,
    )
        ensures
            m.wf() ==> manifest_step_relation(m, m, lib_path, assets_path, host, disk),
    {
        if m.wf() {
            match m.asset_index {
                None => {},
                Some(i0) => {
                    match i0.cache {
                        None => {},
                        Some(c0) => {},
                    }
                },
            }
        }
    }

    /// Composition of the slot-update preservation with extra-wants
    /// growth.
    proof fn lemma_slot_update_preserves_resolved_outer(
        ix0: MetaIndex,
        ix1: MetaIndex,
        pidx0: PackageIndex,
        i: int,
        j: int,
        mani0: Manifest,
        mani1: Manifest,
        wants: Seq<Wants>,
        extra0: Seq<Wants>,
        extra1: Seq<Wants>,
        lib_path: Seq<char>,
        assets_path: Seq<char>,
        host: Seq<char>,
        disk: DiskState,
    )
        requires
            0 <= i < ix0.packages@.len(),
            ix1.packages@.len() == ix0.packages@.len(),
            forall|k: int|
                0 <= k < ix0.packages@.len() && k != i ==> ix1.packages@[k] == ix0.packages@[k],
            ix1.packages@[i].uid == ix0.packages@[i].uid,
            ix0.packages@[i].index == Some(pidx0),
            0 <= j < pidx0.versions@.len(),
            ix1.packages@[i].index matches Some(pidx1) && pidx1.versions@.len()
                == pidx0.versions@.len() && (forall|k: int|
                0 <= k < pidx0.versions@.len() && k != j ==> pidx1.versions@[k]
                    == pidx0.versions@[k]) && pidx1.versions@[j].version
                == pidx0.versions@[j].version && pidx1.versions@[j].requires
                == pidx0.versions@[j].requires && pidx1.versions@[j].manifest == Some(mani1),
            pidx0.versions@[j].manifest == Some(mani0),
            mani0.wf() ==> manifest_step_relation(mani0, mani1, lib_path, assets_path, host, disk),
            extra1.len() >= extra0.len(),
            forall|t: int| 0 <= t < extra0.len() ==> extra1[t] == extra0[t],
        ensures
            forall|u: Seq<char>, v: Seq<char>|
                #[trigger] spec_resolved(ix0, wants, extra0, u, v, lib_path, assets_path, host, disk)
                    ==> spec_resolved(ix1, wants, extra1, u, v, lib_path, assets_path, host, disk),
    {
        lemma_slot_update_preserves_resolved(
            ix0,
            ix1,
            pidx0,
            i,
            j,
            mani0,
            mani1,
            wants,
            extra0,
            lib_path,
            assets_path,
            host,
            disk,
        );
        assert forall|u: Seq<char>, v: Seq<char>|
            #[trigger] spec_resolved(ix0, wants, extra0, u, v, lib_path, assets_path, host, disk)
                implies spec_resolved(
            ix1,
            wants,
            extra1,
            u,
            v,
            lib_path,
            assets_path,
            host,
            disk,
        ) by {
            assert(spec_resolved(ix1, wants, extra0, u, v, lib_path, assets_path, host, disk));
            lemma_resolved_extra_monotone(
                ix1,
                wants,
                extra0,
                extra1,
                u,
                v,
                lib_path,
                assets_path,
                host,
                disk,
            );
        }
    }
}


/// The requirements out of `reqs` whose UID is not yet wanted, in order.
pub open spec fn spec_unmet(
    wants: Seq<Wants>,
    extra: Seq<Wants>,
    reqs: Seq<Requirement>,
) -> Seq<Requirement>
    decreases reqs.len(),
{
    if reqs.len() == 0 {
        Seq::empty()
    } else {
        let prefix = spec_unmet(wants, extra, reqs.drop_last());
        if spec_uid_present(wants, extra, reqs.last().uid@) {
            prefix
        } else {
            prefix.push(reqs.last())
        }
    }
}

impl MetaManager {
    /// The wants induced by the requirements not yet covered: one per
    /// requirement whose UID is neither a primary nor a derived want.
    pub fn check_requirements(&self, reqs: &[Requirement]) -> (r: Vec<Wants>)
        ensures
            r@.len() == spec_unmet(self.wants@, self.extra_wants@, reqs@).len(),
            forall|t: int|
                0 <= t < r@.len() ==> (#[trigger] r@[t]).uid@ == spec_unmet(
                    self.wants@,
                    self.extra_wants@,
                    reqs@,
                )[t].uid@ && r@[t].version@ == spec_unmet(
                    self.wants@,
                    self.extra_wants@,
                    reqs@,
                )[t].spec_version(),
    {
        let mut r: Vec<Wants> = Vec::new();
        let mut k: usize = 0;
        proof {
            assert(reqs@.subrange(0, 0) =~= Seq::<Requirement>::empty());
        }
        while k < reqs.len()
            invariant
                k <= reqs@.len(),
                r@.len() == spec_unmet(self.wants@, self.extra_wants@, reqs@.subrange(0, k as int)).len(),
                forall|t: int|
                    0 <= t < r@.len() ==> (#[trigger] r@[t]).uid@ == spec_unmet(
                        self.wants@,
                        self.extra_wants@,
                        reqs@.subrange(0, k as int),
                    )[t].uid@ && r@[t].version@ == spec_unmet(
                        self.wants@,
                        self.extra_wants@,
                        reqs@.subrange(0, k as int),
                    )[t].spec_version(),
            decreases reqs@.len() - k,
        {
            let ghost prev = reqs@.subrange(0, k as int);
            if !uid_present(&self.wants, &self.extra_wants, reqs[k].uid.as_str()) {
                r.push(Wants::from(&reqs[k]));
            }
            k += 1;
            proof {
                let cur = reqs@.subrange(0, k as int);
                assert(cur.drop_last() =~= prev);
                assert(cur.last() == reqs@[k - 1]);
            }
        }
        proof {
            assert(reqs@.subrange(0, reqs@.len() as int) =~= reqs@);
        }
        r
    }
}

/// Transitive closure at the fixed point: every requirement a resolved
/// manifest names is itself wanted, and the want that covers it has its
/// own manifest loaded in the registry.
pub proof fn lemma_transitive_closure(
    mgr: MetaManager,
    host: Seq<char>,
    disk: DiskState,
    uid: Seq<char>,
    version: Seq<char>,
    t: int,
)
    requires
        mgr.spec_all_resolved(host, disk),
        (exists|k: int|
            0 <= k < mgr.wants@.len() && (#[trigger] mgr.wants@[k]).uid@ == uid
                && mgr.wants@[k].version@ == version) || (exists|k: int|
            0 <= k < mgr.extra_wants@.len() && (#[trigger] mgr.extra_wants@[k]).uid@ == uid
                && mgr.extra_wants@[k].version@ == version),
        mgr.spec_manifest_at(uid, version) matches Some(m) && 0 <= t < m.requires@.len(),
    ensures
        spec_uid_present(
            mgr.wants@,
            mgr.extra_wants@,
            mgr.spec_manifest_at(uid, version).unwrap().requires@[t].uid@,
        ),
        (exists|k: int|
            0 <= k < mgr.wants@.len() && (#[trigger] mgr.wants@[k]).uid@ == mgr.spec_manifest_at(
                uid,
                version,
            ).unwrap().requires@[t].uid@ && mgr.spec_manifest_at(
                mgr.wants@[k].uid@,
                mgr.wants@[k].version@,
            ) is Some) || (exists|k: int|
            0 <= k < mgr.extra_wants@.len() && (#[trigger] mgr.extra_wants@[k]).uid@
                == mgr.spec_manifest_at(uid, version).unwrap().requires@[t].uid@
                && mgr.spec_manifest_at(mgr.extra_wants@[k].uid@, mgr.extra_wants@[k].version@)
                is Some),
{
    let ix = mgr.index.unwrap();
    let m = mgr.spec_manifest_at(uid, version).unwrap();
    assert(spec_resolved(
        ix,
        mgr.wants@,
        mgr.extra_wants@,
        uid,
        version,
        mgr.library_path@,
        mgr.assets_path@,
        host,
        disk,
    ));
    assert(spec_reqs_merged(mgr.wants@, mgr.extra_wants@, m.requires@));
    let ruid = m.requires@[t].uid@;
    assert(spec_uid_present(mgr.wants@, mgr.extra_wants@, ruid));
    if exists|k: int| 0 <= k < mgr.wants@.len() && (#[trigger] mgr.wants@[k]).uid@ == ruid {
        let k = choose|k: int| 0 <= k < mgr.wants@.len() && (#[trigger] mgr.wants@[k]).uid@ == ruid;
        assert(spec_resolved(
            ix,
            mgr.wants@,
            mgr.extra_wants@,
            mgr.wants@[k].uid@,
            mgr.wants@[k].version@,
            mgr.library_path@,
            mgr.assets_path@,
            host,
            disk,
        ));
        assert(mgr.spec_manifest_at(mgr.wants@[k].uid@, mgr.wants@[k].version@) is Some);
    } else {
        let k = choose|k: int|
            0 <= k < mgr.extra_wants@.len() && (#[trigger] mgr.extra_wants@[k]).uid@ == ruid;
        assert(spec_resolved(
            ix,
            mgr.wants@,
            mgr.extra_wants@,
            mgr.extra_wants@[k].uid@,
            mgr.extra_wants@[k].version@,
            mgr.library_path@,
            mgr.assets_path@,
            host,
            disk,
        ));
        assert(mgr.spec_manifest_at(mgr.extra_wants@[k].uid@, mgr.extra_wants@[k].version@)
            is Some);
    }
}

} // verus!
