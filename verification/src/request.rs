//! The download requests the resolver and planner hand to the fetcher.

use vstd::prelude::*;

use crate::asset::{Asset, AssetIndexInfo};
use crate::error::Error;
use crate::hash::{Sha1Sum, Sha256Sum};
use crate::index::{MetaIndexPackage, PackageVersion};
use crate::manifest::LibraryDownload;

verus! {

/// Which digest protects a download.
#[derive(Debug, Clone, Copy, PartialEq, Eq, Structural)]
pub enum HashAlgo {
    Sha1,
    Sha256,
}

/// The kind of file a request asks for.
#[derive(Debug, Clone, Copy, PartialEq, Eq, Structural)]
pub enum FileType {
    /// Index of indexes in the meta directory.
    MetaIndex,
    /// Index of versions.
    Index,
    /// Version manifest.
    Manifest,
    /// Library file (usually a jar file).
    Library,
    /// Asset index.
    AssetIndex,
    /// Asset file (images, etc).
    Asset,
}

impl FileType {
    /// The byte width of the expected digest: none for the meta index,
    /// SHA-1 for files, SHA-256 for metadata.
    pub fn hash_size(&self) -> (r: usize)
        ensures
            r == match self {
                FileType::MetaIndex => 0usize,
                FileType::Library | FileType::AssetIndex | FileType::Asset => 20usize,
                _ => 32usize,
            },
    {
        match self {
            FileType::MetaIndex => 0,
            FileType::Library | FileType::AssetIndex | FileType::Asset => 20,
            _ => 32,
        }
    }

    /// True exactly for a library file.
    pub fn is_library(&self) -> (r: bool)
        ensures
            r == (self is Library),
    {
        matches!(self, FileType::Library)
    }

    /// True exactly for an asset file.
    pub fn is_asset(&self) -> (r: bool)
        ensures
            r == (self is Asset),
    {
        matches!(self, FileType::Asset)
    }

    /// True if either the type is an asset or a library.
    pub fn is_file(&self) -> (r: bool)
        ensures
            r == (self is Library || self is Asset),
    {
        self.is_library() || self.is_asset()
    }

    /// The digest algorithm that protects this kind, if any.
    pub fn get_hash_algo(&self) -> (r: Option<HashAlgo>)
        ensures
            r == match self {
                FileType::MetaIndex => None::<HashAlgo>,
                FileType::Library | FileType::AssetIndex | FileType::Asset => Some(HashAlgo::Sha1),
                _ => Some(HashAlgo::Sha256),
            },
    {
        match self {
            FileType::MetaIndex => None,
            FileType::Library | FileType::AssetIndex | FileType::Asset => Some(HashAlgo::Sha1),
            _ => Some(HashAlgo::Sha256),
        }
    }

    /// The kind's name, as diagnostics print it.
    pub fn as_str(&self) -> (r: &'static str)
        ensures
            r@ == match self {
                FileType::MetaIndex => "meta_index"@,
                FileType::Index => "index"@,
                FileType::Manifest => "manifest"@,
                FileType::Library => "library"@,
                FileType::AssetIndex => "asset_index"@,
                FileType::Asset => "asset"@,
            },
    {
        match self {
            FileType::MetaIndex => "meta_index",
            FileType::Index => "index",
            FileType::Manifest => "manifest",
            FileType::Library => "library",
            FileType::AssetIndex => "asset_index",
            FileType::Asset => "asset",
        }
    }
}

/// The view of `/index.json`.
pub open spec fn index_json_seg() -> Seq<char> {
    seq!['/', 'i', 'n', 'd', 'e', 'x', '.', 'j', 's', 'o', 'n']
}

/// The view of `.json`.
pub open spec fn json_suffix() -> Seq<char> {
    seq!['.', 'j', 's', 'o', 'n']
}

/// One download the caller must perform: the tag says what is fetched, and
/// the fields carry the URL, the expected digest, the destination path and
/// the dispatch context the loader needs.
#[derive(Debug)]
pub enum DownloadRequest {
    MetaIndex { url: String },
    Index { url: String, uid: String, hash: Sha256Sum },
    Manifest { url: String, version: String, uid: String, hash: Sha256Sum },
    Library { path: String, download: LibraryDownload },
    AssetIndex { uid: String, version: String, info: AssetIndexInfo, path: String },
    Asset { asset: Asset, uid: String, url: String, path: String },
}

impl DownloadRequest {
    /// A request for the registry's top-level index.
    pub fn new_meta_index(url: String) -> (r: DownloadRequest)
        ensures
            r == (DownloadRequest::MetaIndex { url }),
    {
        DownloadRequest::MetaIndex { url }
    }

    /// A request for one package's version index, at
    /// `<base_url>/<uid>/index.json`, protected by the registry's SHA-256.
    pub fn new_package_index(base_url: &str, package: &MetaIndexPackage) -> (r: DownloadRequest)
        ensures
            r matches DownloadRequest::Index { url, uid, hash } ==> url@ == base_url@ + seq!['/']
                + package.uid@ + index_json_seg() && uid@ == package.uid@ && hash@
                == package.sha256@,
            r is Index,
    {
        let mut url = base_url.to_owned();
        url.append("/");
        url.append(package.uid.as_str());
        url.append("/index.json");
        proof {
            reveal_strlit("/");
            reveal_strlit("/index.json");
            assert("/"@ =~= seq!['/']);
            assert("/index.json"@ =~= index_json_seg());
            assert(url@ =~= base_url@ + seq!['/'] + package.uid@ + index_json_seg());
        }
        DownloadRequest::Index {
            url,
            uid: package.uid.clone(),
            hash: package.sha256.clone(),
        }
    }

    /// A request for one version's manifest, at
    /// `<base_url>/<uid>/<version>.json`, protected by the index's SHA-256.
    pub fn new_package_manifest(base_url: &str, uid: &str, package: &PackageVersion) -> (r:
        DownloadRequest)
        ensures
            r matches DownloadRequest::Manifest { url, version, uid: u, hash } ==> url@ == base_url@
                + seq!['/'] + uid@ + seq!['/'] + package.version@ + json_suffix() && version@
                == package.version@ && u@ == uid@ && hash@ == package.sha256@,
            r is Manifest,
    {
        let mut url = base_url.to_owned();
        url.append("/");
        url.append(uid);
        url.append("/");
        url.append(package.version.as_str());
        url.append(".json");
        proof {
            reveal_strlit("/");
            reveal_strlit(".json");
            assert("/"@ =~= seq!['/']);
            assert(".json"@ =~= json_suffix());
            assert(url@ =~= base_url@ + seq!['/'] + uid@ + seq!['/'] + package.version@
                + json_suffix());
        }
        DownloadRequest::Manifest {
            url,
            version: package.version.clone(),
            hash: package.sha256.clone(),
            uid: uid.to_owned(),
        }
    }

    /// A request for a library artifact, to be stored at `path`.
    pub fn new_library(download: LibraryDownload, path: String) -> (r: DownloadRequest)
        ensures
            r == (DownloadRequest::Library { download, path }),
    {
        DownloadRequest::Library { download, path }
    }

    /// The kind of file this request asks for.
    pub fn request_type(&self) -> (r: FileType)
        ensures
            r == match self {
                DownloadRequest::MetaIndex { .. } => FileType::MetaIndex,
                DownloadRequest::Index { .. } => FileType::Index,
                DownloadRequest::Manifest { .. } => FileType::Manifest,
                DownloadRequest::Library { .. } => FileType::Library,
                DownloadRequest::AssetIndex { .. } => FileType::AssetIndex,
                DownloadRequest::Asset { .. } => FileType::Asset,
            },
    {
        match self {
            DownloadRequest::MetaIndex { .. } => FileType::MetaIndex,
            DownloadRequest::Index { .. } => FileType::Index,
            DownloadRequest::Manifest { .. } => FileType::Manifest,
            DownloadRequest::Library { .. } => FileType::Library,
            DownloadRequest::AssetIndex { .. } => FileType::AssetIndex,
            DownloadRequest::Asset { .. } => FileType::Asset,
        }
    }

    /// The byte width of the expected digest.
    pub fn hash_size(&self) -> (r: usize)
        ensures
            r == (if self is MetaIndex {
                0usize
            } else if self is Library || self is AssetIndex || self is Asset {
                20usize
            } else {
                32usize
            }),
    {
        self.request_type().hash_size()
    }

    /// The expected digest of the file, if the kind carries one.
    pub open spec fn spec_hash(&self) -> Option<Seq<u8>> {
        match self {
            DownloadRequest::MetaIndex { .. } => None,
            DownloadRequest::Index { hash, .. } => Some(hash@),
            DownloadRequest::Manifest { hash, .. } => Some(hash@),
            DownloadRequest::Library { download, .. } => Some(download.sha1@),
            DownloadRequest::AssetIndex { info, .. } => Some(info.sha1@),
            DownloadRequest::Asset { asset, .. } => Some(asset.hash@),
        }
    }

    /// The expected digest of the file; the meta index alone has none.
    pub fn get_hash(&self) -> (r: Option<&Vec<u8>>)
        ensures
            match r {
                Some(h) => self.spec_hash() == Some(h@),
                None => self.spec_hash() is None && self is MetaIndex,
            },
    {
        match self {
            DownloadRequest::MetaIndex { .. } => None,
            DownloadRequest::Index { hash, .. } => Some(hash.as_bytes()),
            DownloadRequest::Manifest { hash, .. } => Some(hash.as_bytes()),
            DownloadRequest::Library { download, .. } => Some(download.sha1.as_bytes()),
            DownloadRequest::AssetIndex { info, .. } => Some(info.sha1.as_bytes()),
            DownloadRequest::Asset { asset, .. } => Some(asset.hash.as_bytes()),
        }
    }

    /// True exactly when the request carries an expected digest.
    pub fn has_hash(&self) -> (r: bool)
        ensures
            r == !(self is MetaIndex),
    {
        self.hash_size() != 0
    }

    /// True exactly for a library request.
    pub fn is_library(&self) -> (r: bool)
        ensures
            r == (self is Library),
    {
        self.request_type().is_library()
    }

    /// True exactly for an asset request.
    pub fn is_asset(&self) -> (r: bool)
        ensures
            r == (self is Asset),
    {
        self.request_type().is_asset()
    }

    /// True if the request fetches a plain file: a library or an asset.
    pub fn is_file(&self) -> (r: bool)
        ensures
            r == (self is Library || self is Asset),
    {
        self.request_type().is_file()
    }

    /// The digest algorithm that protects this request, if any.
    pub fn get_hash_algo(&self) -> (r: Option<HashAlgo>)
        ensures
            r == (if self is MetaIndex {
                None::<HashAlgo>
            } else if self is Library || self is AssetIndex || self is Asset {
                Some(HashAlgo::Sha1)
            } else {
                Some(HashAlgo::Sha256)
            }),
    {
        self.request_type().get_hash_algo()
    }

    /// The URL to fetch.
    pub open spec fn spec_url(&self) -> Seq<char> {
        match self {
            DownloadRequest::MetaIndex { url } => url@,
            DownloadRequest::Index { url, .. } => url@,
            DownloadRequest::Manifest { url, .. } => url@,
            DownloadRequest::Library { download, .. } => download.url@,
            DownloadRequest::AssetIndex { info, .. } => info.url@,
            DownloadRequest::Asset { url, .. } => url@,
        }
    }

    /// The URL to fetch.
    pub fn get_url(&self) -> (r: &String)
        ensures
            r@ == self.spec_url(),
    {
        match self {
            DownloadRequest::MetaIndex { url } => url,
            DownloadRequest::Index { url, .. } => url,
            DownloadRequest::Manifest { url, .. } => url,
            DownloadRequest::Library { download, .. } => &download.url,
            DownloadRequest::AssetIndex { info, .. } => &info.url,
            DownloadRequest::Asset { url, .. } => url,
        }
    }

    /// Where the fetched file must be stored: set exactly for the two
    /// plain-file kinds, libraries and assets.
    pub fn get_path(&self) -> (r: Option<&String>)
        ensures
            r is Some <==> (self is Library || self is Asset),
            r matches Some(p) ==> match self {
                DownloadRequest::Library { path, .. } => p@ == path@,
                DownloadRequest::Asset { path, .. } => p@ == path@,
                _ => false,
            },
    {
        match self {
            DownloadRequest::Library { path, .. } => Some(path),
            DownloadRequest::Asset { path, .. } => Some(path),
            _ => None,
        }
    }

    /// Where a metadata request is cached under `meta_dir`: the registry
    /// index at `index.json`, a package index at `<uid>/index.json`, a
    /// manifest at `<uid>/<version>.json`, an asset index at its own
    /// destination path.  Plain files are not cached there.
    pub fn cache_filename(&self, meta_dir: &str) -> (r: Option<String>)
        ensures
            r is Some <==> !(self is Library || self is Asset),
            r matches Some(p) ==> match self {
                DownloadRequest::MetaIndex { .. } => p@ == meta_dir@ + index_json_seg(),
                DownloadRequest::Index { uid, .. } => p@ == meta_dir@ + seq!['/'] + uid@
                    + index_json_seg(),
                DownloadRequest::Manifest { uid, version, .. } => p@ == meta_dir@ + seq!['/'] + uid@
                    + seq!['/'] + version@ + json_suffix(),
                DownloadRequest::AssetIndex { path, .. } => p@ == path@,
                _ => false,
            },
    {
        match self {
            DownloadRequest::MetaIndex { .. } => {
                let mut p = meta_dir.to_owned();
                p.append("/index.json");
                proof {
                    reveal_strlit("/index.json");
                    assert("/index.json"@ =~= index_json_seg());
                    assert(p@ =~= meta_dir@ + index_json_seg());
                }
                Some(p)
            },
            DownloadRequest::Index { uid, .. } => {
                let mut p = meta_dir.to_owned();
                p.append("/");
                p.append(uid.as_str());
                p.append("/index.json");
                proof {
                    reveal_strlit("/");
                    reveal_strlit("/index.json");
                    assert("/"@ =~= seq!['/']);
                    assert("/index.json"@ =~= index_json_seg());
                    assert(p@ =~= meta_dir@ + seq!['/'] + uid@ + index_json_seg());
                }
                Some(p)
            },
            DownloadRequest::Manifest { uid, version, .. } => {
                let mut p = meta_dir.to_owned();
                p.append("/");
                p.append(uid.as_str());
                p.append("/");
                p.append(version.as_str());
                p.append(".json");
                proof {
                    reveal_strlit("/");
                    reveal_strlit(".json");
                    assert("/"@ =~= seq!['/']);
                    assert(".json"@ =~= json_suffix());
                    assert(p@ =~= meta_dir@ + seq!['/'] + uid@ + seq!['/'] + version@
                        + json_suffix());
                }
                Some(p)
            },
            DownloadRequest::AssetIndex { path, .. } => Some(path.clone()),
            _ => None,
        }
    }

    /// True exactly when a payload's digest matches the expected one; a
    /// request with no expected digest accepts every payload.  The fetcher
    /// must see this hold before the payload is treated as authoritative.
    pub fn payload_matches(&self, data: &[u8]) -> (r: bool)
        ensures
            r == match self.spec_hash() {
                None => true,
                Some(h) => (if self is Library || self is AssetIndex || self is Asset {
                    h == crate::hash::sha1_of(data@)
                } else {
                    h == crate::hash::sha256_of(data@)
                }),
            },
    {
        match self {
            DownloadRequest::MetaIndex { .. } => true,
            DownloadRequest::Index { hash, .. } => hash.matches_data(data),
            DownloadRequest::Manifest { hash, .. } => hash.matches_data(data),
            DownloadRequest::Library { download, .. } => download.sha1.matches_data(data),
            DownloadRequest::AssetIndex { info, .. } => info.sha1.matches_data(data),
            DownloadRequest::Asset { asset, .. } => asset.hash.matches_data(data),
        }
    }
}

} // verus!
