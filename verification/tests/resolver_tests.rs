use polymc::coord::LibraryName;
use polymc::disk::DiskState;
use polymc::hash::{Sha1Sum, Sha256Sum};
use polymc::index::{MetaIndex, MetaIndexPackage, PackageIndex, PackageVersion};
use polymc::manager::{MetaManager, Wants};
use polymc::manifest::{
    Library, LibraryDownload, LibraryDownloads, Manifest, Requirement, OS,
};
use polymc::request::DownloadRequest;

const SHA1_ABC: &str = "a9993e364706816aba3e25717850c26c9cd0d89d";

fn sha256(c: char) -> Sha256Sum {
    let hex: String = std::iter::repeat(c).take(64).collect();
    Sha256Sum::from_str(&hex).unwrap()
}

fn registry(uids: &[&str]) -> MetaIndex {
    MetaIndex {
        format_version: 1,
        packages: uids
            .iter()
            .map(|uid| MetaIndexPackage {
                name: uid.to_string(),
                sha256: sha256('a'),
                uid: uid.to_string(),
                index: None,
            })
            .collect(),
    }
}

fn version_entry(version: &str, requires: Vec<Requirement>) -> PackageVersion {
    PackageVersion {
        release_time: "2022-01-01".to_string(),
        requires,
        sha256: sha256('b'),
        release_type: None,
        version: version.to_string(),
        manifest: None,
    }
}

fn package_index(uid: &str, versions: Vec<PackageVersion>) -> PackageIndex {
    PackageIndex { format_version: 1, name: uid.to_string(), uid: uid.to_string(), versions }
}

fn bare_manifest(uid: &str, version: &str, libraries: Vec<Library>) -> Manifest {
    let n = libraries.len();
    Manifest {
        traits: Vec::new(),
        asset_index: None,
        libraries,
        main_class: Some("m.M".to_string()),
        main_jar: None,
        minecraft_arguments: None,
        name: uid.to_string(),
        order: 0,
        release_time: "2022-01-01".to_string(),
        requires: Vec::new(),
        release_type: "release".to_string(),
        uid: uid.to_string(),
        version: version.to_string(),
        libs_verified: vec![false; n],
        main_jar_verified: false,
    }
}

#[test]
fn empty_resolution_asks_for_the_meta_index() {
    // S1: with one want and an empty cache, the first call returns
    // exactly one MetaIndex request for <base>/index.json.
    let mut manager = MetaManager::new("/lib", "/assets", "https://meta.example/v1");
    manager.search(Wants::new("net.minecraft", "1.18.1")).unwrap();

    let search = manager
        .continue_search(&OS::new("linux"), &DiskState::new())
        .unwrap();
    assert_eq!(search.requests.len(), 1);
    match &search.requests[0] {
        DownloadRequest::MetaIndex { url } => {
            assert_eq!(url.as_str(), "https://meta.example/v1/index.json")
        }
        other => panic!("expected a MetaIndex request, got {:?}", other),
    }
    assert_eq!(search.uid.as_str(), "net.minecraft");
    assert!(search.manifests.is_empty());
}

#[test]
fn one_hop_requires_reaches_a_fixed_point() {
    // S2: a@1 requires b with suggests=2; after all metadata is loaded the
    // next call yields no requests and both manifests.
    let os = OS::new("linux");
    let disk = DiskState::new();
    let mut manager = MetaManager::new("/lib", "/assets", "https://meta.example/v1");
    manager.search(Wants::new("a", "1")).unwrap();

    // MetaIndex.
    let search = manager.continue_search(&os, &disk).unwrap();
    assert_eq!(search.requests.len(), 1);
    manager.load_meta_index(registry(&["a", "b"])).unwrap();

    // Index(a).
    let search = manager.continue_search(&os, &disk).unwrap();
    assert!(search.requests.iter().any(|r| matches!(r, DownloadRequest::Index { uid, .. } if uid == "a")));
    let requires_b = Requirement {
        equals: None,
        suggests: Some("2".to_string()),
        uid: "b".to_string(),
    };
    manager
        .load_index(package_index("a", vec![version_entry("1", vec![requires_b])]))
        .unwrap();

    // Manifest(a@1); the derived want for b appears in the same pass.
    let search = manager.continue_search(&os, &disk).unwrap();
    assert!(!search.is_ready());
    manager.load_manifest(bare_manifest("a", "1", Vec::new())).unwrap();
    manager
        .load_index(package_index("b", vec![version_entry("2", Vec::new())]))
        .unwrap();

    let search = manager.continue_search(&os, &disk).unwrap();
    assert!(search
        .requests
        .iter()
        .any(|r| matches!(r, DownloadRequest::Manifest { uid, version, .. } if uid == "b" && version == "2")));
    manager.load_manifest(bare_manifest("b", "2", Vec::new())).unwrap();

    // The fixed point: no requests, both manifests in the snapshot.
    let search = manager.continue_search(&os, &disk).unwrap();
    assert!(search.is_ready());
    assert!(search
        .manifests
        .iter()
        .any(|m| m.uid == "a" && m.version == "1"));
    assert!(search
        .manifests
        .iter()
        .any(|m| m.uid == "b" && m.version == "2"));

    // Idempotence: a settled resolution stays settled.
    let again = manager.continue_search(&os, &disk).unwrap();
    assert!(again.is_ready());
    let once_more = manager.continue_search(&os, &disk).unwrap();
    assert!(once_more.is_ready());
}

#[test]
fn mismatched_hash_triggers_re_download() {
    // S4: a library file with wrong bytes produces exactly one Library
    // download; once replaced with matching bytes, none.
    let os = OS::new("linux");
    let lib = Library {
        name: LibraryName::from_str("ns.a:lib:1.0").unwrap(),
        downloads: LibraryDownloads {
            artifact: LibraryDownload {
                sha1: Sha1Sum::from_str(SHA1_ABC).unwrap(),
                size: 3,
                url: "http://example/lib-1.0.jar".to_string(),
            },
            classifiers: Vec::new(),
        },
        natives: Vec::new(),
        extract: None,
        rules: Vec::new(),
    };

    let mut manager = MetaManager::new("/lib", "/assets", "https://meta.example/v1");
    manager.search(Wants::new("a", "1")).unwrap();
    manager.load_meta_index(registry(&["a"])).unwrap();
    manager
        .load_index(package_index("a", vec![version_entry("1", Vec::new())]))
        .unwrap();
    manager.load_manifest(bare_manifest("a", "1", vec![lib])).unwrap();

    let mut corrupt = DiskState::new();
    corrupt.record(
        "/lib/ns/a/lib/1.0/lib-1.0.jar".to_string(),
        Sha1Sum::of_data(b"wrong bytes"),
    );
    let search = manager.continue_search(&os, &corrupt).unwrap();
    assert_eq!(search.requests.len(), 1);
    match &search.requests[0] {
        DownloadRequest::Library { path, download } => {
            assert_eq!(path.as_str(), "/lib/ns/a/lib/1.0/lib-1.0.jar");
            assert_eq!(download.url.as_str(), "http://example/lib-1.0.jar");
        }
        other => panic!("expected a Library request, got {:?}", other),
    }

    let mut fixed = DiskState::new();
    fixed.record("/lib/ns/a/lib/1.0/lib-1.0.jar".to_string(), Sha1Sum::of_data(b"abc"));
    let search = manager.continue_search(&os, &fixed).unwrap();
    assert!(search.is_ready());
}

#[test]
fn searching_nothing_is_an_error() {
    let mut manager = MetaManager::new("/lib", "/assets", "https://meta.example/v1");
    assert!(manager
        .continue_search(&OS::new("linux"), &DiskState::new())
        .is_err());
}

#[test]
fn check_requirements_skips_known_uids() {
    let mut manager = MetaManager::new("/lib", "/assets", "https://meta.example/v1");
    manager.search(Wants::new("a", "1")).unwrap();
    let reqs = vec![
        Requirement { equals: None, suggests: Some("2".to_string()), uid: "a".to_string() },
        Requirement { equals: None, suggests: Some("3".to_string()), uid: "c".to_string() },
        Requirement { equals: Some("4".to_string()), suggests: None, uid: "d".to_string() },
    ];
    let missing = manager.check_requirements(&reqs);
    assert_eq!(missing.len(), 2);
    assert_eq!(missing[0].uid.as_str(), "c");
    // The derived want carries the requirement's suggested version.
    assert_eq!(missing[0].version.as_str(), "3");
    assert_eq!(missing[1].uid.as_str(), "d");
    // A requirement with no suggestion derives an empty version; the hard
    // `equals` bound is carried as data only.
    assert_eq!(missing[1].version.as_str(), "");
}

#[test]
fn loaders_reject_unknown_slots() {
    let mut manager = MetaManager::new("/lib", "/assets", "https://meta.example/v1");
    manager.search(Wants::new("a", "1")).unwrap();
    // No registry yet.
    assert!(manager.load_index(package_index("a", Vec::new())).is_err());
    manager.load_meta_index(registry(&["a"])).unwrap();
    // Unknown UID.
    assert!(manager.load_index(package_index("zz", Vec::new())).is_err());
    // Manifest for a version the index does not list.
    manager
        .load_index(package_index("a", vec![version_entry("1", Vec::new())]))
        .unwrap();
    assert!(manager.load_manifest(bare_manifest("a", "9", Vec::new())).is_err());
    assert!(manager.load_manifest(bare_manifest("a", "1", Vec::new())).is_ok());
}

#[test]
fn asset_index_and_assets_are_planned() {
    let os = OS::new("linux");
    let mut manager = MetaManager::new("/lib", "/assets", "https://meta.example/v1");
    manager.search(Wants::new("a", "1")).unwrap();
    manager.load_meta_index(registry(&["a"])).unwrap();
    manager
        .load_index(package_index("a", vec![version_entry("1", Vec::new())]))
        .unwrap();

    let mut manifest = bare_manifest("a", "1", Vec::new());
    manifest.asset_index = Some(polymc::asset::AssetIndexInfo {
        id: "a1".to_string(),
        sha1: Sha1Sum::of_data(b"index"),
        size: 1,
        total_size: 1,
        url: "http://example/a1.json".to_string(),
        cache: None,
    });
    manager.load_manifest(manifest).unwrap();

    // The asset index itself is not yet cached: one AssetIndex request,
    // destined for <assets>/indexes/<id>.json.
    let search = manager.continue_search(&os, &DiskState::new()).unwrap();
    assert_eq!(search.requests.len(), 1);
    match &search.requests[0] {
        DownloadRequest::AssetIndex { uid, version, info, path } => {
            assert_eq!(uid.as_str(), "a");
            assert_eq!(version.as_str(), "1");
            assert_eq!(info.id.as_str(), "a1");
            assert_eq!(path.as_str(), "/assets/indexes/a1.json");
        }
        other => panic!("expected an AssetIndex request, got {:?}", other),
    }

    // With the index cached, each missing asset becomes an Asset request
    // under the content-addressed layout.
    let sound = polymc::asset::Asset { hash: Sha1Sum::of_data(b"sound"), size: 5 };
    let cache = polymc::asset::AssetIndex::new(vec![polymc::asset::AssetEntry {
        name: "sound/a.ogg".to_string(),
        asset: sound.clone(),
    }]);
    manager.load_asset_index("a", "1", cache).unwrap();

    let search = manager.continue_search(&os, &DiskState::new()).unwrap();
    assert_eq!(search.requests.len(), 1);
    match &search.requests[0] {
        DownloadRequest::Asset { asset, uid, url, path } => {
            let hex = asset.hash.to_hex();
            assert_eq!(uid.as_str(), "a");
            assert_eq!(url.as_str(), &format!(
                "https://resources.download.minecraft.net/{}/{}",
                &hex[0..2], hex
            ));
            assert_eq!(path.as_str(), &format!("/assets/objects/{}/{}", &hex[0..2], hex));
        }
        other => panic!("expected an Asset request, got {:?}", other),
    }

    // Once the asset lies on disk with its expected digest, the
    // resolution is at its fixed point.
    let mut disk = DiskState::new();
    disk.record(sound.path_at("/assets"), Sha1Sum::of_data(b"sound"));
    let search = manager.continue_search(&os, &disk).unwrap();
    assert!(search.is_ready());
}

#[test]
fn unsupported_library_is_fatal_for_the_search() {
    // A required library with a natives mapping but no matching
    // classifier cannot be planned: the search reports the failure
    // instead of emitting requests.
    let os = OS::new("linux");
    let lib = Library {
        name: LibraryName::from_str("ns.a:lib:1.0").unwrap(),
        downloads: LibraryDownloads {
            artifact: LibraryDownload {
                sha1: Sha1Sum::from_str(SHA1_ABC).unwrap(),
                size: 3,
                url: "http://example/lib-1.0.jar".to_string(),
            },
            classifiers: Vec::new(),
        },
        natives: vec![polymc::manifest::NativeMapping {
            os_name: "linux".to_string(),
            classifier: "natives-linux".to_string(),
        }],
        extract: None,
        rules: Vec::new(),
    };

    let mut manager = MetaManager::new("/lib", "/assets", "https://meta.example/v1");
    manager.search(Wants::new("a", "1")).unwrap();
    manager.load_meta_index(registry(&["a"])).unwrap();
    manager
        .load_index(package_index("a", vec![version_entry("1", Vec::new())]))
        .unwrap();
    manager.load_manifest(bare_manifest("a", "1", vec![lib])).unwrap();

    assert!(manager.continue_search(&os, &DiskState::new()).is_err());
}
