use polymc::asset::{Asset, AssetEntry, AssetIndex};
use polymc::coord::LibraryName;
use polymc::disk::DiskState;
use polymc::error::Error;
use polymc::hash::Sha1Sum;
use polymc::manifest::{Library, LibraryDownload, LibraryDownloads, Manifest, Rule, RuleAction, OS};

const SHA1_ABC: &str = "a9993e364706816aba3e25717850c26c9cd0d89d";

fn library(name: &str, sha1_hex: &str, url: &str) -> Library {
    Library {
        name: LibraryName::from_str(name).unwrap(),
        downloads: LibraryDownloads {
            artifact: LibraryDownload {
                sha1: Sha1Sum::from_str(sha1_hex).unwrap(),
                size: 3,
                url: url.to_string(),
            },
            classifiers: Vec::new(),
        },
        natives: Vec::new(),
        extract: None,
        rules: Vec::new(),
    }
}

fn manifest_with(libraries: Vec<Library>) -> Manifest {
    let n = libraries.len();
    Manifest {
        traits: Vec::new(),
        asset_index: None,
        libraries,
        main_class: Some("m.M".to_string()),
        main_jar: None,
        minecraft_arguments: None,
        name: "pkg".to_string(),
        order: 0,
        release_time: "2022-01-01".to_string(),
        requires: Vec::new(),
        release_type: "release".to_string(),
        uid: "net.minecraft".to_string(),
        version: "1.18.1".to_string(),
        libs_verified: vec![false; n],
        main_jar_verified: false,
    }
}

#[test]
fn missing_file_is_reported() {
    let m = manifest_with(vec![library("ns.a:lib:1.0", SHA1_ABC, "http://example/l.jar")]);
    let disk = DiskState::new();
    let failures = m.verify_at("/lib", &OS::new("linux"), &disk).unwrap();
    assert_eq!(failures.len(), 1);
    assert_eq!(failures[0].0, 0);
    assert!(matches!(failures[0].1, Error::LibraryMissing));
}

#[test]
fn wrong_digest_is_reported_and_matching_digest_is_not() {
    let m = manifest_with(vec![library("ns.a:lib:1.0", SHA1_ABC, "http://example/l.jar")]);

    // The file exists but its bytes hash to something else.
    let mut disk = DiskState::new();
    disk.record(
        "/lib/ns/a/lib/1.0/lib-1.0.jar".to_string(),
        Sha1Sum::of_data(b"wrong bytes"),
    );
    let failures = m.verify_at("/lib", &OS::new("linux"), &disk).unwrap();
    assert_eq!(failures.len(), 1);
    assert!(matches!(failures[0].1, Error::LibraryInvalidHash));

    // After the fetcher replaces the file with matching bytes, the sweep
    // is clean: the planner/verifier round trip.
    let mut fixed = DiskState::new();
    fixed.record("/lib/ns/a/lib/1.0/lib-1.0.jar".to_string(), Sha1Sum::of_data(b"abc"));
    let failures = m.verify_at("/lib", &OS::new("linux"), &fixed).unwrap();
    assert_eq!(failures.len(), 0);
}

#[test]
fn caching_sweep_skips_verified_artifacts() {
    let mut m = manifest_with(vec![library("ns.a:lib:1.0", SHA1_ABC, "http://example/l.jar")]);

    let mut good = DiskState::new();
    good.record("/lib/ns/a/lib/1.0/lib-1.0.jar".to_string(), Sha1Sum::of_data(b"abc"));
    let failures = m.verify_caching_at("/lib", &OS::new("linux"), &good).unwrap();
    assert_eq!(failures.len(), 0);
    assert!(m.libs_verified[0]);

    // The file regresses on disk, but the session flag short-circuits the
    // check: the flag is never cleared within one session.
    let bad = DiskState::new();
    let failures = m.verify_caching_at("/lib", &OS::new("linux"), &bad).unwrap();
    assert_eq!(failures.len(), 0);
}

#[test]
fn rules_exclude_libraries_from_the_sweep() {
    let mut lib = library("ns.a:lib:1.0", SHA1_ABC, "http://example/l.jar");
    lib.rules = vec![Rule { action: RuleAction::Allow, os: OS::new("osx") }];
    let m = manifest_with(vec![lib]);
    // Not required on linux, so its absence on disk is no failure.
    let failures = m.verify_at("/lib", &OS::new("linux"), &DiskState::new()).unwrap();
    assert_eq!(failures.len(), 0);
}

#[test]
fn asset_paths_are_content_addressed() {
    let asset = Asset { hash: Sha1Sum::from_str(SHA1_ABC).unwrap(), size: 3 };
    assert_eq!(
        asset.path_at("/assets").as_str(),
        "/assets/objects/a9/a9993e364706816aba3e25717850c26c9cd0d89d"
    );
    assert_eq!(
        asset.download_url().as_str(),
        "https://resources.download.minecraft.net/a9/a9993e364706816aba3e25717850c26c9cd0d89d"
    );
}

#[test]
fn asset_index_sweep_reports_missing_and_corrupt_assets() {
    let good = Asset { hash: Sha1Sum::of_data(b"abc"), size: 3 };
    let bad = Asset { hash: Sha1Sum::of_data(b"xyz"), size: 3 };
    let mut index = AssetIndex::new(vec![
        AssetEntry { name: "sound/a.ogg".to_string(), asset: good.clone() },
        AssetEntry { name: "sound/b.ogg".to_string(), asset: bad.clone() },
    ]);

    let mut disk = DiskState::new();
    disk.record(good.path_at("/assets"), Sha1Sum::of_data(b"abc"));
    disk.record(bad.path_at("/assets"), Sha1Sum::of_data(b"corrupt"));

    let failures = index.verify_caching_at("/assets", &disk);
    assert_eq!(failures.len(), 1);
    assert_eq!(failures[0].0, 1);
    assert!(matches!(failures[0].1, Error::LibraryInvalidHash));
    assert!(index.verified[0]);
    assert!(!index.verified[1]);
}
