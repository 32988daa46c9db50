use polymc::hash::{Sha1Sum, Sha256Sum};
use polymc::manifest::LibraryDownload;
use polymc::request::{DownloadRequest, FileType, HashAlgo};

#[test]
fn file_type_classification() {
    assert_eq!(FileType::MetaIndex.hash_size(), 0);
    assert_eq!(FileType::Index.hash_size(), 32);
    assert_eq!(FileType::Manifest.hash_size(), 32);
    assert_eq!(FileType::Library.hash_size(), 20);
    assert_eq!(FileType::AssetIndex.hash_size(), 20);
    assert_eq!(FileType::Asset.hash_size(), 20);

    assert!(FileType::Library.is_file());
    assert!(FileType::Asset.is_file());
    assert!(!FileType::Manifest.is_file());
    assert!(FileType::Library.is_library());
    assert!(FileType::Asset.is_asset());

    assert_eq!(FileType::MetaIndex.get_hash_algo(), None);
    assert_eq!(FileType::Index.get_hash_algo(), Some(HashAlgo::Sha256));
    assert_eq!(FileType::Asset.get_hash_algo(), Some(HashAlgo::Sha1));
    assert_eq!(FileType::Manifest.as_str(), "manifest");
}

#[test]
fn requests_carry_urls_hashes_and_paths() {
    let meta = DownloadRequest::new_meta_index("https://meta.example/v1/index.json".to_string());
    assert!(meta.get_hash().is_none());
    assert!(!meta.has_hash());
    assert_eq!(meta.get_url().as_str(), "https://meta.example/v1/index.json");
    assert!(meta.get_path().is_none());

    let sha1_hex = "a9993e364706816aba3e25717850c26c9cd0d89d";
    let lib = DownloadRequest::new_library(
        LibraryDownload {
            sha1: Sha1Sum::from_str(sha1_hex).unwrap(),
            size: 3,
            url: "http://example/l.jar".to_string(),
        },
        "/lib/ns/l.jar".to_string(),
    );
    assert!(lib.is_library());
    assert!(lib.is_file());
    assert_eq!(lib.hash_size(), 20);
    assert_eq!(lib.get_path().unwrap().as_str(), "/lib/ns/l.jar");
    assert_eq!(lib.get_url().as_str(), "http://example/l.jar");
    assert_eq!(lib.get_hash().unwrap(), Sha1Sum::from_str(sha1_hex).unwrap().as_bytes());

    // The payload check accepts exactly the bytes the digest names.
    assert!(lib.payload_matches(b"abc"));
    assert!(!lib.payload_matches(b"abd"));
}

#[test]
fn metadata_requests_are_cached_under_the_meta_directory() {
    let hex64: String = std::iter::repeat('c').take(64).collect();
    let index = DownloadRequest::Index {
        url: "https://meta.example/v1/a/index.json".to_string(),
        uid: "a".to_string(),
        hash: Sha256Sum::from_str(&hex64).unwrap(),
    };
    assert_eq!(
        index.cache_filename("/meta").unwrap().as_str(),
        "/meta/a/index.json"
    );
    let manifest = DownloadRequest::Manifest {
        url: "https://meta.example/v1/a/1.json".to_string(),
        version: "1".to_string(),
        uid: "a".to_string(),
        hash: Sha256Sum::from_str(&hex64).unwrap(),
    };
    assert_eq!(
        manifest.cache_filename("/meta").unwrap().as_str(),
        "/meta/a/1.json"
    );
    let meta = DownloadRequest::new_meta_index("u".to_string());
    assert_eq!(meta.cache_filename("/meta").unwrap().as_str(), "/meta/index.json");
    assert_eq!(meta.request_type(), FileType::MetaIndex);
}
