use polymc::coord::LibraryName;
use polymc::hash::Sha1Sum;
use polymc::manifest::{
    ClassifierDownload, Library, LibraryDownload, LibraryDownloads, NativeMapping, Rule,
    RuleAction, OS,
};

fn coord(s: &str) -> LibraryName {
    LibraryName::from_str(s).unwrap()
}

fn sha(c: char) -> Sha1Sum {
    let hex: String = std::iter::repeat(c).take(40).collect();
    Sha1Sum::from_str(&hex).unwrap()
}

fn download(url: &str, digit: char) -> LibraryDownload {
    LibraryDownload { sha1: sha(digit), size: 1, url: url.to_string() }
}

fn plain_library(rules: Vec<Rule>) -> Library {
    Library {
        name: coord("ns.a:lib:1.0"),
        downloads: LibraryDownloads {
            artifact: download("http://example/lib-1.0.jar", 'a'),
            classifiers: Vec::new(),
        },
        natives: Vec::new(),
        extract: None,
        rules,
    }
}

#[test]
fn empty_rules_mean_required_everywhere() {
    let lib = plain_library(Vec::new());
    assert!(lib.required_for(&OS::new("linux")));
    assert!(lib.required_for(&OS::new("osx")));
    assert!(lib.required_for(&OS::new("windows")));
}

#[test]
fn platform_rule_scenario() {
    // rules = [{allow, {name: "osx"}}]
    let lib = plain_library(vec![Rule { action: RuleAction::Allow, os: OS::new("osx") }]);
    assert!(!lib.required_for(&OS::new("linux")));
    assert!(lib.required_for(&OS::new("osx")));
}

#[test]
fn disallow_rules_change_nothing_once_present() {
    let allow_osx = Rule { action: RuleAction::Allow, os: OS::new("osx") };
    let disallow_linux = Rule { action: RuleAction::Disallow, os: OS::new("linux") };

    let without = plain_library(vec![allow_osx.clone()]);
    let with = plain_library(vec![allow_osx, disallow_linux]);

    for host in ["linux", "osx", "windows"] {
        assert_eq!(
            without.required_for(&OS::new(host)),
            with.required_for(&OS::new(host))
        );
    }
}

#[test]
fn selection_follows_the_natives_mapping() {
    let lib = Library {
        name: coord("ns.a:lib:1.0"),
        downloads: LibraryDownloads {
            artifact: download("http://example/lib-1.0.jar", 'a'),
            classifiers: vec![ClassifierDownload {
                classifier: "natives-linux".to_string(),
                download: download("http://example/lib-1.0-natives-linux.jar", 'b'),
            }],
        },
        natives: vec![NativeMapping {
            os_name: "linux".to_string(),
            classifier: "natives-linux".to_string(),
        }],
        extract: None,
        rules: Vec::new(),
    };

    let on_linux = lib.select_for(&OS::new("linux")).unwrap();
    assert_eq!(on_linux.url.as_str(), "http://example/lib-1.0-natives-linux.jar");
    let on_osx = lib.select_for(&OS::new("osx")).unwrap();
    assert_eq!(on_osx.url.as_str(), "http://example/lib-1.0.jar");

    assert_eq!(
        lib.path_at_for("/lib", &OS::new("linux")).as_str(),
        "/lib/ns/a/lib/1.0/lib-1.0-natives-linux.jar"
    );
    assert_eq!(
        lib.path_at_for("/lib", &OS::new("osx")).as_str(),
        "/lib/ns/a/lib/1.0/lib-1.0.jar"
    );
}

#[test]
fn missing_classifier_means_unsupported() {
    let lib = Library {
        name: coord("ns.a:lib:1.0"),
        downloads: LibraryDownloads {
            artifact: download("http://example/lib-1.0.jar", 'a'),
            classifiers: Vec::new(),
        },
        natives: vec![NativeMapping {
            os_name: "windows".to_string(),
            classifier: "natives-windows".to_string(),
        }],
        extract: None,
        rules: Vec::new(),
    };
    assert!(lib.select_for(&OS::new("windows")).is_none());
    assert!(lib.select_for(&OS::new("linux")).is_some());

    // A required library with no selectable artifact is a fatal
    // verification error, not a recoverable one.
    let verdict = lib.verify_at("/lib", &OS::new("windows"), &polymc::disk::DiskState::new());
    assert!(matches!(verdict, Err(polymc::error::Error::LibraryNotSupported)));
}
