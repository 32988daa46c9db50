use polymc::auth::Auth;
use polymc::instance::{should_extract, Instance};
use polymc::launch::{build_launch_plan, redacted_argv, Java};
use polymc::manager::SearchResult;
use polymc::manifest::{Manifest, OS};

fn minimal_manifest(uid: &str) -> Manifest {
    Manifest {
        traits: Vec::new(),
        asset_index: Some(polymc::asset::AssetIndexInfo {
            id: "a1".to_string(),
            sha1: polymc::hash::Sha1Sum::of_data(b"index"),
            size: 1,
            total_size: 1,
            url: "http://example/a1.json".to_string(),
            cache: None,
        }),
        libraries: Vec::new(),
        main_class: Some("m.M".to_string()),
        main_jar: None,
        minecraft_arguments: None,
        name: uid.to_string(),
        order: 0,
        release_time: "2022-01-01".to_string(),
        requires: Vec::new(),
        release_type: "release".to_string(),
        uid: uid.to_string(),
        version: "1.18.1".to_string(),
        libs_verified: Vec::new(),
        main_jar_verified: false,
    }
}

fn minimal_instance() -> Instance {
    let result = SearchResult::new(
        Vec::new(),
        vec![minimal_manifest("net.minecraft")],
        "net.minecraft".to_string(),
    );
    Instance::new("test", "1.18.1", "/mc", result)
}

#[test]
fn argv_shape_for_offline_identity() {
    // S6: the argv holds the memory bounds, the properties, the G1 flags,
    // the main class and the game arguments in this exact relative order.
    let instance = minimal_instance();
    let auth = Auth::new_offline("p");
    let plan = build_launch_plan(
        &Java::new("/usr/bin/java"),
        &instance,
        &auth,
        &OS::new("linux"),
        "plmc",
        "0.1.0",
    )
    .unwrap();

    let argv: Vec<&str> = plan.argv.iter().map(|s| s.as_str()).collect();
    let expected = [
        "-Xms512M",
        "-Xmx1024M",
        "-Djava.library.path=/mc/natives",
        "-Dminecraft.launcher.brand=plmc",
        "-Dminecraft.launcher.version=0.1.0",
        "-XX:+UnlockExperimentalVMOptions",
        "-XX:+UseG1GC",
        "-XX:G1NewSizePercent=20",
        "-XX:G1ReservePercent=20",
        "-XX:MaxGCPauseMillis=50",
        "-XX:G1HeapRegionSize=32M",
        "m.M",
        "--gameDir",
        "/mc",
        "--assetsDir",
        "/mc/assets",
        "--accessToken",
        "0",
        "--uuid",
        "0",
        "--assetIndex",
        "a1",
        "--width",
        "854",
        "--height",
        "480",
        "--username",
        "p",
        "--version",
        "plmc",
    ];
    assert_eq!(argv, expected);
    assert_eq!(plan.program.as_str(), "/usr/bin/java");
    assert_eq!(plan.workdir.as_str(), "/mc");
}

#[test]
fn classpath_separator_follows_the_host() {
    // P7: `;` exactly on windows, `:` elsewhere.
    let mut manifest = minimal_manifest("net.minecraft");
    manifest.main_jar = Some(polymc::manifest::Library {
        name: polymc::coord::LibraryName::from_str("com.mojang:minecraft:1.18.1:client").unwrap(),
        downloads: polymc::manifest::LibraryDownloads {
            artifact: polymc::manifest::LibraryDownload {
                sha1: polymc::hash::Sha1Sum::of_data(b"jar"),
                size: 1,
                url: "http://example/client.jar".to_string(),
            },
            classifiers: Vec::new(),
        },
        natives: Vec::new(),
        extract: None,
        rules: Vec::new(),
    });
    let lib = polymc::manifest::Library {
        name: polymc::coord::LibraryName::from_str("ns.x:dep:2").unwrap(),
        downloads: polymc::manifest::LibraryDownloads {
            artifact: polymc::manifest::LibraryDownload {
                sha1: polymc::hash::Sha1Sum::of_data(b"dep"),
                size: 1,
                url: "http://example/dep.jar".to_string(),
            },
            classifiers: Vec::new(),
        },
        natives: Vec::new(),
        extract: None,
        rules: Vec::new(),
    };
    manifest.libraries = vec![lib];
    manifest.libs_verified = vec![false];

    let on_linux = manifest.build_class_path_at("/lib", &OS::new("linux"));
    assert_eq!(
        on_linux.as_str(),
        "/lib/ns/x/dep/2/dep-2.jar:/lib/com/mojang/minecraft/1.18.1/minecraft-1.18.1-client.jar"
    );
    let on_windows = manifest.build_class_path_at("/lib", &OS::new("windows"));
    assert_eq!(
        on_windows.as_str(),
        "/lib/ns/x/dep/2/dep-2.jar;/lib/com/mojang/minecraft/1.18.1/minecraft-1.18.1-client.jar"
    );
}

#[test]
fn token_is_redacted_for_diagnostics() {
    // P9: the position after --accessToken never shows the token.
    let instance = minimal_instance();
    let auth = Auth::Mojang {
        auth_type: "mojang".to_string(),
        username: "p".to_string(),
        token: "SECRET-REDACTED".to_string(),
        uuid: "u-1".to_string(),
    };
    let plan = build_launch_plan(
        &Java::new("/usr/bin/java"),
        &instance,
        &auth,
        &OS::new("linux"),
        "plmc",
        "0.1.0",
    )
    .unwrap();

    let redacted = redacted_argv(&plan.argv);
    assert_eq!(redacted.len(), plan.argv.len());
    assert!(plan.argv.iter().any(|a| a == "SECRET-REDACTED"));
    assert!(redacted.iter().all(|a| a != "SECRET-REDACTED"));
    let pos = redacted.iter().position(|a| a == "--accessToken").unwrap();
    assert_eq!(redacted[pos + 1].as_str(), "<REDACTED>");
}

#[test]
fn trait_flags_depend_on_the_host() {
    let mut instance = minimal_instance();
    instance.manifests[0].traits = vec!["FirstThreadOnMacOS".to_string(), "Unknown".to_string()];
    let on_osx = instance.get_manifest_extra_jvm_args(&OS::new("osx"));
    assert_eq!(on_osx.len(), 1);
    assert_eq!(on_osx[0].as_str(), "-XstartOnFirstThread");
    let on_linux = instance.get_manifest_extra_jvm_args(&OS::new("linux"));
    assert!(on_linux.is_empty());
}

#[test]
fn natives_exclusion_keeps_meta_inf_out() {
    // P8: no entry under an excluded prefix is extracted.
    let exclude = vec!["META-INF/".to_string()];
    assert!(!should_extract("META-INF/MANIFEST.MF", &exclude));
    assert!(!should_extract("META-INF/", &exclude));
    assert!(should_extract("liblwjgl.so", &exclude));
    assert!(should_extract("sub/META-INF/x", &exclude));
    assert!(should_extract("anything", &Vec::new()));
}

#[test]
fn instance_paths_default_under_the_base_directory() {
    let mut instance = minimal_instance();
    assert_eq!(instance.get_assets_path().as_str(), "/mc/assets");
    assert_eq!(instance.get_libraries_path().as_str(), "/mc/libraries");
    assert_eq!(instance.get_natives_path().as_str(), "/mc/natives");
    instance.set_assets_path("/assets/path");
    assert_eq!(instance.get_assets_path().as_str(), "/assets/path");
    assert_eq!(instance.get_libraries_path().as_str(), "/mc/libraries");
    instance.set_libraries_path("/libraries/path");
    assert_eq!(instance.get_libraries_path().as_str(), "/libraries/path");
}

#[test]
fn natives_list_has_no_duplicates() {
    let mut instance = minimal_instance();
    let native_lib = polymc::manifest::Library {
        name: polymc::coord::LibraryName::from_str("ns.x:gl:1").unwrap(),
        downloads: polymc::manifest::LibraryDownloads {
            artifact: polymc::manifest::LibraryDownload {
                sha1: polymc::hash::Sha1Sum::of_data(b"gl"),
                size: 1,
                url: "http://example/gl.jar".to_string(),
            },
            classifiers: Vec::new(),
        },
        natives: vec![polymc::manifest::NativeMapping {
            os_name: "linux".to_string(),
            classifier: "natives-linux".to_string(),
        }],
        extract: None,
        rules: Vec::new(),
    };
    instance.manifests[0].libraries = vec![native_lib.clone(), native_lib];
    instance.manifests[0].libs_verified = vec![false, false];

    let natives = instance.get_natives(&polymc::manifest::OS::new("linux"));
    assert_eq!(natives, vec![(0, 0), (0, 1)]);
    for a in 0..natives.len() {
        for b in (a + 1)..natives.len() {
            assert_ne!(natives[a], natives[b]);
        }
    }
}
