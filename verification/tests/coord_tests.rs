use polymc::coord::{LibraryName, Package};
use polymc::error::Error;

fn parse(s: &str) -> LibraryName {
    LibraryName::from_str(s).unwrap()
}

#[test]
fn mod_libraryname() {
    let name = "ca.weblite:java-objc-bridge:1.0.0";

    let name_parsed = parse(name);
    assert_eq!(name_parsed.namespace.as_str(), "ca.weblite");
    assert_eq!(name_parsed.name.as_str(), "java-objc-bridge");
    assert_eq!(name_parsed.version.as_str(), "1.0.0");

    assert_eq!(name_parsed.to_string().as_str(), name);

    assert_eq!(
        name_parsed.path_at("").as_str(),
        "ca/weblite/java-objc-bridge/1.0.0/java-objc-bridge-1.0.0.jar"
    );

    let name = "com.mojang:minecraft:1.18.1:client";
    let name_parsed = parse(name);
    assert_eq!(name_parsed.namespace.as_str(), "com.mojang");
    assert_eq!(name_parsed.name.as_str(), "minecraft");
    assert_eq!(name_parsed.version.as_str(), "1.18.1");
    assert_eq!(name_parsed.extra_versions, vec!["client".to_string()]);

    assert_eq!(name_parsed.to_string().as_str(), name);

    assert_eq!(
        name_parsed.path_at("").as_str(),
        "com/mojang/minecraft/1.18.1/minecraft-1.18.1-client.jar"
    )
}

#[test]
fn manifest_libraryname() {
    let name = "ca.weblite:java-objc-bridge:1.0.0";

    let name_parsed = parse(name);
    assert_eq!(name_parsed.namespace.as_str(), "ca.weblite");
    assert_eq!(name_parsed.name.as_str(), "java-objc-bridge");
    assert_eq!(name_parsed.version.as_str(), "1.0.0");

    assert_eq!(name_parsed.to_string().as_str(), name);

    assert_eq!(
        name_parsed.path_at("").as_str(),
        "ca/weblite/java-objc-bridge/1.0.0/java-objc-bridge-1.0.0.jar"
    );

    let name = "com.mojang:minecraft:1.18.1:client";
    let name_parsed = parse(name);
    assert_eq!(name_parsed.namespace.as_str(), "com.mojang");
    assert_eq!(name_parsed.name.as_str(), "minecraft");
    assert_eq!(name_parsed.version.as_str(), "1.18.1");
    assert_eq!(name_parsed.extra_versions, vec!["client".to_string()]);

    assert_eq!(name_parsed.to_string().as_str(), name);

    assert_eq!(
        name_parsed.path_at("").as_str(),
        "com/mojang/minecraft/1.18.1/minecraft-1.18.1-client.jar"
    )
}

#[test]
fn coordinate_round_trip_with_many_extras() {
    let name = "org.lwjgl:lwjgl:3.2.2:natives:linux";
    let parsed = parse(name);
    assert_eq!(parsed.extra_versions.len(), 2);
    assert_eq!(parsed.to_string().as_str(), name);
    assert_eq!(
        parsed.path_at("/lib").as_str(),
        "/lib/org/lwjgl/lwjgl/3.2.2/lwjgl-3.2.2-natives-linux.jar"
    );
}

#[test]
fn coordinate_rejects_short_names() {
    assert!(matches!(
        LibraryName::from_str("only:two"),
        Err(Error::LibraryInvalidName)
    ));
    assert!(matches!(
        LibraryName::from_str("one"),
        Err(Error::LibraryInvalidName)
    ));
    assert!(LibraryName::from_str("a:b:c").is_ok());
}

#[test]
fn coordinate_natives_path() {
    let parsed = parse("ca.weblite:java-objc-bridge:1.0.0");
    assert_eq!(
        parsed.path_at_natives("/lib", "natives-osx").as_str(),
        "/lib/ca/weblite/java-objc-bridge/1.0.0/java-objc-bridge-1.0.0-natives-osx.jar"
    );
    assert_eq!(
        parsed.base_path_at("/lib").as_str(),
        "/lib/ca/weblite/java-objc-bridge/1.0.0"
    );
}

#[test]
fn package_carries_name_and_version() {
    let p = Package::new("net.minecraft", "1.18.1");
    assert_eq!(p.name.as_str(), "net.minecraft");
    assert_eq!(p.version.as_str(), "1.18.1");
}
