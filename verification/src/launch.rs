//! The launch-plan assembler: the exact argv, classpath, environment and
//! working directory a launch uses, and the redacted argv diagnostics may
//! print.

use vstd::prelude::*;

use crate::auth::Auth;
use crate::error::Error;
use crate::instance::Instance;
use crate::manifest::OS;
use crate::strutil::{dec_str, str_eq, u32_string};

verus! {

/// A Java runtime, named by the path of its executable.
#[derive(Debug)]
pub struct Java {
    pub java: String,
}

impl Java {
    /// The runtime at the given path.
    pub fn new(java: &str) -> (r: Java)
        ensures
            r.java@ == java@,
    {
        Java { java: java.to_owned() }
    }
}

/// Everything a spawn needs: the program, its argv, the classpath to
/// export in the `CLASSPATH` environment variable, and the working
/// directory.
#[derive(Debug)]
pub struct LaunchPlan {
    pub program: String,
    pub argv: Vec<String>,
    pub classpath: String,
    pub workdir: String,
}

/// The argv of a launch, in order: trait flags, user JVM options, memory
/// bounds, the natives path and launcher properties, the fixed G1 tuning
/// flags, the main class, the game arguments, and the caller's extra
/// arguments as individual elements.
pub open spec fn spec_argv(
    inst: Instance,
    username: Seq<char>,
    token: Option<Seq<char>>,
    uuid: Option<Seq<char>>,
    host: Seq<char>,
    brand: Seq<char>,
    brand_version: Seq<char>,
) -> Seq<Seq<char>>
    recommends
        inst.spec_find_manifest(inst.uid@) is Some,
{
    let m = inst.manifests@[inst.spec_find_manifest(inst.uid@).unwrap()];
    let natives = match inst.natives_path {
        Some(p) => p@,
        None => Instance::spec_sub_dir(inst.minecraft_path@, "natives"@),
    };
    let assets = match inst.assets_path {
        Some(p) => p@,
        None => Instance::spec_sub_dir(inst.minecraft_path@, "assets"@),
    };
    Instance::spec_trait_flags_at(inst.manifests@, host, inst.manifests@.len() as int)
        + inst.java_opts@.map_values(|s: String| s@) + seq![
        "-Xms"@ + inst.config.min@,
        "-Xmx"@ + inst.config.max@,
        "-Djava.library.path="@ + natives,
        "-Dminecraft.launcher.brand="@ + brand,
        "-Dminecraft.launcher.version="@ + brand_version,
        "-XX:+UnlockExperimentalVMOptions"@,
        "-XX:+UseG1GC"@,
        "-XX:G1NewSizePercent=20"@,
        "-XX:G1ReservePercent=20"@,
        "-XX:MaxGCPauseMillis=50"@,
        "-XX:G1HeapRegionSize=32M"@,
        m.main_class.unwrap()@,
        "--gameDir"@,
        inst.minecraft_path@,
        "--assetsDir"@,
        assets,
        "--accessToken"@,
        (match token {
            Some(t) => t,
            None => "0"@,
        }),
        "--uuid"@,
        (match uuid {
            Some(u) => u,
            None => "0"@,
        }),
        "--assetIndex"@,
        m.asset_index.unwrap().id@,
        "--width"@,
        dec_str(inst.config.width as nat),
        "--height"@,
        dec_str(inst.config.height as nat),
        "--username"@,
        username,
        "--version"@,
        brand,
    ] + inst.extra_args@.map_values(|s: String| s@)
}

/// Assemble the launch plan for one instance under one identity.  Fails
/// with `MetaNotFound` exactly when the primary manifest is absent, or
/// names no main class, or names no asset index.
pub fn build_launch_plan(
    java: &Java,
    instance: &Instance,
    auth: &Auth,
    platform: &OS,
    brand: &str,
    brand_version: &str,
) -> (r: Result<LaunchPlan, Error>)
    ensures
        r is Ok <==> (match instance.spec_find_manifest(instance.uid@) {
            Some(j) => instance.manifests@[j].main_class is Some
                && instance.manifests@[j].asset_index is Some,
            None => false,
        }),
        r is Err ==> r == Err::<LaunchPlan, Error>(Error::MetaNotFound),
        r matches Ok(plan) ==> plan.program@ == java.java@ && plan.workdir@
            == instance.minecraft_path@ && plan.classpath@ == instance.spec_class_paths(
            platform.name@,
        ) && plan.argv@.map_values(|s: String| s@) == spec_argv(
            *instance,
            auth.spec_username(),
            auth.spec_token(),
            auth.spec_uuid(),
            platform.name@,
            brand@,
            brand_version@,
        ),
{
    let uid = instance.uid.clone();
    let manifest = match instance.get_manifest(uid.as_str()) {
        Ok(m) => m,
        Err(_) => {
            return Err(Error::MetaNotFound);
        },
    };
    let main_class = match &manifest.main_class {
        Some(c) => c.clone(),
        None => {
            return Err(Error::MetaNotFound);
        },
    };
    let asset_index_id = match &manifest.asset_index {
        Some(info) => info.id.clone(),
        None => {
            return Err(Error::MetaNotFound);
        },
    };
    let ghost m = instance.manifests@[instance.spec_find_manifest(instance.uid@).unwrap()];
    let natives = instance.get_natives_path();
    let assets = instance.get_assets_path();
    let mut args = instance.get_manifest_extra_jvm_args(platform);
    let ghost flags_part = args@.map_values(|s: String| s@);
    let mut i: usize = 0;
    while i < instance.java_opts.len()
        invariant
            i <= instance.java_opts@.len(),
            args@.map_values(|s: String| s@) =~= flags_part + instance.java_opts@.subrange(
                0,
                i as int,
            ).map_values(|s: String| s@),
        decreases instance.java_opts@.len() - i,
    {
        let ghost prev = args@.map_values(|s: String| s@);
        args.push(instance.java_opts[i].clone());
        i += 1;
        proof {
            assert(args@.map_values(|s: String| s@) =~= prev.push(
                instance.java_opts@[i - 1]@,
            ));
            assert(instance.java_opts@.subrange(0, i as int).map_values(|s: String| s@)
                =~= instance.java_opts@.subrange(0, i - 1).map_values(|s: String| s@).push(
                instance.java_opts@[i - 1]@,
            ));
        }
    }
    proof {
        assert(instance.java_opts@.subrange(0, instance.java_opts@.len() as int)
            =~= instance.java_opts@);
    }
    let ghost opts_part = instance.java_opts@.map_values(|s: String| s@);
    let mut xms = String::from_str("-Xms");
    xms.append(instance.config.min.as_str());
    args.push(xms);
    let mut xmx = String::from_str("-Xmx");
    xmx.append(instance.config.max.as_str());
    args.push(xmx);
    let mut libpath = String::from_str("-Djava.library.path=");
    libpath.append(natives.as_str());
    args.push(libpath);
    let mut brandprop = String::from_str("-Dminecraft.launcher.brand=");
    brandprop.append(brand);
    args.push(brandprop);
    let mut verprop = String::from_str("-Dminecraft.launcher.version=");
    verprop.append(brand_version);
    args.push(verprop);
    args.push(String::from_str("-XX:+UnlockExperimentalVMOptions"));
    args.push(String::from_str("-XX:+UseG1GC"));
    args.push(String::from_str("-XX:G1NewSizePercent=20"));
    args.push(String::from_str("-XX:G1ReservePercent=20"));
    args.push(String::from_str("-XX:MaxGCPauseMillis=50"));
    args.push(String::from_str("-XX:G1HeapRegionSize=32M"));
    args.push(main_class);
    args.push(String::from_str("--gameDir"));
    args.push(instance.minecraft_path.clone());
    args.push(String::from_str("--assetsDir"));
    args.push(assets);
    args.push(String::from_str("--accessToken"));
    match auth.get_token() {
        Some(t) => args.push(t.clone()),
        None => args.push(String::from_str("0")),
    }
    args.push(String::from_str("--uuid"));
    match auth.get_uuid() {
        Some(u) => args.push(u.clone()),
        None => args.push(String::from_str("0")),
    }
    args.push(String::from_str("--assetIndex"));
    args.push(asset_index_id);
    args.push(String::from_str("--width"));
    args.push(u32_string(instance.config.width));
    args.push(String::from_str("--height"));
    args.push(u32_string(instance.config.height));
    args.push(String::from_str("--username"));
    args.push(auth.get_username().clone());
    args.push(String::from_str("--version"));
    args.push(brand.to_owned());
    proof {
        assert(args@.map_values(|s: String| s@) =~= flags_part + opts_part + seq![
            "-Xms"@ + instance.config.min@,
            "-Xmx"@ + instance.config.max@,
            "-Djava.library.path="@ + (match instance.natives_path {
                Some(p) => p@,
                None => Instance::spec_sub_dir(instance.minecraft_path@, "natives"@),
            }),
            "-Dminecraft.launcher.brand="@ + brand@,
            "-Dminecraft.launcher.version="@ + brand_version@,
            "-XX:+UnlockExperimentalVMOptions"@,
            "-XX:+UseG1GC"@,
            "-XX:G1NewSizePercent=20"@,
            "-XX:G1ReservePercent=20"@,
            "-XX:MaxGCPauseMillis=50"@,
            "-XX:G1HeapRegionSize=32M"@,
            m.main_class.unwrap()@,
            "--gameDir"@,
            instance.minecraft_path@,
            "--assetsDir"@,
            (match instance.assets_path {
                Some(p) => p@,
                None => Instance::spec_sub_dir(instance.minecraft_path@, "assets"@),
            }),
            "--accessToken"@,
            (match auth.spec_token() {
                Some(t) => t,
                None => "0"@,
            }),
            "--uuid"@,
            (match auth.spec_uuid() {
                Some(u) => u,
                None => "0"@,
            }),
            "--assetIndex"@,
            m.asset_index.unwrap().id@,
            "--width"@,
            dec_str(instance.config.width as nat),
            "--height"@,
            dec_str(instance.config.height as nat),
            "--username"@,
            auth.spec_username(),
            "--version"@,
            brand@,
        ]);
    }
    let mut j: usize = 0;
    let ghost mid_part = args@.map_values(|s: String| s@);
    while j < instance.extra_args.len()
        invariant
            j <= instance.extra_args@.len(),
            args@.map_values(|s: String| s@) =~= mid_part + instance.extra_args@.subrange(
                0,
                j as int,
            ).map_values(|s: String| s@),
        decreases instance.extra_args@.len() - j,
    {
        let ghost prev = args@.map_values(|s: String| s@);
        args.push(instance.extra_args[j].clone());
        j += 1;
        proof {
            assert(args@.map_values(|s: String| s@) =~= prev.push(
                instance.extra_args@[j - 1]@,
            ));
            assert(instance.extra_args@.subrange(0, j as int).map_values(|s: String| s@)
                =~= instance.extra_args@.subrange(0, j - 1).map_values(|s: String| s@).push(
                instance.extra_args@[j - 1]@,
            ));
        }
    }
    proof {
        assert(instance.extra_args@.subrange(0, instance.extra_args@.len() as int)
            =~= instance.extra_args@);
        assert(args@.map_values(|s: String| s@) =~= spec_argv(
            *instance,
            auth.spec_username(),
            auth.spec_token(),
            auth.spec_uuid(),
            platform.name@,
            brand@,
            brand_version@,
        ));
    }
    let classpath = instance.get_class_paths(platform);
    let workdir = instance.minecraft_path.clone();
    Ok(LaunchPlan { program: java.java.clone(), argv: args, classpath, workdir })
}

/// The position of the first element equal to `word`, if any.
pub open spec fn spec_first_at(argv: Seq<Seq<char>>, word: Seq<char>) -> Option<int>
    decreases argv.len(),
{
    if argv.len() == 0 {
        None
    } else if argv.first() == word {
        Some(0)
    } else {
        match spec_first_at(argv.drop_first(), word) {
            Some(j) => Some(j + 1),
            None => None,
        }
    }
}

/// The argv with the value after the first `--accessToken` replaced by
/// the redaction placeholder; everything else is kept as it is.
pub fn redacted_argv(argv: &Vec<String>) -> (r: Vec<String>)
    ensures
        r@.len() == argv@.len(),
        match spec_first_at(argv@.map_values(|s: String| s@), "--accessToken"@) {
            Some(p) => (forall|q: int|
                0 <= q < argv@.len() && q != p + 1 ==> (#[trigger] r@[q])@ == argv@[q]@) && (p + 1
                < argv@.len() ==> r@[p + 1]@ == "<REDACTED>"@),
            None => forall|q: int| 0 <= q < argv@.len() ==> (#[trigger] r@[q])@ == argv@[q]@,
        },
{
    proof {
        assert(argv@.map_values(|s: String| s@).subrange(
            0,
            argv@.map_values(|s: String| s@).len() as int,
        ) =~= argv@.map_values(|s: String| s@));
    }
    let ghost views = argv@.map_values(|s: String| s@);
    let mut r: Vec<String> = Vec::new();
    let mut i: usize = 0;
    while i < argv.len()
        invariant
            i <= argv@.len(),
            r@.len() == i,
            forall|q: int| 0 <= q < i ==> (#[trigger] r@[q])@ == argv@[q]@,
        decreases argv@.len() - i,
    {
        r.push(argv[i].clone());
        i += 1;
    }
    let mut pos: usize = 0;
    let mut found = false;
    let mut i2: usize = 0;
    while i2 < argv.len()
        invariant
            i2 <= argv@.len(),
            views == argv@.map_values(|s: String| s@),
            !found ==> (spec_first_at(views, "--accessToken"@) == match spec_first_at(
                views.subrange(i2 as int, views.len() as int),
                "--accessToken"@,
            ) {
                Some(j) => Some(j + i2),
                None => None::<int>,
            }),
            found ==> spec_first_at(views, "--accessToken"@) == Some(pos as int),
            found ==> pos < argv@.len(),
        decreases argv@.len() - i2,
    {
        let ghost rest = views.subrange(i2 as int, views.len() as int);
        if !found {
            if str_eq(argv[i2].as_str(), "--accessToken") {
                found = true;
                pos = i2;
                proof {
                    assert(rest.first() == views[i2 as int]);
                }
            } else {
                proof {
                    assert(rest.first() == views[i2 as int]);
                    assert(rest.drop_first() =~= views.subrange(i2 + 1, views.len() as int));
                }
            }
        }
        i2 += 1;
    }
    proof {
        if !found {
            assert(views.subrange(argv@.len() as int, views.len() as int) =~= Seq::<
                Seq<char>,
            >::empty());
        }
    }
    if found && pos + 1 < r.len() {
        r[pos + 1] = String::from_str("<REDACTED>");
    }
    r
}

/// Token redaction: when the access token appears in the argv only in the
/// value position after the first `--accessToken`, the redacted argv does
/// not contain it anywhere.
pub proof fn lemma_token_redacted(a: Seq<Seq<char>>, b: Seq<Seq<char>>, token: Seq<char>)
    requires
        a.len() == b.len(),
        token != "<REDACTED>"@,
        match spec_first_at(a, "--accessToken"@) {
            Some(p) => (forall|q: int| 0 <= q < a.len() && q != p + 1 ==> #[trigger] b[q] == a[q])
                && (p + 1 < a.len() ==> b[p + 1] == "<REDACTED>"@),
            None => forall|q: int| 0 <= q < a.len() ==> #[trigger] b[q] == a[q],
        },
        forall|q: int|
            0 <= q < a.len() && #[trigger] a[q] == token ==> (spec_first_at(a, "--accessToken"@)
                matches Some(p) && q == p + 1),
    ensures
        forall|q: int| 0 <= q < b.len() ==> #[trigger] b[q] != token,
{
    assert forall|q: int| 0 <= q < b.len() implies #[trigger] b[q] != token by {
        match spec_first_at(a, "--accessToken"@) {
            Some(p) => {
                if q == p + 1 {
                    if p + 1 < a.len() {
                        assert(b[q] == "<REDACTED>"@);
                    }
                } else {
                    assert(b[q] == a[q]);
                    if a[q] == token {
                        assert(q == p + 1);
                    }
                }
            },
            None => {
                assert(b[q] == a[q]);
                if a[q] == token {
                    assert(false);
                }
            },
        }
    }
}

} // verus!
