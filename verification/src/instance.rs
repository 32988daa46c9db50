//! A configured game instance: the resolved manifests, the directory
//! layout, and the per-launch choices that feed the launch-plan assembler.

use vstd::prelude::*;

use crate::error::Error;
use crate::manager::SearchResult;
use crate::manifest::{Manifest, OS};
use crate::strutil::{concat_with, join, starts_with, str_eq};

verus! {

/// The JVM memory bounds and window size of one launch.
#[derive(Debug)]
pub struct InstanceGameConfig {
    pub min: String,
    pub max: String,
    pub width: u32,
    pub height: u32,
}

impl Clone for InstanceGameConfig {
    fn clone(&self) -> (r: InstanceGameConfig)
        ensures
            r.min@ == self.min@,
            r.max@ == self.max@,
            r.width == self.width,
            r.height == self.height,
    {
        InstanceGameConfig {
            min: self.min.clone(),
            max: self.max.clone(),
            width: self.width,
            height: self.height,
        }
    }
}

impl Default for InstanceGameConfig {
    /// Half a gigabyte to a gigabyte of heap, and a 854 by 480 window.
    fn default() -> (r: InstanceGameConfig)
        ensures
            r.min@ == "512M"@,
            r.max@ == "1024M"@,
            r.width == 854,
            r.height == 480,
    {
        InstanceGameConfig {
            min: String::from_str("512M"),
            max: String::from_str("1024M"),
            width: 854,
            height: 480,
        }
    }
}

/// A game instance: resolved manifests, the primary UID, the directory
/// roots and the launch configuration.
#[derive(Debug)]
pub struct Instance {
    /// Name of the instance given by the user.
    pub name: String,
    /// The version string of the instance.
    pub version: String,
    /// Path to the base directory.
    pub minecraft_path: String,
    /// Path to the assets, when overridden.
    pub assets_path: Option<String>,
    /// Path to the Java libraries, when overridden.
    pub libraries_path: Option<String>,
    /// Path to the native libraries, when overridden.
    pub natives_path: Option<String>,
    /// Java options to pass to the JVM.
    pub java_opts: Vec<String>,
    /// Extra arguments to pass to the game.
    pub extra_args: Vec<String>,
    pub config: InstanceGameConfig,
    pub uid: String,
    pub manifests: Vec<Manifest>,
}

impl Instance {
    /// An instance over the manifests a finished search returned, rooted
    /// at `minecraft_path`, with default configuration.
    pub fn new(name: &str, version: &str, minecraft_path: &str, search_result: SearchResult) -> (
    r: Instance)
        ensures
            r.name@ == name@,
            r.version@ == version@,
            r.minecraft_path@ == minecraft_path@,
            r.assets_path is None,
            r.libraries_path is None,
            r.natives_path is None,
            r.java_opts@.len() == 0,
            r.extra_args@.len() == 0,
            r.uid == search_result.uid,
            r.manifests == search_result.manifests,
            r.config.min@ == "512M"@,
            r.config.max@ == "1024M"@,
            r.config.width == 854,
            r.config.height == 480,
    {
        Instance {
            name: name.to_owned(),
            version: version.to_owned(),
            minecraft_path: minecraft_path.to_owned(),
            assets_path: None,
            libraries_path: None,
            natives_path: None,
            java_opts: Vec::new(),
            extra_args: Vec::new(),
            config: Default::default(),
            uid: search_result.uid,
            manifests: search_result.manifests,
        }
    }

    /// Set the assets path.
    pub fn set_assets_path(&mut self, path: &str)
        ensures
            final(self).assets_path matches Some(p) && p@ == path@,
            final(self).libraries_path == old(self).libraries_path,
            final(self).natives_path == old(self).natives_path,
            final(self).minecraft_path == old(self).minecraft_path,
            final(self).manifests == old(self).manifests,
            final(self).uid == old(self).uid,
            final(self).name == old(self).name,
            final(self).version == old(self).version,
            final(self).java_opts == old(self).java_opts,
            final(self).extra_args == old(self).extra_args,
            final(self).config == old(self).config,
    {
        self.assets_path = Some(path.to_owned());
    }

    /// The directory a default root falls back to: `<base>/<sub>`.
    pub open spec fn spec_sub_dir(base: Seq<char>, sub: Seq<char>) -> Seq<char> {
        base + seq!['/'] + sub
    }

    /// The current assets path: the override when set, else the `assets`
    /// directory under the base directory.
    pub fn get_assets_path(&self) -> (r: String)
        ensures
            r@ == match self.assets_path {
                Some(p) => p@,
                None => Self::spec_sub_dir(self.minecraft_path@, "assets"@),
            },
    {
        match &self.assets_path {
            Some(p) => p.clone(),
            None => {
                let mut r = self.minecraft_path.clone();
                r.append("/");
                r.append("assets");
                proof {
                    reveal_strlit("/");
                    assert("/"@ =~= seq!['/']);
                    assert(r@ =~= Self::spec_sub_dir(self.minecraft_path@, "assets"@));
                }
                r
            },
        }
    }

    /// Set the libraries path.
    pub fn set_libraries_path(&mut self, path: &str)
        ensures
            final(self).libraries_path matches Some(p) && p@ == path@,
            final(self).assets_path == old(self).assets_path,
            final(self).natives_path == old(self).natives_path,
            final(self).minecraft_path == old(self).minecraft_path,
            final(self).manifests == old(self).manifests,
            final(self).uid == old(self).uid,
            final(self).name == old(self).name,
            final(self).version == old(self).version,
            final(self).java_opts == old(self).java_opts,
            final(self).extra_args == old(self).extra_args,
            final(self).config == old(self).config,
    {
        self.libraries_path = Some(path.to_owned());
    }

    /// The current libraries path: the override when set, else the
    /// `libraries` directory under the base directory.
    pub fn get_libraries_path(&self) -> (r: String)
        ensures
            r@ == match self.libraries_path {
                Some(p) => p@,
                None => Self::spec_sub_dir(self.minecraft_path@, "libraries"@),
            },
    {
        match &self.libraries_path {
            Some(p) => p.clone(),
            None => {
                let mut r = self.minecraft_path.clone();
                r.append("/");
                r.append("libraries");
                proof {
                    reveal_strlit("/");
                    assert("/"@ =~= seq!['/']);
                    assert(r@ =~= Self::spec_sub_dir(self.minecraft_path@, "libraries"@));
                }
                r
            },
        }
    }

    /// Replace the extra game arguments.
    pub fn set_extra_args(&mut self, args: Vec<String>)
        ensures
            final(self).extra_args == args,
            final(self).assets_path == old(self).assets_path,
            final(self).libraries_path == old(self).libraries_path,
            final(self).natives_path == old(self).natives_path,
            final(self).minecraft_path == old(self).minecraft_path,
            final(self).manifests == old(self).manifests,
            final(self).uid == old(self).uid,
            final(self).name == old(self).name,
            final(self).version == old(self).version,
            final(self).java_opts == old(self).java_opts,
            final(self).config == old(self).config,
    {
        self.extra_args = args;
    }

    /// Set the natives path.
    pub fn set_natives_path(&mut self, path: &str)
        ensures
            final(self).natives_path matches Some(p) && p@ == path@,
            final(self).assets_path == old(self).assets_path,
            final(self).libraries_path == old(self).libraries_path,
            final(self).minecraft_path == old(self).minecraft_path,
            final(self).manifests == old(self).manifests,
            final(self).uid == old(self).uid,
            final(self).name == old(self).name,
            final(self).version == old(self).version,
            final(self).java_opts == old(self).java_opts,
            final(self).extra_args == old(self).extra_args,
            final(self).config == old(self).config,
    {
        self.natives_path = Some(path.to_owned());
    }

    /// The current natives path: the override when set, else the
    /// `natives` directory under the base directory.
    pub fn get_natives_path(&self) -> (r: String)
        ensures
            r@ == match self.natives_path {
                Some(p) => p@,
                None => Self::spec_sub_dir(self.minecraft_path@, "natives"@),
            },
    {
        match &self.natives_path {
            Some(p) => p.clone(),
            None => {
                let mut r = self.minecraft_path.clone();
                r.append("/");
                r.append("natives");
                proof {
                    reveal_strlit("/");
                    assert("/"@ =~= seq!['/']);
                    assert(r@ =~= Self::spec_sub_dir(self.minecraft_path@, "natives"@));
                }
                r
            },
        }
    }

    /// The position of the first manifest with the given UID, if any.
    pub open spec fn spec_find_manifest_at(manifests: Seq<Manifest>, uid: Seq<char>) -> Option<int>
        decreases manifests.len(),
    {
        if manifests.len() == 0 {
            None
        } else if manifests.first().uid@ == uid {
            Some(0)
        } else {
            match Self::spec_find_manifest_at(manifests.drop_first(), uid) {
                Some(j) => Some(j + 1),
                None => None,
            }
        }
    }

    /// The position of the first manifest with the given UID, if any.
    pub open spec fn spec_find_manifest(&self, uid: Seq<char>) -> Option<int> {
        Self::spec_find_manifest_at(self.manifests@, uid)
    }

    /// A borrow of the first manifest with the given UID, or
    /// `MetaNotFound`.
    pub fn get_manifest(&self, uid: &str) -> (r: Result<&Manifest, Error>)
        ensures
            r matches Ok(m) ==> (match self.spec_find_manifest(uid@) {
                Some(j) => *m == self.manifests@[j],
                None => false,
            }),
            r is Err ==> self.spec_find_manifest(uid@) is None && r == Err::<&Manifest, Error>(
                Error::MetaNotFound,
            ),
    {
        proof {
            assert(self.manifests@.subrange(0, self.manifests@.len() as int) =~= self.manifests@);
        }
        let mut i: usize = 0;
        while i < self.manifests.len()
            invariant
                i <= self.manifests@.len(),
                Self::spec_find_manifest_at(self.manifests@, uid@)
                    == match Self::spec_find_manifest_at(
                    self.manifests@.subrange(i as int, self.manifests@.len() as int),
                    uid@,
                ) {
                    Some(j) => Some(j + i),
                    None => None,
                },
            decreases self.manifests@.len() - i,
        {
            let ghost rest = self.manifests@.subrange(i as int, self.manifests@.len() as int);
            if str_eq(self.manifests[i].uid.as_str(), uid) {
                proof {
                    assert(rest.first() == self.manifests@[i as int]);
                }
                return Ok(&self.manifests[i]);
            }
            i += 1;
            proof {
                assert(rest.drop_first() =~= self.manifests@.subrange(
                    i as int,
                    self.manifests@.len() as int,
                ));
            }
        }
        Err(Error::MetaNotFound)
    }

    /// The path of the primary manifest's main jar for the host, or
    /// `MetaNotFound` when the primary manifest or its main jar is
    /// absent.
    pub fn get_jar_path(&self, platform: &OS) -> (r: Result<String, Error>)
        ensures
            r is Ok <==> (match self.spec_find_manifest(self.uid@) {
                Some(j) => self.manifests@[j].main_jar is Some,
                None => false,
            }),
            r matches Ok(p) ==> (match self.spec_find_manifest(self.uid@) {
                Some(j) => self.manifests@[j].main_jar matches Some(jar) && p@
                    == jar.spec_path_for(
                    match self.libraries_path {
                        Some(lp) => lp@,
                        None => Self::spec_sub_dir(self.minecraft_path@, "libraries"@),
                    },
                    platform.name@,
                ),
                None => false,
            }),
            r is Err ==> r == Err::<String, Error>(Error::MetaNotFound),
    {
        let uid = self.uid.clone();
        let manifest = match self.get_manifest(uid.as_str()) {
            Ok(m) => m,
            Err(e) => {
                return Err(e);
            },
        };
        let libs = self.get_libraries_path();
        match &manifest.main_jar {
            Some(jar) => Ok(jar.path_at_for(libs.as_str(), platform)),
            None => Err(Error::MetaNotFound),
        }
    }

    /// The classpath of every manifest joined with the host separator.
    pub open spec fn spec_class_paths(&self, host: Seq<char>) -> Seq<char> {
        let lp = match self.libraries_path {
            Some(p) => p@,
            None => Self::spec_sub_dir(self.minecraft_path@, "libraries"@),
        };
        concat_with(
            self.manifests@.map_values(
                |m: Manifest|
                    concat_with(
                        m.spec_classpath_entries(lp, host),
                        Manifest::spec_separator(host),
                    ),
            ),
            Manifest::spec_separator(host),
        )
    }

    /// The classpaths of all manifests, joined with `;` exactly when the
    /// host is windows and with `:` otherwise.
    pub fn get_class_paths(&self, platform: &OS) -> (r: String)
        ensures
            r@ == self.spec_class_paths(platform.name@),
    {
        let libs = self.get_libraries_path();
        let ghost lp = libs@;
        let ghost host = platform.name@;
        let ghost sep = Manifest::spec_separator(host);
        let mut parts: Vec<String> = Vec::new();
        let mut i: usize = 0;
        while i < self.manifests.len()
            invariant
                i <= self.manifests@.len(),
                libs@ == lp,
                host == platform.name@,
                sep == Manifest::spec_separator(host),
                parts@.map_values(|p: String| p@) =~= self.manifests@.subrange(
                    0,
                    i as int,
                ).map_values(
                    |m: Manifest| concat_with(m.spec_classpath_entries(lp, host), sep),
                ),
            decreases self.manifests@.len() - i,
        {
            let ghost prev = parts@.map_values(|p: String| p@);
            parts.push(self.manifests[i].build_class_path_at(libs.as_str(), platform));
            i += 1;
            proof {
                assert(parts@.map_values(|p: String| p@) =~= prev.push(
                    concat_with(
                        self.manifests@[i - 1].spec_classpath_entries(lp, host),
                        sep,
                    ),
                ));
                assert(self.manifests@.subrange(0, i as int).map_values(
                    |m: Manifest| concat_with(m.spec_classpath_entries(lp, host), sep),
                ) =~= self.manifests@.subrange(0, i - 1).map_values(
                    |m: Manifest| concat_with(m.spec_classpath_entries(lp, host), sep),
                ).push(concat_with(self.manifests@[i - 1].spec_classpath_entries(lp, host), sep)));
            }
        }
        proof {
            assert(self.manifests@.subrange(0, self.manifests@.len() as int) =~= self.manifests@);
        }
        let windows = str_eq(platform.name.as_str(), "windows");
        proof {
            reveal_strlit("windows");
            reveal_strlit(";");
            reveal_strlit(":");
            assert("windows"@ =~= crate::manifest::windows_name());
            assert(";"@ =~= seq![';']);
            assert(":"@ =~= seq![':']);
        }
        if windows {
            join(&parts, ";")
        } else {
            join(&parts, ":")
        }
    }

    /// The natives-bearing libraries: each pair names a manifest and a
    /// library in it whose natives mapping binds a classifier for the
    /// host.  Every such library appears, exactly once, and nothing else.
    pub fn get_natives(&self, platform: &OS) -> (r: Vec<(usize, usize)>)
        ensures
            forall|t: int|
                0 <= t < r@.len() ==> (#[trigger] r@[t]).0 < self.manifests@.len() && (
                r@[t].1 as int) < self.manifests@[r@[t].0 as int].libraries@.len()
                    && self.manifests@[r@[t].0 as int].libraries@[r@[t].1 as int].spec_native_classifier(
                    platform.name@,
                ) is Some,
            forall|m2: usize, l2: usize|
                m2 < self.manifests@.len() && (l2 as int)
                    < self.manifests@[m2 as int].libraries@.len() && (
                #[trigger] self.manifests@[m2 as int].libraries@[l2 as int].spec_native_classifier(
                    platform.name@,
                )) is Some ==> exists|t: int|
                    0 <= t < r@.len() && (#[trigger] r@[t]) == (m2, l2),
            forall|t1: int, t2: int|
                0 <= t1 < t2 < r@.len() ==> (#[trigger] r@[t1]) != (#[trigger] r@[t2]),
    {
        let mut r: Vec<(usize, usize)> = Vec::new();
        let mut mi: usize = 0;
        while mi < self.manifests.len()
            invariant
                mi <= self.manifests@.len(),
                forall|t: int|
                    0 <= t < r@.len() ==> (#[trigger] r@[t]).0 < self.manifests@.len() && (
                    r@[t].1 as int) < self.manifests@[r@[t].0 as int].libraries@.len()
                        && self.manifests@[r@[t].0 as int].libraries@[r@[t].1 as int].spec_native_classifier(
                        platform.name@,
                    ) is Some,
                forall|m2: usize, l2: usize|
                    m2 < mi && (l2 as int) < self.manifests@[m2 as int].libraries@.len() && (
                    #[trigger] self.manifests@[m2 as int].libraries@[l2 as int].spec_native_classifier(
                        platform.name@,
                    )) is Some ==> exists|t: int|
                        0 <= t < r@.len() && (#[trigger] r@[t]) == (m2, l2),
                forall|t: int| 0 <= t < r@.len() ==> ((#[trigger] r@[t]).0 as int) < mi,
                forall|t1: int, t2: int|
                    0 <= t1 < t2 < r@.len() ==> (#[trigger] r@[t1]) != (#[trigger] r@[t2]),
            decreases self.manifests@.len() - mi,
        {
            let mut li: usize = 0;
            while li < self.manifests[mi].libraries.len()
                invariant
                    mi < self.manifests@.len(),
                    li <= self.manifests@[mi as int].libraries@.len(),
                    forall|t: int|
                        0 <= t < r@.len() ==> (#[trigger] r@[t]).0 < self.manifests@.len() && (
                        r@[t].1 as int) < self.manifests@[r@[t].0 as int].libraries@.len()
                            && self.manifests@[r@[t].0 as int].libraries@[r@[t].1 as int].spec_native_classifier(
                            platform.name@,
                        ) is Some,
                    forall|m2: usize, l2: usize|
                        m2 < mi && (l2 as int) < self.manifests@[m2 as int].libraries@.len() && (
                        #[trigger] self.manifests@[m2 as int].libraries@[l2 as int].spec_native_classifier(
                            platform.name@,
                        )) is Some ==> exists|t: int|
                            0 <= t < r@.len() && (#[trigger] r@[t]) == (m2, l2),
                    forall|l2: usize|
                        l2 < li && (
                        #[trigger] self.manifests@[mi as int].libraries@[l2 as int].spec_native_classifier(
                            platform.name@,
                        )) is Some ==> exists|t: int|
                            0 <= t < r@.len() && (#[trigger] r@[t]) == (mi, l2),
                    forall|t: int|
                        0 <= t < r@.len() ==> (((#[trigger] r@[t]).0 as int) < mi || (r@[t].0
                            == mi && (r@[t].1 as int) < li)),
                    forall|t1: int, t2: int|
                        0 <= t1 < t2 < r@.len() ==> (#[trigger] r@[t1]) != (#[trigger] r@[t2]),
                decreases self.manifests@[mi as int].libraries@.len() - li,
            {
                let ghost r_prev = r@;
                let has_native = self.manifests[mi].libraries[li].has_native_for(platform);
                if has_native {
                    r.push((mi, li));
                    proof {
                        assert(r@[r@.len() - 1] == (mi, li));
                    }
                }
                li += 1;
                proof {
                    assert forall|m2: usize, l2: usize|
                        m2 < mi && (l2 as int) < self.manifests@[m2 as int].libraries@.len() && (
                        #[trigger] self.manifests@[m2 as int].libraries@[l2 as int].spec_native_classifier(
                            platform.name@,
                        )) is Some implies exists|t: int|
                        0 <= t < r@.len() && (#[trigger] r@[t]) == (m2, l2) by {
                        let t0 = choose|t: int|
                            0 <= t < r_prev.len() && (#[trigger] r_prev[t]) == (m2, l2);
                        assert(r@[t0] == (m2, l2));
                    }
                    assert forall|l2: usize|
                        l2 < li && (
                        #[trigger] self.manifests@[mi as int].libraries@[l2 as int].spec_native_classifier(
                            platform.name@,
                        )) is Some implies exists|t: int|
                        0 <= t < r@.len() && (#[trigger] r@[t]) == (mi, l2) by {
                        if l2 + 1 < li {
                            let t0 = choose|t: int|
                                0 <= t < r_prev.len() && (#[trigger] r_prev[t]) == (mi, l2);
                            assert(r@[t0] == (mi, l2));
                        } else {
                            assert(r@[r@.len() - 1] == (mi, l2));
                        }
                    }
                }
            }
            mi += 1;
        }
        r
    }

    /// The JVM flag a manifest trait translates to on this platform:
    /// `FirstThreadOnMacOS` asks for `-XstartOnFirstThread` on `osx`;
    /// everything else is skipped.
    pub fn parse_trait(jvm_trait: &str, platform: &OS) -> (r: Option<String>)
        ensures
            r is Some <==> (jvm_trait@ == "FirstThreadOnMacOS"@ && platform.name@ == "osx"@),
            r matches Some(f) ==> f@ == "-XstartOnFirstThread"@,
    {
        if str_eq(jvm_trait, "FirstThreadOnMacOS") && str_eq(platform.name.as_str(), "osx") {
            Some(String::from_str("-XstartOnFirstThread"))
        } else {
            None
        }
    }

    /// The JVM flags the manifests' traits ask for on this platform, in
    /// manifest order.
    pub open spec fn spec_trait_flags_at(
        manifests: Seq<Manifest>,
        host: Seq<char>,
        upto: int,
    ) -> Seq<Seq<char>>
        decreases upto,
    {
        if upto <= 0 {
            Seq::empty()
        } else {
            Self::spec_trait_flags_at(manifests, host, upto - 1) + Self::spec_manifest_trait_flags(
                manifests[upto - 1],
                host,
                manifests[upto - 1].traits@.len() as int,
            )
        }
    }

    /// The JVM flags one manifest's traits ask for.
    pub open spec fn spec_manifest_trait_flags(m: Manifest, host: Seq<char>, upto: int) -> Seq<
        Seq<char>,
    >
        decreases upto,
    {
        if upto <= 0 {
            Seq::empty()
        } else {
            let prefix = Self::spec_manifest_trait_flags(m, host, upto - 1);
            if m.traits@[upto - 1]@ == "FirstThreadOnMacOS"@ && host == "osx"@ {
                prefix.push("-XstartOnFirstThread"@)
            } else {
                prefix
            }
        }
    }

    /// The JVM flags the manifests' traits ask for on this platform.
    pub fn get_manifest_extra_jvm_args(&self, platform: &OS) -> (r: Vec<String>)
        ensures
            r@.map_values(|f: String| f@) == Self::spec_trait_flags_at(
                self.manifests@,
                platform.name@,
                self.manifests@.len() as int,
            ),
    {
        let mut r: Vec<String> = Vec::new();
        let mut mi: usize = 0;
        while mi < self.manifests.len()
            invariant
                mi <= self.manifests@.len(),
                r@.map_values(|f: String| f@) == Self::spec_trait_flags_at(
                    self.manifests@,
                    platform.name@,
                    mi as int,
                ),
            decreases self.manifests@.len() - mi,
        {
            let mut ti: usize = 0;
            while ti < self.manifests[mi].traits.len()
                invariant
                    mi < self.manifests@.len(),
                    ti <= self.manifests@[mi as int].traits@.len(),
                    r@.map_values(|f: String| f@) == Self::spec_trait_flags_at(
                        self.manifests@,
                        platform.name@,
                        mi as int,
                    ) + Self::spec_manifest_trait_flags(
                        self.manifests@[mi as int],
                        platform.name@,
                        ti as int,
                    ),
                decreases self.manifests@[mi as int].traits@.len() - ti,
            {
                let ghost prev = r@.map_values(|f: String| f@);
                match Self::parse_trait(self.manifests[mi].traits[ti].as_str(), platform) {
                    Some(flag) => {
                        r.push(flag);
                        proof {
                            assert(r@.map_values(|f: String| f@) =~= prev.push(
                                "-XstartOnFirstThread"@,
                            ));
                        }
                    },
                    None => {},
                }
                ti += 1;
            }
            mi += 1;
            proof {
                assert(Self::spec_manifest_trait_flags(
                    self.manifests@[mi - 1],
                    platform.name@,
                    self.manifests@[mi - 1].traits@.len() as int,
                ) == Self::spec_manifest_trait_flags(
                    self.manifests@[mi - 1],
                    platform.name@,
                    self.manifests@[mi - 1].traits@.len() as int,
                ));
            }
        }
        r
    }
}

/// Natives exclusion: an archive entry is extracted exactly when its path
/// starts with none of the exclusion prefixes.  No excluded entry is ever
/// extracted.
pub fn should_extract(entry: &str, exclude: &Vec<String>) -> (r: bool)
    ensures
        r == !(exists|t: int|
            0 <= t < exclude@.len() && (#[trigger] exclude@[t])@.len() <= entry@.len()
                && entry@.subrange(0, exclude@[t]@.len() as int) == exclude@[t]@),
{
    let mut t: usize = 0;
    while t < exclude.len()
        invariant
            t <= exclude@.len(),
            forall|q: int|
                0 <= q < t ==> !((#[trigger] exclude@[q])@.len() <= entry@.len()
                    && entry@.subrange(0, exclude@[q]@.len() as int) == exclude@[q]@),
        decreases exclude@.len() - t,
    {
        if starts_with(entry, exclude[t].as_str()) {
            return false;
        }
        t += 1;
    }
    true
}

} // verus!
