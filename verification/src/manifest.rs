//! The per-version manifest and its parts: libraries, platform rules,
//! artifact selection, integrity checking against a disk snapshot, and the
//! classpath.

use vstd::prelude::*;

use crate::coord::LibraryName;
use crate::disk::DiskState;
use crate::error::Error;
use crate::hash::Sha1Sum;
use crate::strutil::{concat_with, join, str_eq};

verus! {

/// The view of `windows`, the one host name with a `;` path separator.
pub open spec fn windows_name() -> Seq<char> {
    seq!['w', 'i', 'n', 'd', 'o', 'w', 's']
}

/// The view of `osx`.
pub open spec fn osx_name() -> Seq<char> {
    seq!['o', 's', 'x']
}

/// A host platform: a name out of `linux` / `osx` / `windows`, and an
/// optional version.
#[derive(Debug)]
pub struct OS {
    pub name: String,
    pub version: Option<String>,
}

impl Clone for OS {
    fn clone(&self) -> (r: OS)
        ensures
            r.name@ == self.name@,
            match (r.version, self.version) {
                (Some(a), Some(b)) => a@ == b@,
                (None, None) => true,
                _ => false,
            },
    {
        OS {
            name: self.name.clone(),
            version: match &self.version {
                Some(v) => Some(v.clone()),
                None => None,
            },
        }
    }
}

impl OS {
    /// A platform with the given name and no version.
    pub fn new(name: &str) -> (r: OS)
        ensures
            r.name@ == name@,
            r.version is None,
    {
        OS { name: name.to_owned(), version: None }
    }
}

/// Whether a rule allows or disallows its platform.
#[derive(Debug, Clone, Copy, PartialEq, Eq, Structural)]
pub enum RuleAction {
    Allow,
    Disallow,
}

/// A per-library platform rule.
#[derive(Debug)]
pub struct Rule {
    pub action: RuleAction,
    pub os: OS,
}

impl Clone for Rule {
    fn clone(&self) -> (r: Rule)
        ensures
            r.action == self.action,
            r.os.name@ == self.os.name@,
    {
        Rule { action: self.action, os: self.os.clone() }
    }
}

/// Whether the library is required on the host named `host`: required with
/// no rules at all, and otherwise exactly when some `allow` rule names the
/// host.  `disallow` rules are parsed but never consulted, faithfully to the
/// scan the crate models.
pub open spec fn spec_required_for(rules: Seq<Rule>, host: Seq<char>) -> bool {
    rules.len() == 0 || exists|j: int|
        0 <= j < rules.len() && (#[trigger] rules[j]).action is Allow && rules[j].os.name@ == host
}

/// Rule monotonicity: inserting a `disallow` rule into a non-empty rule
/// list never changes whether the library is required.  (An empty list is
/// the one exception: it means required everywhere, while any non-empty
/// list without a matching `allow` rule does not.)
pub proof fn lemma_rule_monotonicity(rules: Seq<Rule>, r: Rule, k: int, host: Seq<char>)
    requires
        r.action is Disallow,
        rules.len() > 0,
        0 <= k <= rules.len(),
    ensures
        spec_required_for(rules.insert(k, r), host) == spec_required_for(rules, host),
{
    let with = rules.insert(k, r);
    assert(with.len() == rules.len() + 1);
    if spec_required_for(rules, host) {
        let j = choose|j: int|
            0 <= j < rules.len() && (#[trigger] rules[j]).action is Allow && rules[j].os.name@
                == host;
        let j2 = if j < k {
            j
        } else {
            j + 1
        };
        assert(with[j2] == rules[j]);
    }
    if spec_required_for(with, host) {
        let j2 = choose|j2: int|
            0 <= j2 < with.len() && (#[trigger] with[j2]).action is Allow && with[j2].os.name@
                == host;
        assert(j2 != k);
        let j = if j2 < k {
            j2
        } else {
            j2 - 1
        };
        assert(rules[j] == with[j2]);
    }
}

/// One downloadable artifact: its URL, size and SHA-1 digest.
#[derive(Debug)]
pub struct LibraryDownload {
    pub sha1: Sha1Sum,
    pub size: i64,
    pub url: String,
}

impl Clone for LibraryDownload {
    fn clone(&self) -> (r: LibraryDownload)
        ensures
            r.sha1@ == self.sha1@,
            r.size == self.size,
            r.url@ == self.url@,
    {
        LibraryDownload { sha1: self.sha1.clone(), size: self.size, url: self.url.clone() }
    }
}

/// A classifier name bound to its download.
#[derive(Debug)]
pub struct ClassifierDownload {
    pub classifier: String,
    pub download: LibraryDownload,
}

impl Clone for ClassifierDownload {
    fn clone(&self) -> (r: ClassifierDownload)
        ensures
            r.classifier@ == self.classifier@,
            r.download.sha1@ == self.download.sha1@,
            r.download.size == self.download.size,
            r.download.url@ == self.download.url@,
    {
        ClassifierDownload { classifier: self.classifier.clone(), download: self.download.clone() }
    }
}

/// The downloads of one library: the plain artifact and the per-classifier
/// alternatives.
#[derive(Debug)]
pub struct LibraryDownloads {
    pub artifact: LibraryDownload,
    pub classifiers: Vec<ClassifierDownload>,
}

impl Clone for LibraryDownloads {
    fn clone(&self) -> (r: LibraryDownloads)
        ensures
            r.artifact.sha1@ == self.artifact.sha1@,
            r.artifact.size == self.artifact.size,
            r.artifact.url@ == self.artifact.url@,
            r.classifiers@.len() == self.classifiers@.len(),
    {
        LibraryDownloads {
            artifact: self.artifact.clone(),
            classifiers: self.classifiers.clone(),
        }
    }
}

/// A host OS name bound to the classifier whose artifact carries that
/// host's native libraries.
#[derive(Debug)]
pub struct NativeMapping {
    pub os_name: String,
    pub classifier: String,
}

impl Clone for NativeMapping {
    fn clone(&self) -> (r: NativeMapping)
        ensures
            r.os_name@ == self.os_name@,
            r.classifier@ == self.classifier@,
    {
        NativeMapping { os_name: self.os_name.clone(), classifier: self.classifier.clone() }
    }
}

/// Which archive paths to leave behind when natives are extracted.
#[derive(Debug)]
pub struct ExtractOptions {
    pub exclude: Vec<String>,
}

impl Clone for ExtractOptions {
    fn clone(&self) -> (r: ExtractOptions)
        ensures
            r.exclude@.len() == self.exclude@.len(),
            forall|j: int|
                0 <= j < self.exclude@.len() ==> (#[trigger] r.exclude@[j])@
                    == self.exclude@[j]@,
    {
        let mut exclude: Vec<String> = Vec::new();
        let mut i: usize = 0;
        while i < self.exclude.len()
            invariant
                i <= self.exclude@.len(),
                exclude@.len() == i,
                forall|j: int|
                    0 <= j < i ==> (#[trigger] exclude@[j])@ == self.exclude@[j]@,
            decreases self.exclude@.len() - i,
        {
            exclude.push(self.exclude[i].clone());
            i += 1;
        }
        ExtractOptions { exclude }
    }
}

/// A requirement on another package: also resolve `uid`, preferring the
/// soft `suggests` version.  The hard `equals` bound is carried as data
/// for callers that enforce it.
#[derive(Debug)]
pub struct Requirement {
    pub equals: Option<String>,
    pub suggests: Option<String>,
    pub uid: String,
}

impl Clone for Requirement {
    fn clone(&self) -> (r: Requirement)
        ensures
            r.uid@ == self.uid@,
            r.spec_version() == self.spec_version(),
    {
        Requirement {
            equals: match &self.equals {
                Some(v) => Some(v.clone()),
                None => None,
            },
            suggests: match &self.suggests {
                Some(v) => Some(v.clone()),
                None => None,
            },
            uid: self.uid.clone(),
        }
    }
}

impl Requirement {
    /// The version a derived want resolves the requirement at: the soft
    /// `suggests` when stated, else the empty string.
    pub open spec fn spec_version(&self) -> Seq<char> {
        match self.suggests {
            Some(v) => v@,
            None => Seq::empty(),
        }
    }

    /// The version a derived want resolves the requirement at.
    pub fn version(&self) -> (r: String)
        ensures
            r@ == self.spec_version(),
    {
        match &self.suggests {
            Some(v) => v.clone(),
            None => String::new(),
        }
    }
}

/// One library of a manifest: its coordinate, downloads, natives mapping,
/// extraction options and platform rules.
#[derive(Debug)]
pub struct Library {
    pub name: LibraryName,
    pub downloads: LibraryDownloads,
    pub natives: Vec<NativeMapping>,
    pub extract: Option<ExtractOptions>,
    pub rules: Vec<Rule>,
}

impl Library {
    /// The classifier the natives mapping binds to `host`, if any: that of
    /// the first mapping whose OS name is `host`.
    pub open spec fn spec_native_classifier_at(
        natives: Seq<NativeMapping>,
        host: Seq<char>,
    ) -> Option<Seq<char>>
        decreases natives.len(),
    {
        if natives.len() == 0 {
            None
        } else if natives.first().os_name@ == host {
            Some(natives.first().classifier@)
        } else {
            Self::spec_native_classifier_at(natives.drop_first(), host)
        }
    }

    /// The classifier the natives mapping binds to `host`, if any.
    pub open spec fn spec_native_classifier(&self, host: Seq<char>) -> Option<Seq<char>> {
        Self::spec_native_classifier_at(self.natives@, host)
    }

    /// The download bound to classifier `name`, if any: the first entry so
    /// named.
    pub open spec fn spec_classifier_download_at(
        classifiers: Seq<ClassifierDownload>,
        name: Seq<char>,
    ) -> Option<int>
        decreases classifiers.len(),
    {
        if classifiers.len() == 0 {
            None
        } else if classifiers.first().classifier@ == name {
            Some(0)
        } else {
            match Self::spec_classifier_download_at(classifiers.drop_first(), name) {
                Some(j) => Some(j + 1),
                None => None,
            }
        }
    }

    /// The index into `downloads.classifiers` of the artifact selected for
    /// `host`: the classifier named by the natives mapping when one is
    /// bound, else the plain artifact (`None` stands for the plain
    /// artifact here, and `Some(j)` for `classifiers[j]`).
    pub open spec fn spec_selected_index(&self, host: Seq<char>) -> Option<Option<int>> {
        match self.spec_native_classifier(host) {
            Some(name) => match Self::spec_classifier_download_at(
                self.downloads.classifiers@,
                name,
            ) {
                Some(j) => Some(Some(j)),
                None => None,
            },
            None => Some(None),
        }
    }

    /// The SHA-1 digest of the artifact selected for `host`, when one is
    /// selectable.
    pub open spec fn spec_selected_sha1(&self, host: Seq<char>) -> Option<Seq<u8>> {
        match self.spec_selected_index(host) {
            None => None,
            Some(None) => Some(self.downloads.artifact.sha1@),
            Some(Some(j)) => Some(self.downloads.classifiers@[j].download.sha1@),
        }
    }

    /// The URL of the artifact selected for `host`, when one is selectable.
    pub open spec fn spec_selected_url(&self, host: Seq<char>) -> Option<Seq<char>> {
        match self.spec_selected_index(host) {
            None => None,
            Some(None) => Some(self.downloads.artifact.url@),
            Some(Some(j)) => Some(self.downloads.classifiers@[j].download.url@),
        }
    }

    /// The size of the artifact selected for `host`, when one is
    /// selectable.
    pub open spec fn spec_selected_size(&self, host: Seq<char>) -> Option<int> {
        match self.spec_selected_index(host) {
            None => None,
            Some(None) => Some(self.downloads.artifact.size as int),
            Some(Some(j)) => Some(self.downloads.classifiers@[j].download.size as int),
        }
    }

    /// Where the artifact selected for `host` lives under `at`: the natives
    /// classifier path when the natives mapping binds one, else the plain
    /// path.
    pub open spec fn spec_path_for(&self, at: Seq<char>, host: Seq<char>) -> Seq<char> {
        match self.spec_native_classifier(host) {
            Some(name) => self.name.spec_path_natives(at, name),
            None => self.name.spec_path(at),
        }
    }

    /// Whether the library is required on `host`.
    pub fn required_for(&self, platform: &OS) -> (r: bool)
        ensures
            r == spec_required_for(self.rules@, platform.name@),
    {
        let mut allow = false;
        if self.rules.len() == 0 {
            allow = true;
        } else {
            let mut i: usize = 0;
            while i < self.rules.len()
                invariant
                    i <= self.rules@.len(),
                    allow == exists|j: int|
                        0 <= j < i && (#[trigger] self.rules@[j]).action is Allow
                            && self.rules@[j].os.name@ == platform.name@,
                decreases self.rules@.len() - i,
            {
                if matches!(self.rules[i].action, RuleAction::Allow) && !allow {
                    allow = str_eq(self.rules[i].os.name.as_str(), platform.name.as_str());
                }
                i += 1;
            }
        }
        allow
    }

    /// The classifier the natives mapping binds to the host, if any.
    fn native_classifier(&self, platform: &OS) -> (r: Option<&String>)
        ensures
            match r {
                Some(c) => self.spec_native_classifier(platform.name@) == Some(c@),
                None => self.spec_native_classifier(platform.name@) is None,
            },
    {
        let mut i: usize = 0;
        proof {
            assert(self.natives@.subrange(0, self.natives@.len() as int) =~= self.natives@);
        }
        while i < self.natives.len()
            invariant
                i <= self.natives@.len(),
                Self::spec_native_classifier_at(self.natives@, platform.name@)
                    == Self::spec_native_classifier_at(
                    self.natives@.subrange(i as int, self.natives@.len() as int),
                    platform.name@,
                ),
            decreases self.natives@.len() - i,
        {
            let ghost rest = self.natives@.subrange(i as int, self.natives@.len() as int);
            if str_eq(self.natives[i].os_name.as_str(), platform.name.as_str()) {
                proof {
                    assert(rest.first() == self.natives@[i as int]);
                }
                return Some(&self.natives[i].classifier);
            }
            i += 1;
            proof {
                assert(rest.drop_first() =~= self.natives@.subrange(
                    i as int,
                    self.natives@.len() as int,
                ));
            }
        }
        None
    }

    /// The download bound to classifier `name`, if any.
    fn classifier_download(&self, name: &String) -> (r: Option<&LibraryDownload>)
        ensures
            match r {
                Some(d) => exists|j: int|
                    Self::spec_classifier_download_at(self.downloads.classifiers@, name@)
                        == Some(j) && 0 <= j < self.downloads.classifiers@.len()
                        && *d == (#[trigger] self.downloads.classifiers@[j]).download,
                None => Self::spec_classifier_download_at(self.downloads.classifiers@, name@)
                    is None,
            },
    {
        let mut i: usize = 0;
        proof {
            assert(self.downloads.classifiers@.subrange(0, self.downloads.classifiers@.len() as int)
                =~= self.downloads.classifiers@);
        }
        while i < self.downloads.classifiers.len()
            invariant
                i <= self.downloads.classifiers@.len(),
                Self::spec_classifier_download_at(self.downloads.classifiers@, name@) == match Self::spec_classifier_download_at(
                    self.downloads.classifiers@.subrange(
                        i as int,
                        self.downloads.classifiers@.len() as int,
                    ),
                    name@,
                ) {
                    Some(j) => Some(j + i),
                    None => None,
                },
            decreases self.downloads.classifiers@.len() - i,
        {
            let ghost rest = self.downloads.classifiers@.subrange(
                i as int,
                self.downloads.classifiers@.len() as int,
            );
            if str_eq(self.downloads.classifiers[i].classifier.as_str(), name.as_str()) {
                proof {
                    assert(rest.first() == self.downloads.classifiers@[i as int]);
                }
                return Some(&self.downloads.classifiers[i].download);
            }
            i += 1;
            proof {
                assert(rest.drop_first() =~= self.downloads.classifiers@.subrange(
                    i as int,
                    self.downloads.classifiers@.len() as int,
                ));
            }
        }
        None
    }

    /// True exactly when the natives mapping binds a classifier for the
    /// host.
    pub fn has_native_for(&self, platform: &OS) -> (r: bool)
        ensures
            r == (self.spec_native_classifier(platform.name@) is Some),
    {
        match self.native_classifier(platform) {
            Some(_) => true,
            None => false,
        }
    }

    /// The download selected for the host, if one is selectable: the
    /// natives classifier's download when the natives mapping binds one,
    /// else the plain artifact.
    pub fn select_for(&self, os: &OS) -> (r: Option<&LibraryDownload>)
        ensures
            r is Some <==> self.spec_selected_index(os.name@) is Some,
            r matches Some(d) ==> self.spec_selected_sha1(os.name@) == Some(d.sha1@)
                && self.spec_selected_url(os.name@) == Some(d.url@)
                && self.spec_selected_size(os.name@) == Some(d.size as int),
    {
        match self.native_classifier(os) {
            Some(name) => self.classifier_download(name),
            None => Some(&self.downloads.artifact),
        }
    }

    /// Where the plain artifact lives under `at`.
    pub fn path_at(&self, at: &str) -> (r: String)
        ensures
            r@ == self.name.spec_path(at@),
    {
        self.name.path_at(at)
    }

    /// Where the artifact selected for the host lives under `at`.
    pub fn path_at_for(&self, at: &str, platform: &OS) -> (r: String)
        ensures
            r@ == self.spec_path_for(at@, platform.name@),
    {
        match self.native_classifier(platform) {
            Some(name) => {
                let n = name.clone();
                self.name.path_at_natives(at, n.as_str())
            },
            None => self.name.path_at(at),
        }
    }

    /// The integrity verdict for this library on `host` against the disk
    /// snapshot: no selectable artifact is `LibraryNotSupported`; an absent
    /// file is `LibraryMissing`; a digest mismatch is `LibraryInvalidHash`.
    pub open spec fn spec_check(&self, at: Seq<char>, host: Seq<char>, disk: DiskState) -> Result<
        (),
        Error,
    > {
        match self.spec_selected_sha1(host) {
            None => Err(Error::LibraryNotSupported),
            Some(expected) => match disk.spec_lookup(self.spec_path_for(at, host)) {
                None => Err(Error::LibraryMissing),
                Some(found) => if found == expected {
                    Ok(())
                } else {
                    Err(Error::LibraryInvalidHash)
                },
            },
        }
    }

    /// The integrity verdict for this library on the host platform against
    /// the disk snapshot.
    pub fn verify_at(&self, at: &str, platform: &OS, disk: &DiskState) -> (r: Result<(), Error>)
        ensures
            r == self.spec_check(at@, platform.name@, *disk),
    {
        let artifact = match self.select_for(platform) {
            Some(a) => a,
            None => {
                return Err(Error::LibraryNotSupported);
            },
        };
        let path = self.path_at_for(at, platform);
        match disk.lookup(path.as_str()) {
            None => Err(Error::LibraryMissing),
            Some(found) => {
                if found.matches(&artifact.sha1) {
                    Ok(())
                } else {
                    Err(Error::LibraryInvalidHash)
                }
            },
        }
    }
}

/// A mod loader a package can pull in, named by its Maven coordinate and
/// the registry it is served from.
#[derive(Debug)]
pub enum ModLoader {
    Fabric { maven_id: String, base_url: String },
}

/// A per-version manifest: everything needed to provision and launch one
/// version of one package, together with this session's per-artifact
/// verified flags.
#[derive(Debug)]
pub struct Manifest {
    pub traits: Vec<String>,
    pub asset_index: Option<crate::asset::AssetIndexInfo>,
    pub libraries: Vec<Library>,
    pub main_class: Option<String>,
    pub main_jar: Option<Library>,
    pub minecraft_arguments: Option<String>,
    pub name: String,
    pub order: i64,
    pub release_time: String,
    pub requires: Vec<Requirement>,
    pub release_type: String,
    pub uid: String,
    pub version: String,
    pub libs_verified: Vec<bool>,
    pub main_jar_verified: bool,
}

impl Manifest {
    /// The flags track the libraries one to one.
    pub open spec fn wf(&self) -> bool {
        self.libs_verified@.len() == self.libraries@.len()
    }

    /// Reset the session flags: one unset flag per library, none for the
    /// main jar.  Everything else is untouched.
    pub fn init_verification(&mut self)
        ensures
            final(self).wf(),
            final(self).libraries == old(self).libraries,
            final(self).traits == old(self).traits,
            final(self).asset_index == old(self).asset_index,
            final(self).main_class == old(self).main_class,
            final(self).main_jar == old(self).main_jar,
            final(self).minecraft_arguments == old(self).minecraft_arguments,
            final(self).name == old(self).name,
            final(self).order == old(self).order,
            final(self).release_time == old(self).release_time,
            final(self).requires == old(self).requires,
            final(self).release_type == old(self).release_type,
            final(self).uid == old(self).uid,
            final(self).version == old(self).version,
            forall|j: int|
                0 <= j < final(self).libs_verified@.len() ==> !(
                #[trigger] final(self).libs_verified@[j]),
            !final(self).main_jar_verified,
    {
        let mut flags: Vec<bool> = Vec::new();
        let mut i: usize = 0;
        while i < self.libraries.len()
            invariant
                i <= self.libraries@.len(),
                flags@.len() == i,
                forall|j: int| 0 <= j < i ==> !(#[trigger] flags@[j]),
            decreases self.libraries@.len() - i,
        {
            flags.push(false);
            i += 1;
        }
        self.libs_verified = flags;
        self.main_jar_verified = false;
    }

    /// The classpath entries drawn from the first `upto` libraries: the
    /// plain artifact path of each library required on `host`, in order.
    pub open spec fn spec_classpath_entries_at(
        libs: Seq<Library>,
        at: Seq<char>,
        host: Seq<char>,
        upto: int,
    ) -> Seq<Seq<char>>
        decreases upto,
    {
        if upto <= 0 {
            Seq::empty()
        } else {
            let s = Self::spec_classpath_entries_at(libs, at, host, upto - 1);
            if spec_required_for(libs[upto - 1].rules@, host) {
                s.push(libs[upto - 1].name.spec_path(at))
            } else {
                s
            }
        }
    }

    /// The classpath entries of this manifest under `at` for `host`: the
    /// required libraries' paths, then the main jar's, when there is one.
    pub open spec fn spec_classpath_entries(&self, at: Seq<char>, host: Seq<char>) -> Seq<
        Seq<char>,
    > {
        let libs = Self::spec_classpath_entries_at(
            self.libraries@,
            at,
            host,
            self.libraries@.len() as int,
        );
        match self.main_jar {
            Some(jar) => libs.push(jar.name.spec_path(at)),
            None => libs,
        }
    }

    /// The path-list separator of `host`: `;` on windows, `:` elsewhere.
    pub open spec fn spec_separator(host: Seq<char>) -> Seq<char> {
        if host == windows_name() {
            seq![';']
        } else {
            seq![':']
        }
    }

    /// The classpath for `platform`: the required libraries' plain paths
    /// and the main jar's, joined with `;` exactly when the host is
    /// windows and with `:` otherwise.
    pub fn build_class_path_at(&self, path: &str, platform: &OS) -> (r: String)
        ensures
            r@ == concat_with(
                self.spec_classpath_entries(path@, platform.name@),
                Self::spec_separator(platform.name@),
            ),
    {
        let mut entries: Vec<String> = Vec::new();
        let mut i: usize = 0;
        while i < self.libraries.len()
            invariant
                i <= self.libraries@.len(),
                entries@.map_values(|p: String| p@) == Self::spec_classpath_entries_at(
                    self.libraries@,
                    path@,
                    platform.name@,
                    i as int,
                ),
            decreases self.libraries@.len() - i,
        {
            let ghost prev = entries@.map_values(|p: String| p@);
            if self.libraries[i].required_for(platform) {
                entries.push(self.libraries[i].name.path_at(path));
                proof {
                    assert(entries@.map_values(|p: String| p@) =~= prev.push(
                        self.libraries@[i as int].name.spec_path(path@),
                    ));
                }
            }
            i += 1;
        }
        match &self.main_jar {
            Some(jar) => {
                let ghost prev = entries@.map_values(|p: String| p@);
                entries.push(jar.name.path_at(path));
                proof {
                    assert(entries@.map_values(|p: String| p@) =~= prev.push(
                        jar.name.spec_path(path@),
                    ));
                }
            },
            None => {},
        }
        let windows = str_eq(platform.name.as_str(), "windows");
        proof {
            reveal_strlit("windows");
            reveal_strlit(";");
            reveal_strlit(":");
            assert("windows"@ =~= windows_name());
            assert(";"@ =~= seq![';']);
            assert(":"@ =~= seq![':']);
        }
        if windows {
            join(&entries, ";")
        } else {
            join(&entries, ":")
        }
    }

    /// Where the asset index file lives under the assets root `at`:
    /// `<at>/indexes/<id>.json`.
    pub open spec fn spec_assets_path(&self, at: Seq<char>) -> Seq<char>
        recommends
            self.asset_index is Some,
    {
        at + seq!['/', 'i', 'n', 'd', 'e', 'x', 'e', 's', '/'] + self.asset_index.unwrap().id@
            + seq!['.', 'j', 's', 'o', 'n']
    }

    /// Where the asset index file lives under the assets root `at`, when
    /// the manifest names one.
    pub fn assets_path_at(&self, at: &str) -> (r: Option<String>)
        ensures
            r is Some <==> self.asset_index is Some,
            r matches Some(p) ==> p@ == self.spec_assets_path(at@),
    {
        match &self.asset_index {
            None => None,
            Some(info) => {
                let mut p = at.to_owned();
                p.append("/indexes/");
                p.append(info.id.as_str());
                p.append(".json");
                proof {
                    reveal_strlit("/indexes/");
                    reveal_strlit(".json");
                    assert("/indexes/"@ =~= seq!['/', 'i', 'n', 'd', 'e', 'x', 'e', 's', '/']);
                    assert(".json"@ =~= seq!['.', 'j', 's', 'o', 'n']);
                    assert(p@ =~= self.spec_assets_path(at@));
                }
                Some(p)
            },
        }
    }

    /// What an integrity sweep over the first `upto` libraries collects:
    /// each recoverable failure as `(index, error)` in order, or the first
    /// fatal error.  A library is skipped when it is not required on
    /// `host`, or — in a caching sweep — when its flag is already set.
    /// `LibraryMissing` and `LibraryInvalidHash` are recoverable;
    /// `LibraryNotSupported` on a required library is fatal.
    pub open spec fn spec_lib_failures(
        libs: Seq<Library>,
        flags: Seq<bool>,
        use_flags: bool,
        at: Seq<char>,
        host: Seq<char>,
        disk: crate::disk::DiskState,
        upto: int,
    ) -> Result<Seq<(int, Error)>, Error>
        decreases upto,
    {
        if upto <= 0 {
            Ok(Seq::empty())
        } else {
            match Self::spec_lib_failures(libs, flags, use_flags, at, host, disk, upto - 1) {
                Err(e) => Err(e),
                Ok(s) => {
                    let j = upto - 1;
                    if use_flags && flags[j] {
                        Ok(s)
                    } else if !spec_required_for(libs[j].rules@, host) {
                        Ok(s)
                    } else {
                        match libs[j].spec_check(at, host, disk) {
                            Ok(()) => Ok(s),
                            Err(e) => if e == Error::LibraryMissing || e
                                == Error::LibraryInvalidHash {
                                Ok(s.push((j, e)))
                            } else {
                                Err(e)
                            },
                        }
                    }
                },
            }
        }
    }

    /// A fatal error in a prefix of the sweep decides the whole sweep.
    pub proof fn lemma_lib_failures_err_persists(
        libs: Seq<Library>,
        flags: Seq<bool>,
        use_flags: bool,
        at: Seq<char>,
        host: Seq<char>,
        disk: crate::disk::DiskState,
        k: int,
        n: int,
    )
        requires
            k <= n,
            Self::spec_lib_failures(libs, flags, use_flags, at, host, disk, k) is Err,
        ensures
            Self::spec_lib_failures(libs, flags, use_flags, at, host, disk, n)
                == Self::spec_lib_failures(libs, flags, use_flags, at, host, disk, k),
        decreases n - k,
    {
        if k < n {
            Self::lemma_lib_failures_err_persists(libs, flags, use_flags, at, host, disk, k, n - 1);
        }
    }

    /// The library flags after a caching sweep that ran to completion: a
    /// required library that checked out is marked, and marks are never
    /// cleared.
    pub open spec fn spec_lib_updated_flags(
        libs: Seq<Library>,
        flags: Seq<bool>,
        at: Seq<char>,
        host: Seq<char>,
        disk: crate::disk::DiskState,
    ) -> Seq<bool> {
        Seq::new(
            flags.len(),
            |j: int| flags[j] || (spec_required_for(libs[j].rules@, host) && libs[j].spec_check(
                at,
                host,
                disk,
            ) is Ok),
        )
    }

    /// What an integrity sweep over the whole manifest collects: the
    /// libraries in order, then the main jar, which is checked regardless
    /// of platform rules.  The index `libraries.len()` stands for the main
    /// jar.
    pub open spec fn spec_verify_all(
        &self,
        use_flags: bool,
        at: Seq<char>,
        host: Seq<char>,
        disk: crate::disk::DiskState,
    ) -> Result<Seq<(int, Error)>, Error> {
        let n = self.libraries@.len() as int;
        match Self::spec_lib_failures(
            self.libraries@,
            self.libs_verified@,
            use_flags,
            at,
            host,
            disk,
            n,
        ) {
            Err(e) => Err(e),
            Ok(s) => match self.main_jar {
                None => Ok(s),
                Some(jar) => if use_flags && self.main_jar_verified {
                    Ok(s)
                } else {
                    match jar.spec_check(at, host, disk) {
                        Ok(()) => Ok(s),
                        Err(e) => if e == Error::LibraryMissing || e == Error::LibraryInvalidHash {
                            Ok(s.push((n, e)))
                        } else {
                            Err(e)
                        },
                    }
                },
            },
        }
    }

    /// Sweep the required libraries and the main jar against the snapshot;
    /// each `(index, error)` pair names an artifact that is missing or
    /// corrupt under the library root `at`, with index `libraries.len()`
    /// standing for the main jar.  `LibraryNotSupported` on a required
    /// library is fatal.
    pub fn verify_at(&self, at: &str, platform: &OS, disk: &crate::disk::DiskState) -> (r: Result<
        Vec<(usize, Error)>,
        Error,
    >)
        ensures
            match r {
                Ok(v) => self.spec_verify_all(false, at@, platform.name@, *disk) == Ok::<
                    Seq<(int, Error)>,
                    Error,
                >(v@.map_values(|p: (usize, Error)| (p.0 as int, p.1))),
                Err(e) => self.spec_verify_all(false, at@, platform.name@, *disk) == Err::<
                    Seq<(int, Error)>,
                    Error,
                >(e),
            },
    {
        let mut out: Vec<(usize, Error)> = Vec::new();
        let mut i: usize = 0;
        let ghost n = self.libraries@.len() as int;
        proof {
            assert(out@.map_values(|p: (usize, Error)| (p.0 as int, p.1)) =~= Seq::<
                (int, Error),
            >::empty());
        }
        while i < self.libraries.len()
            invariant
                i <= self.libraries@.len(),
                n == self.libraries@.len(),
                Self::spec_lib_failures(
                    self.libraries@,
                    self.libs_verified@,
                    false,
                    at@,
                    platform.name@,
                    *disk,
                    i as int,
                ) == Ok::<Seq<(int, Error)>, Error>(
                    out@.map_values(|p: (usize, Error)| (p.0 as int, p.1)),
                ),
            decreases self.libraries@.len() - i,
        {
            let ghost prev = out@.map_values(|p: (usize, Error)| (p.0 as int, p.1));
            if self.libraries[i].required_for(platform) {
                match self.libraries[i].verify_at(at, platform, disk) {
                    Ok(()) => {},
                    Err(e) => {
                        if matches!(e, Error::LibraryMissing) || matches!(
                            e,
                            Error::LibraryInvalidHash,
                        ) {
                            out.push((i, e));
                            proof {
                                assert(out@.map_values(|p: (usize, Error)| (p.0 as int, p.1))
                                    =~= prev.push((i as int, e)));
                            }
                        } else {
                            proof {
                                assert(Self::spec_lib_failures(
                                    self.libraries@,
                                    self.libs_verified@,
                                    false,
                                    at@,
                                    platform.name@,
                                    *disk,
                                    i + 1,
                                ) == Err::<Seq<(int, Error)>, Error>(e));
                                Self::lemma_lib_failures_err_persists(
                                    self.libraries@,
                                    self.libs_verified@,
                                    false,
                                    at@,
                                    platform.name@,
                                    *disk,
                                    i + 1,
                                    n,
                                );
                            }
                            return Err(e);
                        }
                    },
                }
            }
            i += 1;
        }
        match &self.main_jar {
            None => Ok(out),
            Some(jar) => {
                let ghost prev = out@.map_values(|p: (usize, Error)| (p.0 as int, p.1));
                match jar.verify_at(at, platform, disk) {
                    Ok(()) => Ok(out),
                    Err(e) => {
                        if matches!(e, Error::LibraryMissing) || matches!(
                            e,
                            Error::LibraryInvalidHash,
                        ) {
                            let idx = self.libraries.len();
                            out.push((idx, e));
                            proof {
                                assert(out@.map_values(|p: (usize, Error)| (p.0 as int, p.1))
                                    =~= prev.push((n, e)));
                            }
                            Ok(out)
                        } else {
                            Err(e)
                        }
                    },
                }
            },
        }
    }

    /// Sweep as `verify_at` does, but skip artifacts already marked
    /// verified and mark the ones that check out.  When a fatal error cuts
    /// the sweep short, the flags of the artifacts already processed keep
    /// their updates; marks are never cleared and never set for an
    /// artifact that did not check out.
    pub fn verify_caching_at(
        &mut self,
        at: &str,
        platform: &OS,
        disk: &crate::disk::DiskState,
    ) -> (r: Result<Vec<(usize, Error)>, Error>)
        requires
            old(self).wf(),
        ensures
            final(self).wf(),
            final(self).libraries == old(self).libraries,
            final(self).traits == old(self).traits,
            final(self).asset_index == old(self).asset_index,
            final(self).main_class == old(self).main_class,
            final(self).main_jar == old(self).main_jar,
            final(self).minecraft_arguments == old(self).minecraft_arguments,
            final(self).name == old(self).name,
            final(self).order == old(self).order,
            final(self).release_time == old(self).release_time,
            final(self).requires == old(self).requires,
            final(self).release_type == old(self).release_type,
            final(self).uid == old(self).uid,
            final(self).version == old(self).version,
            final(self).libs_verified@.len() == old(self).libs_verified@.len(),
            forall|j: int|
                0 <= j < old(self).libs_verified@.len() && old(self).libs_verified@[j]
                    ==> #[trigger] final(self).libs_verified@[j],
            forall|j: int|
                0 <= j < old(self).libs_verified@.len() && #[trigger] final(self).libs_verified@[j]
                    ==> old(self).libs_verified@[j] || (spec_required_for(
                    old(self).libraries@[j].rules@,
                    platform.name@,
                ) && old(self).libraries@[j].spec_check(at@, platform.name@, *disk) is Ok),
            r is Ok ==> final(self).libs_verified@ == Self::spec_lib_updated_flags(
                old(self).libraries@,
                old(self).libs_verified@,
                at@,
                platform.name@,
                *disk,
            ),
            match r {
                Ok(v) => old(self).spec_verify_all(true, at@, platform.name@, *disk) == Ok::<
                    Seq<(int, Error)>,
                    Error,
                >(v@.map_values(|p: (usize, Error)| (p.0 as int, p.1))),
                Err(e) => old(self).spec_verify_all(true, at@, platform.name@, *disk) == Err::<
                    Seq<(int, Error)>,
                    Error,
                >(e),
            },
            match r {
                Ok(_) => final(self).main_jar_verified == (old(self).main_jar_verified || (
                old(self).main_jar matches Some(jar) && jar.spec_check(
                    at@,
                    platform.name@,
                    *disk,
                ) is Ok)),
                Err(_) => final(self).main_jar_verified == old(self).main_jar_verified,
            },
    {
        let mut out: Vec<(usize, Error)> = Vec::new();
        let mut i: usize = 0;
        let ghost n = self.libraries@.len() as int;
        let ghost flags0 = self.libs_verified@;
        proof {
            assert(out@.map_values(|p: (usize, Error)| (p.0 as int, p.1)) =~= Seq::<
                (int, Error),
            >::empty());
        }
        while i < self.libraries.len()
            invariant
                i <= self.libraries@.len(),
                n == self.libraries@.len(),
                self.wf(),
                self.libraries == old(self).libraries,
                self.traits == old(self).traits,
                self.asset_index == old(self).asset_index,
                self.main_class == old(self).main_class,
                self.main_jar == old(self).main_jar,
                self.minecraft_arguments == old(self).minecraft_arguments,
                self.name == old(self).name,
                self.order == old(self).order,
                self.release_time == old(self).release_time,
                self.requires == old(self).requires,
                self.release_type == old(self).release_type,
                self.uid == old(self).uid,
                self.version == old(self).version,
                self.main_jar_verified == old(self).main_jar_verified,
                flags0 == old(self).libs_verified@,
                self.libs_verified@.len() == flags0.len(),
                forall|j: int|
                    i <= j < flags0.len() ==> #[trigger] self.libs_verified@[j] == flags0[j],
                forall|j: int|
                    0 <= j < i ==> #[trigger] self.libs_verified@[j] == Self::spec_lib_updated_flags(
                        old(self).libraries@,
                        flags0,
                        at@,
                        platform.name@,
                        *disk,
                    )[j],
                Self::spec_lib_failures(
                    old(self).libraries@,
                    flags0,
                    true,
                    at@,
                    platform.name@,
                    *disk,
                    i as int,
                ) == Ok::<Seq<(int, Error)>, Error>(
                    out@.map_values(|p: (usize, Error)| (p.0 as int, p.1)),
                ),
            decreases self.libraries@.len() - i,
        {
            let ghost prev = out@.map_values(|p: (usize, Error)| (p.0 as int, p.1));
            if !self.libs_verified[i] && self.libraries[i].required_for(platform) {
                match self.libraries[i].verify_at(at, platform, disk) {
                    Ok(()) => {
                        self.libs_verified[i] = true;
                    },
                    Err(e) => {
                        if matches!(e, Error::LibraryMissing) || matches!(
                            e,
                            Error::LibraryInvalidHash,
                        ) {
                            out.push((i, e));
                            proof {
                                assert(out@.map_values(|p: (usize, Error)| (p.0 as int, p.1))
                                    =~= prev.push((i as int, e)));
                            }
                        } else {
                            proof {
                                assert(Self::spec_lib_failures(
                                    old(self).libraries@,
                                    flags0,
                                    true,
                                    at@,
                                    platform.name@,
                                    *disk,
                                    i + 1,
                                ) == Err::<Seq<(int, Error)>, Error>(e));
                                Self::lemma_lib_failures_err_persists(
                                    old(self).libraries@,
                                    flags0,
                                    true,
                                    at@,
                                    platform.name@,
                                    *disk,
                                    i + 1,
                                    n,
                                );
                            }
                            return Err(e);
                        }
                    },
                }
            }
            i += 1;
        }
        proof {
            assert(self.libs_verified@ =~= Self::spec_lib_updated_flags(
                old(self).libraries@,
                flags0,
                at@,
                platform.name@,
                *disk,
            ));
        }
        let has_jar = self.main_jar.is_some();
        if !has_jar {
            return Ok(out);
        }
        if self.main_jar_verified {
            return Ok(out);
        }
        let jar_result = match &self.main_jar {
            Some(jar) => jar.verify_at(at, platform, disk),
            None => Ok(()),
        };
        match jar_result {
            Ok(()) => {
                self.main_jar_verified = true;
                Ok(out)
            },
            Err(e) => {
                if matches!(e, Error::LibraryMissing) || matches!(e, Error::LibraryInvalidHash) {
                    let ghost prev = out@.map_values(|p: (usize, Error)| (p.0 as int, p.1));
                    let idx = self.libraries.len();
                    out.push((idx, e));
                    proof {
                        assert(out@.map_values(|p: (usize, Error)| (p.0 as int, p.1)) =~= prev.push(
                            (n, e),
                        ));
                    }
                    Ok(out)
                } else {
                    Err(e)
                }
            },
        }
    }

    /// Planner/verifier round trip, verifier half: when every required
    /// library and the main jar lie on disk with their expected digests, a
    /// sweep — caching or not — reports no failures at all, and so the
    /// planner emits no downloads for them.
    pub proof fn lemma_clean_disk_no_failures(
        m: Manifest,
        use_flags: bool,
        at: Seq<char>,
        host: Seq<char>,
        disk: crate::disk::DiskState,
    )
        requires
            forall|j: int|
                0 <= j < m.libraries@.len() && spec_required_for(
                    (#[trigger] m.libraries@[j]).rules@,
                    host,
                ) ==> m.libraries@[j].spec_check(at, host, disk) is Ok,
            m.main_jar matches Some(jar) ==> jar.spec_check(at, host, disk) is Ok,
        ensures
            m.spec_verify_all(use_flags, at, host, disk) == Ok::<Seq<(int, Error)>, Error>(
                Seq::empty(),
            ),
    {
        Self::lemma_clean_disk_no_lib_failures(
            m.libraries@,
            m.libs_verified@,
            use_flags,
            at,
            host,
            disk,
            m.libraries@.len() as int,
        );
    }

    /// Helper for the round-trip law: the library part of a clean sweep.
    pub proof fn lemma_clean_disk_no_lib_failures(
        libs: Seq<Library>,
        flags: Seq<bool>,
        use_flags: bool,
        at: Seq<char>,
        host: Seq<char>,
        disk: crate::disk::DiskState,
        upto: int,
    )
        requires
            upto <= libs.len(),
            forall|j: int|
                0 <= j < libs.len() && spec_required_for((#[trigger] libs[j]).rules@, host)
                    ==> libs[j].spec_check(at, host, disk) is Ok,
        ensures
            Self::spec_lib_failures(libs, flags, use_flags, at, host, disk, upto) == Ok::<
                Seq<(int, Error)>,
                Error,
            >(Seq::empty()),
        decreases upto,
    {
        if upto > 0 {
            Self::lemma_clean_disk_no_lib_failures(libs, flags, use_flags, at, host, disk, upto - 1);
        }
    }
}


impl Clone for Library {
    fn clone(&self) -> (r: Library) {
        Library {
            name: self.name.clone(),
            downloads: LibraryDownloads {
                artifact: self.downloads.artifact.clone(),
                classifiers: self.downloads.classifiers.clone(),
            },
            natives: self.natives.clone(),
            extract: match &self.extract {
                Some(e) => Some(e.clone()),
                None => None,
            },
            rules: self.rules.clone(),
        }
    }
}

impl Clone for Manifest {
    /// The clone keeps the identity and dependency data the resolver's
    /// snapshot contract speaks of: UID, version, names, requirements and
    /// the asset index id.
    fn clone(&self) -> (r: Manifest)
        ensures
            r.uid@ == self.uid@,
            r.version@ == self.version@,
            r.name@ == self.name@,
            r.order == self.order,
            r.release_time@ == self.release_time@,
            r.release_type@ == self.release_type@,
            r.main_class is Some <==> self.main_class is Some,
            (match (r.main_class, self.main_class) {
                (Some(a), Some(b)) => a@ == b@,
                (None, None) => true,
                _ => false,
            }),
            r.requires@.len() == self.requires@.len(),
            forall|j: int|
                0 <= j < self.requires@.len() ==> (#[trigger] r.requires@[j]).uid@
                    == self.requires@[j].uid@ && r.requires@[j].spec_version()
                    == self.requires@[j].spec_version(),
            r.asset_index is Some <==> self.asset_index is Some,
            (match (r.asset_index, self.asset_index) {
                (Some(a), Some(b)) => a.id@ == b.id@ && a.sha1@ == b.sha1@ && a.url@ == b.url@,
                (None, None) => true,
                _ => false,
            }),
            r.traits@.len() == self.traits@.len(),
            forall|j: int|
                0 <= j < self.traits@.len() ==> (#[trigger] r.traits@[j])@ == self.traits@[j]@,
            r.libraries@.len() == self.libraries@.len(),
            r.main_jar is Some <==> self.main_jar is Some,
    {
        let mut reqs: Vec<Requirement> = Vec::new();
        let mut i: usize = 0;
        while i < self.requires.len()
            invariant
                i <= self.requires@.len(),
                reqs@.len() == i,
                forall|j: int|
                    0 <= j < i ==> (#[trigger] reqs@[j]).uid@ == self.requires@[j].uid@
                        && reqs@[j].spec_version() == self.requires@[j].spec_version(),
            decreases self.requires@.len() - i,
        {
            reqs.push(self.requires[i].clone());
            i += 1;
        }
        let mut traits: Vec<String> = Vec::new();
        let mut t: usize = 0;
        while t < self.traits.len()
            invariant
                t <= self.traits@.len(),
                traits@.len() == t,
                forall|j: int| 0 <= j < t ==> (#[trigger] traits@[j])@ == self.traits@[j]@,
            decreases self.traits@.len() - t,
        {
            traits.push(self.traits[t].clone());
            t += 1;
        }
        let asset_index = match &self.asset_index {
            Some(info) => Some(
                (crate::asset::AssetIndexInfo {
                    id: info.id.clone(),
                    sha1: info.sha1.clone(),
                    size: info.size,
                    total_size: info.total_size,
                    url: info.url.clone(),
                    cache: None,
                }),
            ),
            None => None,
        };
        Manifest {
            traits,
            asset_index,
            libraries: self.libraries.clone(),
            main_class: match &self.main_class {
                Some(c) => Some(c.clone()),
                None => None,
            },
            main_jar: match &self.main_jar {
                Some(j) => Some(j.clone()),
                None => None,
            },
            minecraft_arguments: match &self.minecraft_arguments {
                Some(a) => Some(a.clone()),
                None => None,
            },
            name: self.name.clone(),
            order: self.order,
            release_time: self.release_time.clone(),
            requires: reqs,
            release_type: self.release_type.clone(),
            uid: self.uid.clone(),
            version: self.version.clone(),
            libs_verified: self.libs_verified.clone(),
            main_jar_verified: self.main_jar_verified,
        }
    }
}

} // verus!
