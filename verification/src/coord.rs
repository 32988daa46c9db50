//! Maven-style library coordinates and their filesystem layout.

use vstd::prelude::*;

use crate::error::Error;
use crate::strutil::{concat_with, count_char, join, split_str};

verus! {

/// `namespace` with every `.` replaced by `/`.
pub open spec fn slashed(s: Seq<char>) -> Seq<char> {
    s.map_values(|c: char| if c == '.' { '/' } else { c })
}

/// The view of `.jar` without relying on a revealed literal.
pub open spec fn jar_suffix() -> Seq<char> {
    seq!['.', 'j', 'a', 'r']
}

/// A Maven-style coordinate `namespace:name:version[:extra...]`.
#[derive(Debug)]
pub struct LibraryName {
    pub namespace: String,
    pub name: String,
    pub version: String,
    pub extra_versions: Vec<String>,
}

impl Clone for LibraryName {
    fn clone(&self) -> (r: LibraryName)
        ensures
            r.namespace == self.namespace,
            r.name == self.name,
            r.version == self.version,
            r.extra_versions@ == self.extra_versions@,
            r.components() == self.components(),
    {
        let mut extra_versions: Vec<String> = Vec::new();
        let mut i: usize = 0;
        while i < self.extra_versions.len()
            invariant
                i <= self.extra_versions@.len(),
                extra_versions@ =~= self.extra_versions@.subrange(0, i as int),
            decreases self.extra_versions@.len() - i,
        {
            extra_versions.push(self.extra_versions[i].clone());
            i += 1;
        }
        proof {
            assert(extra_versions@ =~= self.extra_versions@);
        }
        let r = LibraryName {
            namespace: self.namespace.clone(),
            name: self.name.clone(),
            version: self.version.clone(),
            extra_versions,
        };
        proof {
            assert(r.components() =~= self.components());
        }
        r
    }
}

impl LibraryName {
    /// The coordinate's parts in serialisation order.
    pub open spec fn components(&self) -> Seq<Seq<char>> {
        seq![self.namespace@, self.name@, self.version@] + self.extra_versions@.map_values(
            |v: String| v@,
        )
    }

    /// No part holds the separator, so rendering is unambiguous.
    pub open spec fn wf(&self) -> bool {
        forall|j: int|
            0 <= j < self.components().len() ==> count_char(#[trigger] self.components()[j], ':')
                == 0
    }

    /// The serialised form `namespace:name:version[:extra...]`.
    pub open spec fn spec_render(&self) -> Seq<char> {
        concat_with(self.components(), seq![':'])
    }

    /// The coordinate written in `s`.  Succeeds exactly when `s` has at
    /// least three `:`-separated parts; the result renders back as `s`
    /// (the coordinate round-trip law).
    pub fn from_str(s: &str) -> (r: Result<LibraryName, Error>)
        ensures
            r is Ok <==> count_char(s@, ':') >= 2,
            r matches Ok(n) ==> n.wf() && n.spec_render() == s@ && n.extra_versions@.len() + 2
                == count_char(s@, ':'),
            r is Err ==> r == Err::<LibraryName, Error>(Error::LibraryInvalidName),
    {
        let parts = split_str(s, ':');
        if parts.len() < 3 {
            return Err(Error::LibraryInvalidName);
        }
        let mut extra_versions: Vec<String> = Vec::new();
        let mut i: usize = 3;
        while i < parts.len()
            invariant
                3 <= i <= parts@.len(),
                extra_versions@ =~= parts@.subrange(3, i as int),
            decreases parts@.len() - i,
        {
            extra_versions.push(parts[i].clone());
            i += 1;
        }
        let n = LibraryName {
            namespace: parts[0].clone(),
            name: parts[1].clone(),
            version: parts[2].clone(),
            extra_versions,
        };
        proof {
            assert(n.extra_versions@ =~= parts@.subrange(3, parts@.len() as int));
            assert(n.components() =~= parts@.map_values(|p: String| p@));
            assert(n.spec_render() == s@);
        }
        Ok(n)
    }

    /// The serialised form `namespace:name:version[:extra...]`.
    pub fn to_string(&self) -> (r: String)
        ensures
            r@ == self.spec_render(),
    {
        let mut parts: Vec<String> = Vec::new();
        parts.push(self.namespace.clone());
        parts.push(self.name.clone());
        parts.push(self.version.clone());
        let mut i: usize = 0;
        while i < self.extra_versions.len()
            invariant
                i <= self.extra_versions@.len(),
                parts@.len() == 3 + i,
                parts@.map_values(|p: String| p@) =~= seq![
                    self.namespace@,
                    self.name@,
                    self.version@,
                ] + self.extra_versions@.subrange(0, i as int).map_values(|v: String| v@),
            decreases self.extra_versions@.len() - i,
        {
            parts.push(self.extra_versions[i].clone());
            i += 1;
            proof {
                assert(self.extra_versions@.subrange(0, i as int).map_values(|v: String| v@)
                    =~= self.extra_versions@.subrange(0, i - 1).map_values(|v: String| v@).push(
                    self.extra_versions@[i - 1]@,
                ));
                assert(parts@.map_values(|p: String| p@) =~= (seq![
                    self.namespace@,
                    self.name@,
                    self.version@,
                ] + self.extra_versions@.subrange(0, i - 1).map_values(|v: String| v@)).push(
                    self.extra_versions@[i - 1]@,
                ));
            }
        }
        let r = join(&parts, ":");
        proof {
            reveal_strlit(":");
            assert(":"@ =~= seq![':']);
            assert(self.extra_versions@.subrange(0, self.extra_versions@.len() as int)
                =~= self.extra_versions@);
            assert(parts@.map_values(|p: String| p@) =~= self.components());
        }
        r
    }

    /// `namespace` with dots slashed.
    fn slashed_namespace(&self) -> (r: String)
        ensures
            r@ == slashed(self.namespace@),
    {
        let s = self.namespace.as_str();
        let len = s.unicode_len();
        let mut r = String::new();
        let mut i: usize = 0;
        proof {
            assert(r@ =~= slashed(s@.subrange(0, 0)));
        }
        while i < len
            invariant
                i <= len,
                len == s@.len(),
                r@ == slashed(s@.subrange(0, i as int)),
            decreases len - i,
        {
            let c = s.get_char(i);
            if c == '.' {
                r.append("/");
            } else {
                r.append(s.substring_char(i, i + 1));
            }
            i += 1;
            proof {
                reveal_strlit("/");
                assert("/"@ =~= seq!['/']);
                assert(s@.subrange(i - 1, i as int) =~= seq![s@[i - 1]]);
                assert(slashed(s@.subrange(0, i as int)) =~= slashed(s@.subrange(0, i - 1)) + seq![
                    if s@[i - 1] == '.' {
                        '/'
                    } else {
                        s@[i - 1]
                    },
                ]);
            }
        }
        proof {
            assert(s@.subrange(0, len as int) =~= s@);
        }
        r
    }

    /// The directory that holds the coordinate's artifacts, under `path`:
    /// the slashed namespace, then the name, then the version.
    pub open spec fn spec_base_path(&self, path: Seq<char>) -> Seq<char> {
        let rel = slashed(self.namespace@) + seq!['/'] + self.name@ + seq!['/'] + self.version@;
        if path.len() == 0 {
            rel
        } else {
            path + seq!['/'] + rel
        }
    }

    /// The artifact file name `name-version[-extraJoined('-')][-classifier].jar`.
    pub open spec fn spec_file_name(&self, classifier: Option<Seq<char>>) -> Seq<char> {
        self.name@ + seq!['-'] + self.version@ + (if self.extra_versions@.len() > 0 {
            seq!['-'] + concat_with(self.extra_versions@.map_values(|v: String| v@), seq!['-'])
        } else {
            Seq::empty()
        }) + (match classifier {
            Some(c) => seq!['-'] + c,
            None => Seq::empty(),
        }) + jar_suffix()
    }

    /// The full path of the plain artifact under `path`.
    pub open spec fn spec_path(&self, path: Seq<char>) -> Seq<char> {
        self.spec_base_path(path) + seq!['/'] + self.spec_file_name(None)
    }

    /// The full path of the `natives` classifier artifact under `path`.
    pub open spec fn spec_path_natives(&self, path: Seq<char>, natives: Seq<char>) -> Seq<char> {
        self.spec_base_path(path) + seq!['/'] + self.spec_file_name(Some(natives))
    }

    /// The directory that holds the coordinate's artifacts, under `path`.
    pub fn base_path_at(&self, path: &str) -> (r: String)
        ensures
            r@ == self.spec_base_path(path@),
    {
        let mut r = String::new();
        if !path.is_empty() {
            r.append(path);
            r.append("/");
        }
        r.append(self.slashed_namespace().as_str());
        r.append("/");
        r.append(self.name.as_str());
        r.append("/");
        r.append(self.version.as_str());
        proof {
            reveal_strlit("/");
            assert("/"@ =~= seq!['/']);
            assert(r@ =~= self.spec_base_path(path@));
        }
        r
    }

    /// The artifact file name, with `-` joined extras and an optional
    /// classifier.
    fn file_name(&self, classifier: Option<&str>) -> (r: String)
        ensures
            r@ == self.spec_file_name(match classifier {
                Some(c) => Some(c@),
                None => None,
            }),
    {
        let mut r = String::new();
        r.append(self.name.as_str());
        r.append("-");
        r.append(self.version.as_str());
        if self.extra_versions.len() > 0 {
            r.append("-");
            r.append(join(&self.extra_versions, "-").as_str());
        }
        match classifier {
            Some(c) => {
                r.append("-");
                r.append(c);
            },
            None => {},
        }
        r.append(".jar");
        proof {
            reveal_strlit("-");
            reveal_strlit(".jar");
            assert("-"@ =~= seq!['-']);
            assert(".jar"@ =~= jar_suffix());
            assert(r@ =~= self.spec_file_name(match classifier {
                Some(c) => Some(c@),
                None => None,
            }));
        }
        r
    }

    /// The full path of the plain artifact under `path`.
    pub fn path_at(&self, path: &str) -> (r: String)
        ensures
            r@ == self.spec_path(path@),
    {
        let mut r = self.base_path_at(path);
        r.append("/");
        r.append(self.file_name(None).as_str());
        proof {
            reveal_strlit("/");
            assert("/"@ =~= seq!['/']);
            assert(r@ =~= self.spec_path(path@));
        }
        r
    }

    /// The full path of the `natives` classifier artifact under `path`.
    pub fn path_at_natives(&self, path: &str, natives: &str) -> (r: String)
        ensures
            r@ == self.spec_path_natives(path@, natives@),
    {
        let mut r = self.base_path_at(path);
        r.append("/");
        r.append(self.file_name(Some(natives)).as_str());
        proof {
            reveal_strlit("/");
            assert("/"@ =~= seq!['/']);
            assert(r@ =~= self.spec_path_natives(path@, natives@));
        }
        r
    }
}

/// Coordinate round-trip: what `from_str` ensures of its result and what
/// `to_string` ensures of its result combine into `parse(s).to_string() == s`
/// for every valid coordinate string.
pub proof fn lemma_coordinate_round_trip(s: Seq<char>, n: LibraryName, printed: Seq<char>)
    requires
        n.spec_render() == s,
        printed == n.spec_render(),
    ensures
        printed == s,
{
}

/// A bare package name and version pair.
#[derive(Debug)]
pub struct Package {
    pub name: String,
    pub version: String,
}

impl Clone for Package {
    fn clone(&self) -> (r: Package)
        ensures
            r == *self,
    {
        Package { name: self.name.clone(), version: self.version.clone() }
    }
}

impl Package {
    /// A package with the given name and version.
    pub fn new(name: &str, version: &str) -> (r: Package)
        ensures
            r.name@ == name@,
            r.version@ == version@,
    {
        Package { name: name.to_owned(), version: version.to_owned() }
    }
}

} // verus!
