use vstd::prelude::*;
use crate::error::BuildError;
use crate::json::{Json, get, get_of};
use crate::text::{chars_of, find, first_occurrence, lemma_first_occurrence};

verus! {

/// Where a dependency comes from: a directory on this machine, or a version
/// of the registry.
#[derive(Debug, PartialEq, Eq)]
pub enum DependencySource {
    Local(String),
    Remote(String),
}

/// A source as the contracts see it.
pub enum SourceModel {
    Local(Seq<char>),
    Remote(Seq<char>),
}

impl View for DependencySource {
    type V = SourceModel;

    open spec fn view(&self) -> SourceModel {
        match self {
            DependencySource::Local(p) => SourceModel::Local(p@),
            DependencySource::Remote(v) => SourceModel::Remote(v@),
        }
    }
}

/// What opens the source of a package in a local directory.
pub open spec fn local_marker() -> Seq<char> {
    "(path+file://"@
}

/// What ends the id of a package of the registry.
pub open spec fn registry_suffix() -> Seq<char> {
    " (registry+https://github.com/rust-lang/crates.io-index)"@
}

/// The name of a package's manifest file, with the separator before it.
pub open spec fn manifest_file() -> Seq<char> {
    "/Cargo.toml"@
}

/// The path of a local package's id: what stands between the first
/// `(path+file://` and the `)` that ends the id.
pub open spec fn local_path(id: Seq<char>) -> Option<Seq<char>> {
    let i = first_occurrence(id, local_marker(), 0);
    if id.len() > 0 && id.last() == ')' && i + local_marker().len() < id.len() {
        Some(id.subrange(i + local_marker().len(), id.len() - 1))
    } else {
        None
    }
}

/// The directory of a package, from the path in its id: the path without a
/// trailing manifest file name.
pub open spec fn package_root(path: Seq<char>) -> Seq<char> {
    let n = manifest_file().len();
    if path.len() >= n && path.subrange(path.len() - n, path.len() as int) == manifest_file() {
        path.subrange(0, path.len() - n)
    } else {
        path
    }
}

/// The version of a registry package's id `<name> <version> (registry+...)`:
/// what follows the first space, up to the source.
pub open spec fn registry_version(id: Seq<char>) -> Option<Seq<char>> {
    let n = registry_suffix().len();
    if id.len() >= n && id.subrange(id.len() - n, id.len() as int) == registry_suffix() {
        let rest = id.subrange(0, id.len() - n);
        let sp = first_occurrence(rest, " "@, 0);
        if sp + 1 < rest.len() {
            Some(rest.subrange(sp + 1, rest.len() as int))
        } else {
            None
        }
    } else {
        None
    }
}

/// The source that a package id names, where it names one: a local path is
/// recognised first, then a version of the registry.
pub open spec fn source_of_id(id: Seq<char>) -> Option<SourceModel> {
    match local_path(id) {
        Some(p) => Some(SourceModel::Local(package_root(p))),
        None => match registry_version(id) {
            Some(v) => Some(SourceModel::Remote(v)),
            None => None,
        },
    }
}

/// The source of a package, from its id.
pub open spec fn source_of_package(package: Json) -> Result<SourceModel, BuildError> {
    match package {
        Json::Object(_) => match get(package, "id"@) {
            Some(Json::Str(id)) => match source_of_id(id@) {
                Some(s) => Ok(s),
                None => Err(BuildError::UnsupportedSource(id)),
            },
            _ => Err(BuildError::PackageMissingId),
        },
        _ => Err(BuildError::PackageNotObject),
    }
}

/// Whether the last characters of `t` are `w`.
fn ends_with(t: &Vec<char>, w: &Vec<char>) -> (r: bool)
    ensures
        r == (t@.len() >= w@.len() && t@.subrange(t@.len() - w@.len(), t@.len() as int) == w@),
{
    if w.len() > t.len() {
        return false;
    }
    let n = t.len();
    let start = n - w.len();
    let mut k: usize = 0;
    while k < w.len()
        invariant
            n == t@.len(),
            start + w@.len() == n,
            k <= w@.len(),
            forall|j: int| 0 <= j < k ==> t@[start + j] == w@[j],
        decreases w@.len() - k,
    {
        if t[start + k] != w[k] {
            assert(t@.subrange(start as int, t@.len() as int)[k as int] != w@[k as int]);
            return false;
        }
        k = k + 1;
    }
    assert(t@.subrange(start as int, t@.len() as int) =~= w@);
    true
}

impl DependencySource {
    /// Classifies a package id. `name version (path+file://<path>)` is a
    /// local package whose directory is `<path>` without its trailing
    /// `/Cargo.toml`; `name version (registry+https://github.com/rust-lang/crates.io-index)`
    /// is that version of the registry. Any other id is refused.
    pub fn from_id(id: &String) -> (r: Result<DependencySource, BuildError>)
        ensures
            match source_of_id(id@) {
                Some(s) => r matches Ok(d) && d@ == s,
                None => r == Err::<DependencySource, BuildError>(BuildError::UnsupportedSource(*id)),
            },
    {
        let t = chars_of(id.as_str());
        let n = t.len();
        let marker = chars_of("(path+file://");
        let i = find(&t, marker.as_slice());
        proof {
            lemma_first_occurrence(t@, marker@, 0);
        }
        if n > 0 && t[n - 1] == ')' && i < n && n - i > marker.len() {
            let path = chars_of(id.substring_char(i + marker.len(), n - 1));
            let manifest = chars_of("/Cargo.toml");
            let root_end = if ends_with(&path, &manifest) {
                path.len() - manifest.len()
            } else {
                path.len()
            };
            let root = id.substring_char(i + marker.len(), i + marker.len() + root_end).to_owned();
            proof {
                let p = id@.subrange(i + marker@.len(), n - 1);
                assert(path@ == p);
                assert(root@ =~= package_root(p));
            }
            return Ok(DependencySource::Local(root));
        }
        let suffix = chars_of(" (registry+https://github.com/rust-lang/crates.io-index)");
        if ends_with(&t, &suffix) {
            let rest_len = n - suffix.len();
            let rest = chars_of(id.substring_char(0, rest_len));
            let space = chars_of(" ");
            let sp = find(&rest, space.as_slice());
            proof {
                lemma_first_occurrence(rest@, space@, 0);
            }
            if sp < rest_len && rest_len - sp > 1 {
                let version = id.substring_char(sp + 1, rest_len).to_owned();
                proof {
                    assert(rest@ == id@.subrange(0, rest_len as int));
                    assert(version@ =~= rest@.subrange(sp + 1, rest@.len() as int));
                }
                return Ok(DependencySource::Remote(version));
            }
        }
        Err(BuildError::UnsupportedSource(id.clone()))
    }

    /// The source of a package of the package graph, classified by its `id`.
    pub fn from_metadata(package: &Json) -> (r: Result<DependencySource, BuildError>)
        ensures
            match source_of_package(*package) {
                Ok(s) => r matches Ok(d) && d@ == s,
                Err(e) => r == Err::<DependencySource, BuildError>(e),
            },
    {
        match package {
            Json::Object(_) => {},
            _ => {
                return Err(BuildError::PackageNotObject);
            },
        }
        match get_of(package, "id") {
            Some(Json::Str(id)) => DependencySource::from_id(id),
            _ => Err(BuildError::PackageMissingId),
        }
    }
}

} // verus!
