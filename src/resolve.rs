use vstd::prelude::*;
use crate::error::BuildError;
use crate::json::{Json, get, get_of};
use crate::text::str_eq;
use crate::manifest::{Config, DepModel, Dependency, deps_view, first_repeat, first_unplain};
use crate::origin::{DependencySource, SourceModel, source_of_package};

verus! {

/// A test-only dependency as the original crate declares it: its name and
/// its version requirement.
#[derive(Debug, PartialEq, Eq)]
pub struct DevDep {
    pub name: String,
    pub req: String,
}

/// A test-only dependency as the contracts see it.
pub struct DevDepModel {
    pub name: Seq<char>,
    pub req: Seq<char>,
}

impl View for DevDep {
    type V = DevDepModel;

    open spec fn view(&self) -> DevDepModel {
        DevDepModel { name: self.name@, req: self.req@ }
    }
}

/// Turns a result that may hold nothing into nothing or a result.
pub fn filter_result<T, E>(res: Result<Option<T>, E>) -> (r: Option<Result<T, E>>)
    ensures
        match res {
            Ok(Some(t)) => r == Some(Ok::<T, E>(t)),
            Ok(None) => r is None,
            Err(e) => r == Some(Err::<T, E>(e)),
        },
{
    match res {
        Ok(Some(t)) => Some(Ok(t)),
        Ok(None) => None,
        Err(e) => Some(Err(e)),
    }
}

/// The declared requirement, `*` where none is given.
pub open spec fn req_of(dep: Json) -> Seq<char> {
    match get(dep, "req"@) {
        Some(Json::Str(r)) => r@,
        _ => "*"@,
    }
}

/// What one declared dependency yields: its name and requirement where its
/// `kind` is `dev`; nothing where the kind is absent, null or another string.
pub open spec fn dev_dep_of(dep: Json) -> Result<Option<DevDepModel>, BuildError> {
    match dep {
        Json::Object(_) => match get(dep, "kind"@) {
            Some(Json::Str(k)) => if k@ == "dev"@ {
                match get(dep, "name"@) {
                    Some(Json::Str(n)) => Ok(Some(DevDepModel { name: n@, req: req_of(dep) })),
                    Some(_) => Err(BuildError::NameNotString),
                    None => Err(BuildError::MissingName),
                }
            } else {
                Ok(None)
            },
            Some(Json::Null) => Ok(None),
            None => Ok(None),
            Some(_) => Err(BuildError::KindNotString),
        },
        _ => Err(BuildError::DependencyNotObject),
    }
}

/// The test-only dependencies of a declared list, in order; the first error
/// met, if any.
pub open spec fn dev_deps_of(deps: Seq<Json>) -> Result<Seq<DevDepModel>, BuildError>
    decreases deps.len(),
{
    if deps.len() == 0 {
        Ok(Seq::empty())
    } else {
        match dev_dep_of(deps[0]) {
            Err(e) => Err(e),
            Ok(first) => match dev_deps_of(deps.drop_first()) {
                Err(e) => Err(e),
                Ok(rest) => match first {
                    Some(d) => Ok(seq![d] + rest),
                    None => Ok(rest),
                },
            },
        }
    }
}

/// `acc` followed by what `r` holds, or the error of `r`.
pub open spec fn prepend<T>(acc: Seq<T>, r: Result<Seq<T>, BuildError>) -> Result<Seq<T>, BuildError> {
    match r {
        Ok(rest) => Ok(acc + rest),
        Err(e) => Err(e),
    }
}

/// Reads one declared dependency of the crate's manifest.
pub fn read_dev_dep(dep: &Json) -> (r: Result<Option<DevDep>, BuildError>)
    ensures
        match dev_dep_of(*dep) {
            Ok(Some(m)) => r matches Ok(Some(d)) && d@ == m,
            Ok(None) => r matches Ok(None),
            Err(e) => r == Err::<Option<DevDep>, BuildError>(e),
        },
{
    match dep {
        Json::Object(_) => {},
        _ => {
            return Err(BuildError::DependencyNotObject);
        },
    }
    match get_of(dep, "kind") {
        Some(Json::Str(k)) => {
            if !str_eq(k.as_str(), "dev") {
                return Ok(None);
            }
        },
        Some(Json::Null) => {
            return Ok(None);
        },
        None => {
            return Ok(None);
        },
        Some(_) => {
            return Err(BuildError::KindNotString);
        },
    }
    let req = match get_of(dep, "req") {
        Some(Json::Str(r)) => r.clone(),
        _ => String::from_str("*"),
    };
    match get_of(dep, "name") {
        Some(Json::Str(n)) => Ok(Some(DevDep { name: n.clone(), req })),
        Some(_) => Err(BuildError::NameNotString),
        None => Err(BuildError::MissingName),
    }
}

/// Reads the test-only dependencies of a declared list, in order.
pub fn read_dev_deps(deps: &Vec<Json>) -> (r: Result<Vec<DevDep>, BuildError>)
    ensures
        match dev_deps_of(deps@) {
            Ok(ms) => r matches Ok(v) && v@.map_values(|d: DevDep| d@) == ms,
            Err(e) => r == Err::<Vec<DevDep>, BuildError>(e),
        },
{
    let mut out: Vec<DevDep> = Vec::new();
    let mut i: usize = 0;
    assert(deps@.subrange(0, deps@.len() as int) =~= deps@);
    while i < deps.len()
        invariant
            i <= deps@.len(),
            dev_deps_of(deps@) == prepend(
                out@.map_values(|d: DevDep| d@),
                dev_deps_of(deps@.subrange(i as int, deps@.len() as int)),
            ),
        decreases deps@.len() - i,
    {
        let ghost rest = deps@.subrange(i as int, deps@.len() as int);
        assert(rest.drop_first() =~= deps@.subrange(i + 1, deps@.len() as int));
        assert(rest[0] == deps@[i as int]);
        let ghost before = out@.map_values(|d: DevDep| d@);
        match filter_result(read_dev_dep(&deps[i])) {
            Some(Ok(d)) => {
                out.push(d);
                proof {
                    assert(out@.map_values(|d: DevDep| d@) =~= before + seq![d@]);
                    match dev_deps_of(rest.drop_first()) {
                        Ok(tail) => {
                            assert(before + (seq![d@] + tail) =~= (before + seq![d@]) + tail);
                        },
                        Err(_) => {},
                    }
                }
            },
            Some(Err(e)) => {
                return Err(e);
            },
            None => {},
        }
        i = i + 1;
    }
    proof {
        assert(deps@.subrange(i as int, deps@.len() as int) =~= Seq::<Json>::empty());
        assert(out@.map_values(|d: DevDep| d@) + Seq::<DevDepModel>::empty() =~= out@.map_values(
            |d: DevDep| d@,
        ));
    }
    Ok(out)
}

/// The declared dependencies of a manifest: the array under `dependencies`,
/// or none where there is no array.
pub open spec fn declared_deps(manifest: Json) -> Seq<Json> {
    match get(manifest, "dependencies"@) {
        Some(Json::Array(a)) => a@,
        _ => Seq::empty(),
    }
}

/// What the declared manifest yields: the crate itself, as a dependency on
/// its own directory, and its test-only dependencies.
pub open spec fn manifest_of(manifest: Json, crate_dir: Seq<char>) -> Result<
    (DepModel, Seq<DevDepModel>),
    BuildError,
> {
    match manifest {
        Json::Object(_) => match get(manifest, "name"@) {
            Some(Json::Str(n)) => match dev_deps_of(declared_deps(manifest)) {
                Ok(ds) => Ok(
                    (
                        DepModel {
                            name: n@,
                            source: SourceModel::Local(crate_dir),
                            features: Seq::empty(),
                        },
                        ds,
                    ),
                ),
                Err(e) => Err(e),
            },
            _ => Err(BuildError::ManifestMissingName),
        },
        _ => Err(BuildError::ManifestNotObject),
    }
}

/// The declared manifest of the original crate, read.
pub struct DeclaredManifest {
    pub crate_dep: Dependency,
    pub dev_deps: Vec<DevDep>,
}

impl DeclaredManifest {
    /// Whether resolving it needs the package graph: only test-only
    /// dependencies are looked up there.
    pub fn needs_metadata(&self) -> (r: bool)
        ensures
            r == (self.dev_deps@.len() > 0),
    {
        self.dev_deps.len() > 0
    }
}

/// Reads the manifest that the package manager reports for the crate in
/// `crate_dir`.
pub fn read_manifest(manifest: &Json, crate_dir: &str) -> (r: Result<DeclaredManifest, BuildError>)
    ensures
        match manifest_of(*manifest, crate_dir@) {
            Ok((c, ds)) => r matches Ok(m) && m.crate_dep@ == c && m.dev_deps@.map_values(
                |d: DevDep| d@,
            ) == ds,
            Err(e) => r == Err::<DeclaredManifest, BuildError>(e),
        },
{
    match manifest {
        Json::Object(_) => {},
        _ => {
            return Err(BuildError::ManifestNotObject);
        },
    }
    let name = match get_of(manifest, "name") {
        Some(Json::Str(n)) => n.clone(),
        _ => {
            return Err(BuildError::ManifestMissingName);
        },
    };
    let crate_dep = Dependency {
        name,
        source: DependencySource::Local(String::from_str(crate_dir)),
        features: Vec::new(),
    };
    assert(crate_dep@.features =~= Seq::<Seq<char>>::empty());
    let empty: Vec<Json> = Vec::new();
    let deps = match get_of(manifest, "dependencies") {
        Some(Json::Array(a)) => a,
        _ => &empty,
    };
    assert(deps@ == declared_deps(*manifest));
    match read_dev_deps(deps) {
        Ok(dev_deps) => Ok(DeclaredManifest { crate_dep, dev_deps }),
        Err(e) => Err(e),
    }
}

/// The position of the first `n` in `names`; `names.len()` if there is none.
pub open spec fn position(names: Seq<Seq<char>>, n: Seq<char>) -> int
    decreases names.len(),
{
    if names.len() == 0 {
        0
    } else if names[0] == n {
        0
    } else {
        1 + position(names.drop_first(), n)
    }
}

proof fn lemma_position(names: Seq<Seq<char>>, n: Seq<char>)
    ensures
        0 <= position(names, n) <= names.len(),
        position(names, n) < names.len() ==> names[position(names, n)] == n,
        forall|k: int| 0 <= k < position(names, n) ==> names[k] != n,
    decreases names.len(),
{
    if names.len() > 0 && names[0] != n {
        lemma_position(names.drop_first(), n);
        assert forall|k: int| 0 <= k < position(names, n) implies names[k] != n by {
            if k > 0 {
                assert(names[k] == names.drop_first()[k - 1]);
            }
        }
    }
}

/// The dependencies that the packages of the graph resolve, in the order of
/// the packages: a package whose name is still wanted resolves it (and that
/// name is then no longer wanted), by its source; other packages are passed
/// over. The first error met, if any.
pub open spec fn resolve_packages(packages: Seq<Json>, wanted: Seq<Seq<char>>) -> Result<
    Seq<DepModel>,
    BuildError,
>
    decreases packages.len(),
{
    if packages.len() == 0 {
        Ok(Seq::empty())
    } else {
        let p = packages[0];
        match get(p, "name"@) {
            Some(Json::Str(n)) => {
                let i = position(wanted, n@);
                if i < wanted.len() {
                    match source_of_package(p) {
                        Ok(s) => prepend(
                            seq![DepModel { name: n@, source: s, features: Seq::empty() }],
                            resolve_packages(packages.drop_first(), wanted.remove(i)),
                        ),
                        Err(e) => Err(e),
                    }
                } else {
                    resolve_packages(packages.drop_first(), wanted)
                }
            },
            _ => Err(BuildError::PackageMissingName),
        }
    }
}

/// What a package graph resolves for the wanted names: nothing where no name
/// is wanted; otherwise the resolution of its `packages`.
pub open spec fn deps_of_metadata(metadata: Json, wanted: Seq<Seq<char>>) -> Result<
    Seq<DepModel>,
    BuildError,
> {
    if wanted.len() == 0 {
        Ok(Seq::empty())
    } else {
        match metadata {
            Json::Object(_) => match get(metadata, "packages"@) {
                Some(Json::Array(a)) => resolve_packages(a@, wanted),
                _ => Err(BuildError::MetadataMissingPackages),
            },
            _ => Err(BuildError::MetadataNotObject),
        }
    }
}

/// The names, as the contracts see them.
pub open spec fn names_view(names: Seq<String>) -> Seq<Seq<char>> {
    names.map_values(|n: String| n@)
}

/// Resolves one package of the graph against the names still wanted.
fn read_package(package: &Json, dev_deps: &mut Vec<String>) -> (r: Result<Option<Dependency>, BuildError>)
    ensures
        match get(*package, "name"@) {
            Some(Json::Str(n)) => {
                let i = position(names_view(old(dev_deps)@), n@);
                if i < old(dev_deps)@.len() {
                    &&& names_view(final(dev_deps)@) == names_view(old(dev_deps)@).remove(i)
                    &&& match source_of_package(*package) {
                        Ok(s) => r matches Ok(Some(d)) && d@ == (DepModel {
                            name: n@,
                            source: s,
                            features: Seq::empty(),
                        }),
                        Err(e) => r == Err::<Option<Dependency>, BuildError>(e),
                    }
                } else {
                    &&& final(dev_deps)@ == old(dev_deps)@
                    &&& r matches Ok(None)
                }
            },
            _ => final(dev_deps)@ == old(dev_deps)@ && r == Err::<Option<Dependency>, BuildError>(
                BuildError::PackageMissingName,
            ),
        },
{
    let name = match get_of(package, "name") {
        Some(Json::Str(n)) => n,
        _ => {
            return Err(BuildError::PackageMissingName);
        },
    };
    let ghost names = names_view(dev_deps@);
    proof {
        lemma_position(names, name@);
    }
    let mut i: usize = 0;
    while i < dev_deps.len() && !(dev_deps[i] == *name)
        invariant
            i <= dev_deps@.len(),
            names == names_view(dev_deps@),
            forall|k: int| 0 <= k < i ==> names[k] != name@,
            0 <= position(names, name@) <= names.len(),
            position(names, name@) < names.len() ==> names[position(names, name@)] == name@,
            forall|k: int| 0 <= k < position(names, name@) ==> names[k] != name@,
        decreases dev_deps@.len() - i,
    {
        i = i + 1;
    }
    if i == dev_deps.len() {
        return Ok(None);
    }
    assert(names[i as int] == name@);
    assert(i == position(names, name@));
    let found = dev_deps.remove(i);
    proof {
        assert(names_view(dev_deps@) =~= names.remove(i as int));
    }
    match DependencySource::from_metadata(package) {
        Ok(source) => {
            let d = Dependency { name: found, source, features: Vec::new() };
            assert(d@.features =~= Seq::<Seq<char>>::empty());
            Ok(Some(d))
        },
        Err(e) => Err(e),
    }
}

/// Looks the test-only dependencies up in the package graph that the
/// package manager reports, and resolves the source of each one found. A name
/// that no package holds is passed over; where none is wanted the graph is
/// not read at all.
pub fn read_deps_metadata(metadata: &Json, dev_deps: &Vec<DevDep>) -> (r: Result<Vec<Dependency>, BuildError>)
    ensures
        match deps_of_metadata(*metadata, dev_deps@.map_values(|d: DevDep| d.name@)) {
            Ok(ds) => r matches Ok(v) && deps_view(v@) == ds,
            Err(e) => r == Err::<Vec<Dependency>, BuildError>(e),
        },
{
    let ghost wanted = dev_deps@.map_values(|d: DevDep| d.name@);
    if dev_deps.len() == 0 {
        return Ok(Vec::new());
    }
    match metadata {
        Json::Object(_) => {},
        _ => {
            return Err(BuildError::MetadataNotObject);
        },
    }
    let packages = match get_of(metadata, "packages") {
        Some(Json::Array(a)) => a,
        _ => {
            return Err(BuildError::MetadataMissingPackages);
        },
    };
    let mut remaining: Vec<String> = Vec::new();
    let mut k: usize = 0;
    while k < dev_deps.len()
        invariant
            k <= dev_deps@.len(),
            wanted == dev_deps@.map_values(|d: DevDep| d.name@),
            names_view(remaining@) == wanted.take(k as int),
        decreases dev_deps@.len() - k,
    {
        let ghost before = remaining@;
        remaining.push(dev_deps[k].name.clone());
        assert(remaining@ == before.push(dev_deps@[k as int].name));
        assert(wanted[k as int] == dev_deps@[k as int].name@);
        assert(names_view(remaining@) =~= names_view(before).push(dev_deps@[k as int].name@));
        assert(wanted.take(k + 1) =~= wanted.take(k as int).push(wanted[k as int]));
        k = k + 1;
    }
    assert(wanted.take(k as int) =~= wanted);
    let mut out: Vec<Dependency> = Vec::new();
    let mut i: usize = 0;
    assert(packages@.subrange(0, packages@.len() as int) =~= packages@);
    assert(deps_view(out@) + Seq::<DepModel>::empty() =~= Seq::<DepModel>::empty());
    while i < packages.len()
        invariant
            i <= packages@.len(),
            wanted == dev_deps@.map_values(|d: DevDep| d.name@),
            deps_of_metadata(*metadata, wanted) == resolve_packages(packages@, wanted),
            resolve_packages(packages@, wanted) == prepend(
                deps_view(out@),
                resolve_packages(
                    packages@.subrange(i as int, packages@.len() as int),
                    names_view(remaining@),
                ),
            ),
        decreases packages@.len() - i,
    {
        let ghost rest = packages@.subrange(i as int, packages@.len() as int);
        let ghost before = deps_view(out@);
        let ghost w = names_view(remaining@);
        assert(rest.drop_first() =~= packages@.subrange(i + 1, packages@.len() as int));
        assert(rest[0] == packages@[i as int]);
        match filter_result(read_package(&packages[i], &mut remaining)) {
            Some(Ok(d)) => {
                out.push(d);
                proof {
                    assert(deps_view(out@) =~= before + seq![d@]);
                    match resolve_packages(rest.drop_first(), names_view(remaining@)) {
                        Ok(tail) => {
                            assert(before + (seq![d@] + tail) =~= (before + seq![d@]) + tail);
                        },
                        Err(_) => {},
                    }
                }
            },
            Some(Err(e)) => {
                return Err(e);
            },
            None => {
                assert(names_view(remaining@) == w);
            },
        }
        i = i + 1;
    }
    proof {
        assert(packages@.subrange(i as int, packages@.len() as int) =~= Seq::<Json>::empty());
        assert(deps_view(out@) + Seq::<DepModel>::empty() =~= deps_view(out@));
    }
    Ok(out)
}

/// The dependencies that a resolution yields: the original crate first, then
/// the test-only dependencies found in the graph.
pub open spec fn all_deps(declared: DeclaredManifest, metadata: Option<&Json>) -> Result<
    Seq<DepModel>,
    BuildError,
> {
    let graph = match metadata {
        Some(m) => *m,
        None => Json::Null,
    };
    match deps_of_metadata(graph, declared.dev_deps@.map_values(|d: DevDep| d.name@)) {
        Ok(ds) => Ok(seq![declared.crate_dep@] + ds),
        Err(e) => Err(e),
    }
}

/// Resolves the test-only dependencies of a declared manifest against the
/// package graph, which is needed only where there are some, and composes the
/// manifest of the harness package. A name that two dependencies would share
/// is refused.
pub fn resolve_config(declared: DeclaredManifest, metadata: Option<&Json>) -> (r: Result<Config, BuildError>)
    requires
        declared.dev_deps@.len() > 0 ==> metadata is Some,
    ensures
        match all_deps(declared, metadata) {
            Ok(all) => {
                let names = all.map_values(|d: DepModel| d.name);
                if first_unplain(names) < names.len() {
                    r matches Err(BuildError::UnsupportedName(n)) && n@ == names[first_unplain(names)]
                } else {
                    match first_repeat(names) {
                        Some(j) => r matches Err(BuildError::DuplicateDependency(n)) && n@ == all[j].name,
                        None => r matches Ok(c) && c.deps() == all && c.wf(),
                    }
                }
            },
            Err(e) => r == Err::<Config, BuildError>(e),
        },
{
    let ghost graph = match metadata {
        Some(m) => *m,
        None => Json::Null,
    };
    let deps = if declared.dev_deps.len() == 0 {
        Vec::new()
    } else {
        let m = metadata.unwrap();
        match read_deps_metadata(m, &declared.dev_deps) {
            Ok(v) => v,
            Err(e) => {
                return Err(e);
            },
        }
    };
    assert(deps_view(deps@) == deps_of_metadata(graph, declared.dev_deps@.map_values(|d: DevDep| d.name@))->Ok_0) by {
        if declared.dev_deps@.len() == 0 {
            assert(deps_view(deps@) =~= Seq::<DepModel>::empty());
        }
    }
    let ghost crate_dep = declared.crate_dep;
    let r = Config::new(declared.crate_dep, deps);
    proof {
        let all = seq![crate_dep] + deps@;
        assert(deps_view(all) =~= seq![crate_dep@] + deps_view(deps@));
        let names = deps_view(all).map_values(|d: DepModel| d.name);
        crate::manifest::lemma_first_unplain(names);
        if first_unplain(names) < names.len() {
            assert(deps_view(all)[first_unplain(names)].name == all[first_unplain(names)].name@);
        }
        match first_repeat(deps_view(all).map_values(|d: DepModel| d.name)) {
            Some(j) => {
                crate::manifest::lemma_first_repeat_range(deps_view(all).map_values(|d: DepModel| d.name));
                assert(deps_view(all)[j].name == all[j].name@);
            },
            None => {},
        }
    }
    r
}

} // verus!
