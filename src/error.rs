use vstd::prelude::*;

verus! {

/// Why the manifest of the harness package could not be resolved.
#[derive(Debug, PartialEq, Eq)]
pub enum BuildError {
    /// The declared manifest is not a JSON object.
    ManifestNotObject,
    /// The declared manifest has no string under `name`.
    ManifestMissingName,
    /// A declared dependency is not a JSON object.
    DependencyNotObject,
    /// A declared dependency has a `kind` that is neither a string nor null.
    KindNotString,
    /// A test-only dependency has no `name`.
    MissingName,
    /// A test-only dependency has a `name` that is not a string.
    NameNotString,
    /// The package graph is not a JSON object.
    MetadataNotObject,
    /// The package graph has no array under `packages`.
    MetadataMissingPackages,
    /// A package of the graph is not a JSON object.
    PackageNotObject,
    /// A package of the graph has no string under `name`.
    PackageMissingName,
    /// A package of the graph has no string under `id`.
    PackageMissingId,
    /// A package id whose source is neither a local path nor the registry.
    UnsupportedSource(String),
    /// A dependency name that holds a `"`, a `\` or a control character, which
    /// no package manager allows and which the manifest does not write as a
    /// key.
    UnsupportedName(String),
    /// A name that two dependencies of the manifest would share.
    DuplicateDependency(String),
}

} // verus!
