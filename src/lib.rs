//! Turns a library's in-source unit tests into a standalone harness unit, and
//! resolves the manifest of the package that builds that unit.
//!
//! - `extract`: the narrow pattern that marks a test function, and the scanner
//!   that takes test functions out of a source text; `extract_laws` proves
//!   that it finds exactly the functions of that shape.
//! - `harness`: assembles the harness unit from a prelude, the tests and the
//!   export shim.
//! - `staleness`: decides from modification times whether the unit must be
//!   generated again.
//! - `json`, `origin`, `resolve`, `manifest`: read the package manager's
//!   reports, classify where each dependency comes from, and write the
//!   manifest of the harness package.
//!
//! Reading files, walking directories and running the package manager are
//! left to the caller, which hands the library plain values.

pub mod error;
pub mod extract;
pub mod extract_laws;
pub mod harness;
pub mod json;
pub mod manifest;
pub mod origin;
pub mod resolve;
pub mod staleness;
pub mod text;

pub use error::BuildError;
pub use extract::{ExtractedTest, extract_tests};
pub use harness::{TestModule, harness_unit};
pub use json::Json;
pub use manifest::{Config, Dependency};
pub use origin::DependencySource;
pub use resolve::{
    DeclaredManifest, DevDep, filter_result, read_deps_metadata, read_dev_dep, read_dev_deps,
    read_manifest, resolve_config,
};
pub use staleness::{FileTime, has_rs_ext, modified_more_recently, should_build};
