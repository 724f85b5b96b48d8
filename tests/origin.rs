use rust_test_ios::{BuildError, DependencySource, Json};

fn classify(id: &str) -> Result<DependencySource, BuildError> {
    DependencySource::from_id(&id.to_string())
}

#[test]
fn local_id_gives_package_directory() {
    assert_eq!(
        classify("pkg 1.0.0 (path+file:///a/b/Cargo.toml)"),
        Ok(DependencySource::Local("/a/b".to_string()))
    );
}

#[test]
fn local_id_without_manifest_file_keeps_path() {
    assert_eq!(
        classify("pkg 0.1.0 (path+file:///home/me/pkg)"),
        Ok(DependencySource::Local("/home/me/pkg".to_string()))
    );
}

#[test]
fn registry_id_gives_version() {
    assert_eq!(
        classify("pkg 1.0.0 (registry+https://github.com/rust-lang/crates.io-index)"),
        Ok(DependencySource::Remote("1.0.0".to_string()))
    );
}

#[test]
fn other_ids_are_refused() {
    for id in [
        "pkg 1.0.0 (git+https://github.com/a/b#abc)",
        "pkg 1.0.0",
        "",
        "(registry+https://github.com/rust-lang/crates.io-index)",
        "pkg 1.0.0 (path+file:///a/b/Cargo.toml",
        "registry+https://github.com/rust-lang/crates.io-index",
    ] {
        assert_eq!(classify(id), Err(BuildError::UnsupportedSource(id.to_string())), "on {:?}", id);
    }
}

#[test]
fn package_without_id_is_refused() {
    let p = Json::Object(vec![("name".to_string(), Json::Str("x".to_string()))]);
    assert_eq!(DependencySource::from_metadata(&p), Err(BuildError::PackageMissingId));
    assert_eq!(DependencySource::from_metadata(&Json::Null), Err(BuildError::PackageNotObject));
}

#[test]
fn package_classified_by_its_id() {
    let p = Json::Object(vec![(
        "id".to_string(),
        Json::Str("serde 1.0.2 (registry+https://github.com/rust-lang/crates.io-index)".to_string()),
    )]);
    assert_eq!(
        DependencySource::from_metadata(&p),
        Ok(DependencySource::Remote("1.0.2".to_string()))
    );
}
