use rust_test_ios::{
    BuildError, DevDep, DependencySource, Json, filter_result, read_deps_metadata, read_dev_dep,
    read_manifest, resolve_config,
};

fn s(x: &str) -> Json {
    Json::Str(x.to_string())
}

fn obj(entries: Vec<(&str, Json)>) -> Json {
    Json::Object(entries.into_iter().map(|(k, v)| (k.to_string(), v)).collect())
}

fn dep(name: &str, kind: Option<Json>) -> Json {
    let mut e = vec![("name", s(name)), ("req", s("^1"))];
    if let Some(k) = kind {
        e.push(("kind", k));
    }
    obj(e)
}

fn package(name: &str, id: &str) -> Json {
    obj(vec![("name", s(name)), ("id", s(id))])
}

const REG: &str = "(registry+https://github.com/rust-lang/crates.io-index)";

fn dev(name: &str) -> DevDep {
    DevDep { name: name.to_string(), req: "*".to_string() }
}

#[test]
fn dev_kind_is_read() {
    assert_eq!(
        read_dev_dep(&dep("quickcheck", Some(s("dev")))),
        Ok(Some(DevDep { name: "quickcheck".to_string(), req: "^1".to_string() }))
    );
}

#[test]
fn requirement_defaults_to_any() {
    let d = obj(vec![("name", s("x")), ("kind", s("dev"))]);
    assert_eq!(read_dev_dep(&d), Ok(Some(dev("x"))));
}

#[test]
fn other_kinds_are_passed_over() {
    assert_eq!(read_dev_dep(&dep("a", None)), Ok(None));
    assert_eq!(read_dev_dep(&dep("a", Some(Json::Null))), Ok(None));
    assert_eq!(read_dev_dep(&dep("a", Some(s("build")))), Ok(None));
    assert_eq!(read_dev_dep(&dep("a", Some(s("normal")))), Ok(None));
}

#[test]
fn dev_dep_errors() {
    assert_eq!(read_dev_dep(&s("x")), Err(BuildError::DependencyNotObject));
    assert_eq!(
        read_dev_dep(&dep("a", Some(Json::Bool(true)))),
        Err(BuildError::KindNotString)
    );
    assert_eq!(
        read_dev_dep(&obj(vec![("kind", s("dev"))])),
        Err(BuildError::MissingName)
    );
    assert_eq!(
        read_dev_dep(&obj(vec![("kind", s("dev")), ("name", Json::Number("3".to_string()))])),
        Err(BuildError::NameNotString)
    );
}

#[test]
fn filter_result_cases() {
    assert_eq!(filter_result::<u8, u8>(Ok(Some(1))), Some(Ok(1)));
    assert_eq!(filter_result::<u8, u8>(Ok(None)), None);
    assert_eq!(filter_result::<u8, u8>(Err(2)), Some(Err(2)));
}

fn manifest() -> Json {
    obj(vec![
        ("name", s("mylib")),
        ("version", s("0.1.0")),
        (
            "dependencies",
            Json::Array(vec![
                dep("libc", None),
                dep("quickcheck", Some(s("dev"))),
                dep("cc", Some(s("build"))),
                dep("tempdir", Some(s("dev"))),
            ]),
        ),
    ])
}

#[test]
fn manifest_is_read() {
    let m = read_manifest(&manifest(), "/src/mylib").ok().unwrap();
    assert_eq!(m.crate_dep.name, "mylib");
    assert_eq!(m.crate_dep.source, DependencySource::Local("/src/mylib".to_string()));
    assert!(m.crate_dep.features.is_empty());
    let names: Vec<&str> = m.dev_deps.iter().map(|d| d.name.as_str()).collect();
    assert_eq!(names, vec!["quickcheck", "tempdir"]);
    assert!(m.needs_metadata());
}

#[test]
fn manifest_errors() {
    assert!(matches!(read_manifest(&Json::Array(vec![]), "/d"), Err(BuildError::ManifestNotObject)));
    assert!(matches!(
        read_manifest(&obj(vec![("version", s("1"))]), "/d"),
        Err(BuildError::ManifestMissingName)
    ));
    let bad = obj(vec![("name", s("a")), ("dependencies", Json::Array(vec![s("x")]))]);
    assert!(matches!(read_manifest(&bad, "/d"), Err(BuildError::DependencyNotObject)));
}

#[test]
fn manifest_without_dependencies_needs_no_graph() {
    let m = read_manifest(&obj(vec![("name", s("solo"))]), "/d").ok().unwrap();
    assert!(!m.needs_metadata());
    let config = resolve_config(m, None).ok().unwrap();
    assert!(config.into_string().contains("solo = { path = \"/d\" }\n"));
}

fn graph() -> Json {
    obj(vec![(
        "packages",
        Json::Array(vec![
            package("libc", &format!("libc 0.2.0 {}", REG)),
            package("tempdir", "tempdir 0.3.5 (path+file:///work/tempdir/Cargo.toml)"),
            package("quickcheck", &format!("quickcheck 0.4.1 {}", REG)),
            package("quickcheck", &format!("quickcheck 0.3.0 {}", REG)),
        ]),
    )])
}

#[test]
fn graph_resolves_in_package_order() {
    let deps = read_deps_metadata(&graph(), &vec![dev("quickcheck"), dev("tempdir"), dev("absent")]).unwrap();
    assert_eq!(deps.len(), 2);
    assert_eq!(deps[0].name, "tempdir");
    assert_eq!(deps[0].source, DependencySource::Local("/work/tempdir".to_string()));
    assert_eq!(deps[1].name, "quickcheck");
    assert_eq!(deps[1].source, DependencySource::Remote("0.4.1".to_string()));
}

#[test]
fn empty_wanted_list_reads_nothing() {
    assert_eq!(read_deps_metadata(&Json::Null, &vec![]), Ok(vec![]));
}

#[test]
fn graph_errors() {
    let wanted = vec![dev("a")];
    assert_eq!(read_deps_metadata(&Json::Null, &wanted), Err(BuildError::MetadataNotObject));
    assert_eq!(
        read_deps_metadata(&obj(vec![("packages", s("x"))]), &wanted),
        Err(BuildError::MetadataMissingPackages)
    );
    let nameless = obj(vec![("packages", Json::Array(vec![obj(vec![("id", s("a"))])]))]);
    assert_eq!(read_deps_metadata(&nameless, &wanted), Err(BuildError::PackageMissingName));
    let git = obj(vec![("packages", Json::Array(vec![package("a", "a 1.0.0 (git+https://x/y)")]))]);
    assert_eq!(
        read_deps_metadata(&git, &wanted),
        Err(BuildError::UnsupportedSource("a 1.0.0 (git+https://x/y)".to_string()))
    );
}

#[test]
fn unwanted_package_with_odd_id_is_ignored() {
    let g = obj(vec![(
        "packages",
        Json::Array(vec![package("other", "other 1.0.0 (git+https://x/y)"), package("a", &format!("a 2.0.0 {}", REG))]),
    )]);
    let deps = read_deps_metadata(&g, &vec![dev("a")]).unwrap();
    assert_eq!(deps.len(), 1);
    assert_eq!(deps[0].source, DependencySource::Remote("2.0.0".to_string()));
}

#[test]
fn full_resolution() {
    let m = read_manifest(&manifest(), "/src/mylib").ok().unwrap();
    let g = graph();
    let config = resolve_config(m, Some(&g)).ok().unwrap();
    let text = config.into_string();
    assert!(text.contains(
        "[dependencies]\nmylib = { path = \"/src/mylib\" }\ntempdir = { path = \"/work/tempdir\" }\nquickcheck = { version = \"0.4.1\" }\n"
    ));
}

#[test]
fn duplicate_names_are_refused() {
    let m = obj(vec![
        ("name", s("quickcheck")),
        ("dependencies", Json::Array(vec![dep("quickcheck", Some(s("dev")))])),
    ]);
    let declared = read_manifest(&m, "/src/qc").ok().unwrap();
    let g = graph();
    assert!(matches!(
        resolve_config(declared, Some(&g)),
        Err(BuildError::DuplicateDependency(n)) if n == "quickcheck"
    ));
}
