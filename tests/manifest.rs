use rust_test_ios::{BuildError, Config, Dependency, DependencySource};

fn local(name: &str, path: &str) -> Dependency {
    Dependency { name: name.to_string(), source: DependencySource::Local(path.to_string()), features: vec![] }
}

fn remote(name: &str, version: &str, features: &[&str]) -> Dependency {
    Dependency {
        name: name.to_string(),
        source: DependencySource::Remote(version.to_string()),
        features: features.iter().map(|f| f.to_string()).collect(),
    }
}

const HEADER: &str = "[package]\nname = \"tests-ios\"\nversion = \"0.0.0\"\n\n[lib]\nname = \"tests_ios\"\npath = \"lib.rs\"\ncrate-type = [\"staticlib\"]\n\n[dependencies]\n";

#[test]
fn manifest_text_is_exact() {
    let config = Config::new(local("mylib", "/a/b"), vec![remote("serde", "1.0.0", &["derive", "rc"])])
        .ok()
        .unwrap();
    let text = config.into_string();
    assert_eq!(
        text,
        format!(
            "{}mylib = {{ path = \"/a/b\" }}\nserde = {{ version = \"1.0.0\", features = [\"derive\", \"rc\"] }}\n",
            HEADER
        )
    );
}

#[test]
fn manifest_round_trip() {
    let config = Config::new(
        local("mylib", "/home/me/my \"lib\"\\x"),
        vec![
            remote("serde", "1.0.0", &["derive"]),
            local("helper.crate", "/work/helper"),
            remote("rand", "0.8.5", &[]),
        ],
    )
    .ok()
    .unwrap();
    let text = config.into_string();
    let parsed: toml::Table = text.parse().unwrap();
    assert_eq!(parsed["package"]["name"].as_str(), Some("tests-ios"));
    assert_eq!(parsed["package"]["version"].as_str(), Some("0.0.0"));
    assert_eq!(parsed["lib"]["name"].as_str(), Some("tests_ios"));
    assert_eq!(parsed["lib"]["path"].as_str(), Some("lib.rs"));
    assert_eq!(parsed["lib"]["crate-type"][0].as_str(), Some("staticlib"));
    let deps = parsed["dependencies"].as_table().unwrap();
    let mut names: Vec<&str> = deps.keys().map(|k| k.as_str()).collect();
    names.sort();
    assert_eq!(names, vec!["helper.crate", "mylib", "rand", "serde"]);
    assert_eq!(deps["mylib"]["path"].as_str(), Some("/home/me/my \"lib\"\\x"));
    assert!(deps["mylib"].get("version").is_none());
    assert_eq!(deps["helper.crate"]["path"].as_str(), Some("/work/helper"));
    assert_eq!(deps["serde"]["version"].as_str(), Some("1.0.0"));
    assert_eq!(deps["serde"]["features"][0].as_str(), Some("derive"));
    assert!(deps["serde"].get("path").is_none());
    assert_eq!(deps["rand"]["version"].as_str(), Some("0.8.5"));
    assert!(deps["rand"].get("features").is_none());
}

#[test]
fn strings_are_quoted_and_escaped() {
    let config = Config::new(local("a", "q\"b"), vec![]).ok().unwrap();
    let text = config.into_string();
    assert!(!text.contains("path = q\"b"));
    let parsed: toml::Table = text.parse().unwrap();
    assert_eq!(parsed["dependencies"]["a"]["path"].as_str(), Some("q\"b"));
}

#[test]
fn odd_key_is_quoted() {
    let config = Config::new(local("a b", "/x"), vec![]).ok().unwrap();
    let text = config.into_string();
    assert!(text.ends_with("\n\"a b\" = { path = \"/x\" }\n"));
    let parsed: toml::Table = text.parse().unwrap();
    assert_eq!(parsed["dependencies"]["a b"]["path"].as_str(), Some("/x"));
}

#[test]
fn duplicate_dependency_is_refused() {
    let r = Config::new(local("a", "/x"), vec![remote("b", "1", &[]), remote("a", "2", &[]), remote("b", "3", &[])]);
    assert!(matches!(r, Err(BuildError::DuplicateDependency(n)) if n == "a"));
    let r = Config::new(local("a", "/x"), vec![remote("b", "1", &[]), remote("b", "3", &[])]);
    assert!(matches!(r, Err(BuildError::DuplicateDependency(n)) if n == "b"));
}

#[test]
fn name_that_cannot_be_a_one_line_key_is_refused() {
    let r = Config::new(local("ok", "/x"), vec![remote("bad\nname", "1", &[])]);
    assert!(matches!(r, Err(BuildError::UnsupportedName(n)) if n == "bad\nname"));
    let r = Config::new(local("tab\tname", "/x"), vec![]);
    assert!(matches!(r, Err(BuildError::UnsupportedName(n)) if n == "tab\tname"));
    let r = Config::new(local("q\"uote", "/x"), vec![remote("q\"uote", "1", &[])]);
    assert!(matches!(r, Err(BuildError::UnsupportedName(n)) if n == "q\"uote"));
}

#[test]
fn plain_strings_are_written_between_double_quotes() {
    let config = Config::new(local("a", "/tmp/é x'y"), vec![]).ok().unwrap();
    assert!(config.into_string().ends_with("a = { path = \"/tmp/é x'y\" }\n"));
}

#[test]
fn tab_is_escaped_and_round_trips() {
    let config = Config::new(local("a", "x\ty"), vec![]).ok().unwrap();
    let text = config.into_string();
    assert!(text.ends_with("a = { path = \"x\\ty\" }\n"));
    let parsed: toml::Table = text.parse().unwrap();
    assert_eq!(parsed["dependencies"]["a"]["path"].as_str(), Some("x\ty"));
}
