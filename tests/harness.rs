use rust_test_ios::{TestModule, extract_tests, harness_unit, should_build, FileTime};

const FILE_A: &str = "\
mod tests {
    #[test]
    fn foo() {
        assert!(true);
    }

    #[test]
    fn bar() {
        assert!(1 < 2);
    }
}
";

const FILE_B: &str = "pub fn lib_fn() -> u8 {\n    7\n}\n";

const FILE_C: &str = "mod more {\n    #[test]\n    fn baz() {\n    }\n}\n";

const SHIM: &str = "pub fn count() -> usize { TESTS.len() }\n";

#[test]
fn unit_has_prelude_tests_registry_and_shim() {
    let sources = vec!["    #[test]\n    fn only() {\n        x();\n    }\n".to_string()];
    let unit = harness_unit("PRELUDE\n", &sources, SHIM);
    let expected = "PRELUDE\n\n    fn only() {\n        x();\n    }\n\
\npub static TESTS: &'static [(&'static str, fn())] = &[\n(\"only\", only),\n];\n\
pub mod export {\npub fn count() -> usize { TESTS.len() }\n}\n";
    assert_eq!(unit, expected);
}

#[test]
fn assembly_is_idempotent() {
    let sources = vec![FILE_A.to_string(), FILE_B.to_string(), FILE_C.to_string()];
    let first = harness_unit("prelude", &sources, SHIM);
    let second = harness_unit("prelude", &sources, SHIM);
    assert_eq!(first.as_bytes(), second.as_bytes());
}

#[test]
fn three_file_tree_end_to_end() {
    let sources = vec![FILE_A.to_string(), FILE_B.to_string(), FILE_C.to_string()];
    let names: Vec<String> = sources
        .iter()
        .flat_map(|s| extract_tests(s).into_iter().map(|t| t.name))
        .collect();
    assert_eq!(names, vec!["foo", "bar", "baz"]);
    let unit = harness_unit("", &sources, SHIM);
    assert!(unit.contains("= &[\n(\"foo\", foo),\n(\"bar\", bar),\n(\"baz\", baz),\n];\n"));
    assert!(unit.find("fn foo()").unwrap() < unit.find("fn bar()").unwrap());
    assert!(unit.find("fn bar()").unwrap() < unit.find("fn baz()").unwrap());
    // the output was written after every source: nothing to regenerate
    let output = FileTime { secs: 200, nanos: 0 };
    let times = [
        FileTime { secs: 100, nanos: 5 },
        FileTime { secs: 150, nanos: 0 },
        FileTime { secs: 200, nanos: 0 },
    ];
    assert!(!should_build(Some(output), &times));
}

#[test]
fn module_built_file_by_file() {
    let mut module = TestModule::new("P");
    module.add_tests(FILE_C);
    module.add_tests(FILE_B);
    module.add_tests(FILE_A);
    let unit = module.finish("");
    assert!(unit.starts_with("P\n    fn baz() {\n    }\n"));
    assert!(unit.contains("(\"baz\", baz),\n(\"foo\", foo),\n(\"bar\", bar),\n];\npub mod export {\n}\n"));
}

#[test]
fn from_sources_matches_adding_one_by_one() {
    let sources = vec![FILE_A.to_string(), FILE_C.to_string()];
    let all = TestModule::from_sources("P", &sources).finish("S");
    let mut module = TestModule::new("P");
    module.add_tests(FILE_A);
    module.add_tests(FILE_C);
    assert_eq!(all, module.finish("S"));
}

#[test]
fn no_tests_gives_empty_registry() {
    let unit = harness_unit("", &[FILE_B.to_string()], "");
    assert_eq!(
        unit,
        "\npub static TESTS: &'static [(&'static str, fn())] = &[\n];\npub mod export {\n}\n"
    );
}
