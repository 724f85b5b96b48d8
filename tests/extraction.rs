use rust_test_ios::{ExtractedTest, extract_tests};

const PATTERN: &str = "#\\[test\\]\n(    fn ([^\\{]*)\\(\\) \\{(?s:.)*?\n    \\}\n)";

fn by_pattern(text: &str) -> Vec<(String, String)> {
    let re = regex::Regex::new(PATTERN).unwrap();
    re.captures_iter(text).map(|c| (c[2].to_string(), c[1].to_string())).collect()
}

fn pairs(tests: &[ExtractedTest]) -> Vec<(String, String)> {
    tests.iter().map(|t| (t.name.clone(), t.body.clone())).collect()
}

const MODULE: &str = "\
use super::*;

#[cfg(test)]
mod tests {
    #[test]
    fn first() {
        assert_eq!(1 + 1, 2);
    }

    fn helper() {
        let x = 1;
    }

    #[test]
    fn second() {
        if true {
            let y = 2;
        }
    }
}
";

#[test]
fn extracts_annotated_functions_in_order() {
    let tests = extract_tests(MODULE);
    assert_eq!(tests.len(), 2);
    assert_eq!(tests[0].name, "first");
    assert_eq!(tests[0].body, "    fn first() {\n        assert_eq!(1 + 1, 2);\n    }\n");
    assert_eq!(tests[1].name, "second");
    assert_eq!(
        tests[1].body,
        "    fn second() {\n        if true {\n            let y = 2;\n        }\n    }\n"
    );
}

#[test]
fn counts_every_well_formed_function() {
    let mut text = String::new();
    for i in 0..5 {
        text.push_str(&format!("// gap {}\n    #[test]\n    fn t{}() {{\n        body();\n    }}\n", i, i));
    }
    let tests = extract_tests(&text);
    let names: Vec<String> = tests.iter().map(|t| t.name.clone()).collect();
    assert_eq!(names, vec!["t0", "t1", "t2", "t3", "t4"]);
}

#[test]
fn skips_functions_without_annotation_even_with_same_name() {
    let text = "\
    fn shared() {
        unannotated();
    }

    #[test]
    fn shared() {
        annotated();
    }
";
    let tests = extract_tests(text);
    assert_eq!(tests.len(), 1);
    assert_eq!(tests[0].body, "    fn shared() {\n        annotated();\n    }\n");
}

#[test]
fn skips_functions_of_another_shape() {
    let text = "\
    #[test]
    #[should_panic]
    fn panics() {
        panic!();
    }

    #[test]
  fn wrong_indent() {
  }

    #[test]
    fn unclosed() {
        no_close();
";
    assert!(extract_tests(text).is_empty());
}

#[test]
fn empty_text_has_no_tests() {
    assert!(extract_tests("").is_empty());
}

#[test]
fn function_with_parameters_is_not_a_test() {
    let text = "    #[test]\n    fn takes(x: u8) {\n        drop(x);\n    }\n";
    assert!(extract_tests(text).is_empty());
}

#[test]
fn body_ends_at_first_closing_line() {
    let text = "    #[test]\n    fn a() {\n        one();\n    }\n    }\n";
    let tests = extract_tests(text);
    assert_eq!(tests.len(), 1);
    assert_eq!(tests[0].body, "    fn a() {\n        one();\n    }\n");
}

#[test]
fn agrees_with_the_regular_expression() {
    let samples = [
        MODULE,
        "",
        "#[test]\n    fn a() {\n    }\n#[test]\n    fn b() {\n    }\n",
        "#[test]\n    fn x() -> () {\n    }\n",
        "#[test]\n    fn () {\n    }\n",
        "#[test]\n    fn multi\nline() {\n    }\n",
        "#[test]\n    fn open() {\n    }",
        "#[test]\n    fn a() {\n#[test]\n    fn b() {\n    }\n    }\n",
        "#[test]\n    fn é() {\n        \"ü\";\n    }\n",
        "#[test]\n    fn nobrace()\n",
        "#[test]\n    fn a(){\n    }\n#[test]\n    fn b() {\n    }\n",
    ];
    for text in samples.iter() {
        assert_eq!(pairs(&extract_tests(text)), by_pattern(text), "on {:?}", text);
    }
}
