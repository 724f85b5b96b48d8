use rust_test_ios::{FileTime, has_rs_ext, modified_more_recently, should_build};

fn t(secs: i64, nanos: i64) -> FileTime {
    FileTime { secs, nanos }
}

#[test]
fn absent_output_must_build() {
    assert!(should_build(None, &[]));
    assert!(should_build(None, &[t(1, 0)]));
}

#[test]
fn older_sources_do_not_build() {
    assert!(!should_build(Some(t(10, 500)), &[t(9, 999), t(10, 499)]));
    assert!(!should_build(Some(t(10, 500)), &[]));
}

#[test]
fn equal_times_favour_the_output() {
    assert!(!should_build(Some(t(10, 500)), &[t(10, 500)]));
    assert!(!modified_more_recently(&t(10, 500), &t(10, 500)));
}

#[test]
fn one_newer_source_builds() {
    assert!(should_build(Some(t(10, 500)), &[t(1, 0), t(10, 501), t(2, 0)]));
    assert!(should_build(Some(t(10, 500)), &[t(11, 0)]));
}

#[test]
fn seconds_decide_before_nanoseconds() {
    assert!(modified_more_recently(&t(11, 0), &t(10, 999_999_999)));
    assert!(!modified_more_recently(&t(10, 999_999_999), &t(11, 0)));
}

#[test]
fn rust_extension() {
    assert!(has_rs_ext("src/lib.rs"));
    assert!(has_rs_ext("a.b.rs"));
    assert!(!has_rs_ext("src/.rs"));
    assert!(!has_rs_ext("src/lib.rs.bak"));
    assert!(!has_rs_ext("rs"));
    assert!(!has_rs_ext("src.rs/dir"));
    assert!(!has_rs_ext(""));
}

#[test]
fn trailing_separators_and_dots_are_ignored() {
    assert!(has_rs_ext("a.rs/"));
    assert!(has_rs_ext("a.rs/."));
    assert!(has_rs_ext("src/a.rs//./"));
    assert!(has_rs_ext("./a/./b.rs"));
    assert!(!has_rs_ext("a.rs/.."));
    assert!(!has_rs_ext("."));
    assert!(!has_rs_ext("/"));
}

#[test]
fn extension_cases_as_path_gives_them() {
    assert!(has_rs_ext("a/b.rs"));
    assert!(has_rs_ext("a/b.tar.rs"));
    assert!(!has_rs_ext("a/b.RS"));
    assert!(!has_rs_ext("a/.rs"));
    assert!(!has_rs_ext("a/rs"));
}
