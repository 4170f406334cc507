use std::path::{Path, PathBuf};

use csma_ca_simulation::summary::summary_output_path;

/// The summary path as `std::path` builds it from the raw path.
fn std_summary_path(raw_output: &Path) -> PathBuf {
    let parent = raw_output.parent();
    let stem = raw_output
        .file_stem()
        .and_then(|value| value.to_str())
        .unwrap_or("results");
    let file_name = format!("{stem}-summary.csv");

    match parent {
        Some(parent) => parent.join(file_name),
        None => PathBuf::from(file_name),
    }
}

#[test]
fn summary_path_adds_summary_suffix() {
    let summary = summary_output_path("results/users.csv");

    assert_eq!(summary, "results/users-summary.csv");
}

#[test]
fn summary_path_keeps_directory_and_drops_last_extension() {
    assert_eq!(summary_output_path("users.csv"), "users-summary.csv");
    assert_eq!(summary_output_path("/tmp/run/cw.tar.gz"), "/tmp/run/cw.tar-summary.csv");
    assert_eq!(summary_output_path("out/mixed"), "out/mixed-summary.csv");
    assert_eq!(summary_output_path("out/mixed/"), "out/mixed-summary.csv");
    assert_eq!(summary_output_path("out/.hidden"), "out/.hidden-summary.csv");
    assert_eq!(summary_output_path("out/data."), "out/data-summary.csv");
}

#[test]
fn summary_path_drops_dot_and_empty_components() {
    assert_eq!(summary_output_path("a.csv/."), "a-summary.csv");
    assert_eq!(summary_output_path("runs/a.csv/./"), "runs/a-summary.csv");
    assert_eq!(summary_output_path("a//b.csv"), "a/b-summary.csv");
    assert_eq!(summary_output_path("a/./b.csv"), "a/b-summary.csv");
    assert_eq!(summary_output_path("./a.csv"), "./a-summary.csv");
    assert_eq!(summary_output_path("/a.csv"), "/a-summary.csv");
}

#[test]
fn summary_path_without_file_name_uses_results() {
    assert_eq!(summary_output_path(""), "results-summary.csv");
    assert_eq!(summary_output_path("/"), "results-summary.csv");
    assert_eq!(summary_output_path("."), "results-summary.csv");
    assert_eq!(summary_output_path("/."), "results-summary.csv");
    assert_eq!(summary_output_path("runs/.."), "runs/results-summary.csv");
    assert_eq!(summary_output_path(".."), "results-summary.csv");
}

#[test]
fn summary_path_agrees_with_std_path() {
    let raws = [
        "results/users.csv",
        "users.csv",
        "a.csv/.",
        "a.csv/./",
        "a.csv//.//",
        "a//b.csv",
        "a/./b.csv",
        "a/./c/b.csv",
        "./a.csv",
        "./",
        ".",
        "./.",
        "/",
        "//",
        "/.",
        "/a.csv",
        "//a.csv",
        "/x/y/",
        "runs/..",
        "..",
        "../a.b.c",
        ".hidden",
        "dir/.hidden.csv",
        "data.",
        "a-summary.csv",
        "",
    ];
    for raw in raws {
        let expected = std_summary_path(Path::new(raw));
        let summary = summary_output_path(raw);
        assert_eq!(Path::new(&summary), expected.as_path(), "raw path {raw:?}");
        assert_eq!(summary, expected.to_str().expect("utf-8"), "raw path {raw:?}");
    }
}

#[test]
fn summary_path_never_repeats_the_raw_path() {
    for raw in ["a-summary.csv", "x.aaaaaaaaaaa", "abc////////////", "results-summary.csv"] {
        assert_ne!(summary_output_path(raw), raw);
    }
}
