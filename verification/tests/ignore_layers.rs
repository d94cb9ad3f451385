//! Ignore rules in layers.

use offcut::ignore_rules::{is_matchable, searches_into, IgnoreFile, IgnoreSet};

const ROOT: &str = "";
const SUB: &str = "sub";

fn layers(specs: &[(&str, &[&str])]) -> IgnoreSet {
    IgnoreSet::from_layers(".", Some("/work"), specs).unwrap()
}

fn file(dir: &str, text: &str) -> IgnoreFile {
    IgnoreFile { dir: dir.to_string(), text: text.to_string() }
}

#[test]
fn empty_set_ignores_nothing() {
    let set = IgnoreSet::empty();
    assert!(!set.is_ignored_path("anything", false));
    assert!(!set.is_ignored_path("node_modules/foo", false));
}

#[test]
fn simple_glob_matches_basenames_anywhere() {
    let set = layers(&[(ROOT, &["*.log"])]);
    assert!(set.is_ignored_path("debug.log", false));
    assert!(set.is_ignored_path("a/b/c/error.log", false));
    assert!(!set.is_ignored_path("debug.txt", false));
}

#[test]
fn double_star_recurses() {
    let set = layers(&[(ROOT, &["**/build"])]);
    assert!(set.is_ignored_path("build", false));
    assert!(set.is_ignored_path("a/build", false));
    assert!(set.is_ignored_path("a/b/c/build", false));
    assert!(!set.is_ignored_path("a/buildup", false));
}

#[test]
fn leading_slash_anchors_to_root() {
    let set = layers(&[(ROOT, &["/foo"])]);
    assert!(set.is_ignored_path("foo", false));
    assert!(!set.is_ignored_path("a/foo", false));
    assert!(set.is_ignored_path("foo/bar", false));
}

#[test]
fn trailing_slash_matches_directories_only() {
    let set = layers(&[(ROOT, &["build/"])]);
    assert!(set.is_ignored_path("build", true));
    assert!(set.is_ignored_path("a/build", true));
    assert!(!set.is_ignored_path("build", false));
}

#[test]
fn contents_of_ignored_directory_are_ignored() {
    let set = layers(&[(ROOT, &["build/", "node_modules"])]);
    assert!(set.is_ignored_path("build/out.o", false));
    assert!(set.is_ignored_path("build/deep/nested/out.o", false));
    assert!(set.is_ignored_path("a/build/out.o", false));
    assert!(set.is_ignored_path("node_modules/pkg/index.js", false));
    assert!(!set.is_ignored_path("src/main.rs", false));
}

#[test]
fn nested_layer_anchor_is_not_stripped_twice() {
    let set = layers(&[(ROOT, &[]), (SUB, &["/foo"])]);
    assert!(set.is_ignored_path("sub/foo", false));
    assert!(!set.is_ignored_path("sub/sub/foo", false));

    let deep = layers(&[(ROOT, &[]), ("a/b", &["/x"])]);
    assert!(deep.is_ignored_path("a/b/x", false));
    assert!(!deep.is_ignored_path("a/b/a/b/x", false));
}

#[test]
fn absolute_paths_are_not_matched() {
    let set = layers(&[(ROOT, &["*.log"])]);
    assert!(!set.is_ignored_path("/tmp/debug.log", false));
}

#[test]
fn negation_reincludes() {
    let set = layers(&[(ROOT, &["*.log", "!keep.log"])]);
    assert!(set.is_ignored_path("debug.log", false));
    assert!(!set.is_ignored_path("keep.log", false));
}

#[test]
fn comments_and_blanks_are_ignored() {
    let set = layers(&[(ROOT, &["", "# comment", "# *.log", "target"])]);
    assert!(set.is_ignored_path("target", false));
    assert!(!set.is_ignored_path("debug.log", false));
    assert_eq!(set.layer_count(), 1);
}

#[test]
fn nested_overrides_global() {
    let set = layers(&[(ROOT, &["*.log"]), (SUB, &["!keep.log"])]);
    assert!(set.is_ignored_path("debug.log", false));
    assert!(!set.is_ignored_path("sub/keep.log", false));
    assert!(set.is_ignored_path("sub/other.log", false));
}

#[test]
fn nested_ignore_overrides_global_whitelist() {
    let set = layers(&[(ROOT, &["*.bin", "!secret.bin"]), (SUB, &["secret.bin"])]);
    assert!(!set.is_ignored_path("secret.bin", false));
    assert!(set.is_ignored_path("sub/secret.bin", false));
}

#[test]
fn anchored_nested_pattern_anchors_to_its_own_dir() {
    let set = layers(&[(ROOT, &[]), (SUB, &["/foo"])]);
    assert!(set.is_ignored_path("sub/foo", false));
    assert!(!set.is_ignored_path("sub/deep/foo", false));
}

#[test]
fn backslash_is_a_literal_filename_character() {
    let set = layers(&[(ROOT, &["a/b"])]);
    assert!(set.is_ignored_path("a/b", false));
    assert!(!set.is_ignored_path("a\\b", false));
}

#[test]
fn protected_path_is_reported_ignored() {
    let set = layers(&[(ROOT, &["/important"])]);
    assert!(set.is_ignored_path("important", false));
}

#[test]
fn load_reads_global_and_nested_files() {
    let files = vec![file("/work/p", "*.log\n"), file("/work/p/sub", "!keep.log\n")];
    let set = IgnoreSet::load("/work/p", None, Some("*.bak\n"), &files).unwrap();
    assert!(set.is_ignored_path("debug.log", false));
    assert!(set.is_ignored_path("archive.bak", false));
    assert!(!set.is_ignored_path("sub/keep.log", false));
    assert!(set.is_ignored_path("sub/other.log", false));
}

#[test]
fn load_handles_missing_ignore_files() {
    let set = IgnoreSet::load("/work/p", None, None, &[]).unwrap();
    assert_eq!(set.layer_count(), 0);
    assert!(!set.is_ignored_path("anything", false));
}

#[test]
fn is_ignored_stats_relative_to_the_project_root() {
    let set = IgnoreSet::load("/work/p", None, None, &[file("/work/p", "build/\n")]).unwrap();
    assert_eq!(set.lookup_path("build"), Some("/work/p/build".to_string()));
    assert!(set.is_ignored("build", true));
    assert!(!set.is_ignored("build", false));
}

#[test]
fn empty_set_never_ignores_regardless_of_root() {
    let set = IgnoreSet::empty();
    assert!(!set.is_ignored("build", false));
    assert!(!set.is_ignored("anything/at/all", false));
    // There is nothing to look up on disk.
    assert_eq!(set.lookup_path("build"), None);
}

#[test]
fn load_prunes_git_directories() {
    assert!(!searches_into(".git", true, false));
    assert!(searches_into("sub", true, false));
    assert!(!searches_into("sub", true, true));
    assert!(!searches_into("sub", false, false));
}

#[test]
fn load_skips_comment_only_files() {
    let set =
        IgnoreSet::load("/work/p", None, None, &[file("/work/p", "# only a comment\n\n")]).unwrap();
    assert_eq!(set.layer_count(), 0);
}

#[test]
fn from_layers_stats_relative_to_its_project_root() {
    let set = IgnoreSet::from_layers("/work/p", Some("/elsewhere"), &[(ROOT, &["build/"])]).unwrap();
    assert_eq!(set.lookup_path("build"), Some("/work/p/build".to_string()));
    assert!(set.is_ignored("build", true));
    assert!(!set.is_ignored("src", false));
}

#[test]
fn a_relative_root_starts_from_the_working_directory() {
    let rules: [(&str, &[&str]); 1] = [(ROOT, &["build/"])];
    let at = |root: &str, cwd: Option<&str>| {
        IgnoreSet::from_layers(root, cwd, &rules).unwrap().lookup_path("build")
    };
    assert_eq!(at("p", Some("/work")), Some("/work/p/build".to_string()));
    assert_eq!(at("p", Some("/work/")), Some("/work/p/build".to_string()));
    assert_eq!(at("/abs/p", Some("/work")), Some("/abs/p/build".to_string()));
    // Segments that say nothing are dropped; `..` and a slash at the end stay.
    assert_eq!(at("./p", Some("/work")), Some("/work/p/build".to_string()));
    assert_eq!(at(".", Some("/work")), Some("/work/build".to_string()));
    assert_eq!(at("a//./b/../c/", Some("/work")), Some("/work/a/b/../c/build".to_string()));
    assert_eq!(at("/abs/./p//", None), Some("/abs/p/build".to_string()));
    // What cannot be made absolute is kept as it is.
    assert_eq!(at("p", None), Some("p/build".to_string()));
    assert_eq!(at("", Some("/work")), Some("build".to_string()));
    // The anchors of files are those below the root as it was given.
    let files = [file("p", "*.log\n"), file("p/sub", "!keep.log\n")];
    let set = IgnoreSet::load("p", Some("/work"), None, &files).unwrap();
    assert_eq!(set.lookup_path("a.log"), Some("/work/p/a.log".to_string()));
    assert!(set.is_ignored_path("a.log", false));
    assert!(!set.is_ignored_path("sub/keep.log", false));
}

#[test]
fn a_layer_without_rules_changes_nothing() {
    let bare = layers(&[(ROOT, &["*.log"]), (SUB, &["!a.log"])]);
    let padded = layers(&[(ROOT, &[]), (ROOT, &["*.log"]), (SUB, &["!a.log"]), (SUB, &[])]);
    for path in ["a.log", "sub/a.log", "sub/b.log", "sub/a.txt"] {
        assert_eq!(bare.is_ignored_path(path, false), padded.is_ignored_path(path, false));
    }
    assert!(!layers(&[(ROOT, &[])]).is_ignored_path("anything", true));
}

#[test]
fn a_copy_of_a_set_judges_like_the_set() {
    let set = layers(&[(ROOT, &["*.log"]), (SUB, &["!a.log"])]);
    let copy = set.clone();
    assert_eq!(copy.layer_count(), 2);
    assert_eq!(copy.lookup_path("x"), set.lookup_path("x"));
    for path in ["a.log", "sub/a.log", "sub/b.log", "sub/a.txt"] {
        assert_eq!(copy.is_ignored_path(path, false), set.is_ignored_path(path, false));
    }
    assert_eq!(IgnoreSet::default().layer_count(), 0);
    assert!(!format!("{set:?}").is_empty());
}

#[test]
fn a_pattern_that_does_not_compile_is_an_error() {
    let bad: [(&str, &[&str]); 1] = [(ROOT, &["[z-a]"])];
    let e = IgnoreSet::from_layers(".", Some("/work"), &bad).err().expect("the range is reversed");
    assert!(!e.is_empty());
    assert!(e != "[z-a]", "the message says more than the pattern: {e}");
    assert!(IgnoreSet::load("/p", None, Some("[z-a]\n"), &[]).is_err());
    assert!(IgnoreSet::load("/p", None, None, &[file("/p", "[z-a]\n")]).is_err());
}

#[test]
fn the_innermost_layer_with_a_verdict_decides() {
    let set = layers(&[(ROOT, &["*.log"]), (SUB, &["!*.log"]), ("sub/deep", &["*.log"])]);
    assert!(set.is_ignored_path("a.log", false));
    assert!(!set.is_ignored_path("sub/a.log", false));
    assert!(set.is_ignored_path("sub/deep/a.log", false));
}

#[test]
fn paths_that_cannot_be_matched_are_spotted() {
    assert!(is_matchable("a/b"));
    assert!(is_matchable("./a"));
    assert!(!is_matchable(".///a"));
    // A rooted path is no path of the project, and is never matched.
    assert!(is_matchable("/a"));
    assert!(!layers(&[(ROOT, &["a"])]).is_ignored_path("/a", false));
}
