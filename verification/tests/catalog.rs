//! The safe-to-delete catalog.

use offcut::config::Config;
use offcut::safelist::{built_in, SafeSet};

const PROJECT_ROOT: &str = "testroot";

fn set(built_in: &[&str], user: &[String]) -> SafeSet {
    SafeSet::merge(PROJECT_ROOT, Some("/work"), built_in, user).unwrap()
}

#[test]
fn every_built_in_pattern_matches_as_a_directory() {
    let s = set(&built_in(), &[]);
    let dirs = [
        "node_modules",
        "target",
        ".next",
        ".turbo",
        "dist",
        "build",
        "__pycache__",
        ".venv",
        "venv",
    ];
    for d in &dirs {
        assert!(s.is_safe_to_delete(d, true), "built-in pattern does not match {d}");
        assert!(
            s.is_safe_to_delete(&format!("src/{d}"), true),
            "built-in pattern does not match src/{d}"
        );
        assert!(
            s.is_safe_to_delete(&format!("a/b/{d}"), true),
            "built-in pattern does not match a/b/{d}"
        );
        assert!(
            s.is_safe_to_delete(&format!("a/b/{d}/deep/file.txt"), false),
            "built-in pattern does not protect a file under {d}"
        );
    }
}

#[test]
fn not_safe_for_non_listed_path() {
    let s = set(&built_in(), &[]);
    assert!(!s.is_safe_to_delete("src/main.rs", true));
    assert!(!s.is_safe_to_delete("README.md", true));
    assert!(!s.is_safe_to_delete("Cargo.toml", true));
    assert!(!s.is_safe_to_delete("config.json", true));
}

#[test]
fn config_addition_is_recognized_as_safe() {
    let user = vec!["**/my_build_artifact".to_string()];
    let s = set(&built_in(), &user);
    assert!(s.is_safe_to_delete("my_build_artifact", true));
    assert!(s.is_safe_to_delete("src/my_build_artifact", true));
    assert!(s.is_safe_to_delete("node_modules", true));
}

#[test]
fn unknown_config_pattern_is_not_safe() {
    let user = vec!["**/my_build_artifact".to_string()];
    let s = set(&built_in(), &user);
    assert!(!s.is_safe_to_delete("some_other_dir", true));
}

#[test]
fn empty_user_list_still_has_built_ins() {
    let s = set(&built_in(), &[]);
    assert_eq!(s.len(), built_in().len());
    assert!(s.is_safe_to_delete("target", true));
}

#[test]
fn empty_set_safe() {
    let s = set(&[], &[]);
    assert!(s.is_empty());
    assert_eq!(s.len(), 0);
    assert!(!s.is_safe_to_delete("anything", true));
}

#[test]
fn malformed_user_pattern_is_an_error() {
    for bad in ["[z-a]", "\\"] {
        let user = vec![bad.to_string()];
        assert!(
            SafeSet::merge(PROJECT_ROOT, Some("/work"), &built_in(), &user).is_err(),
            "expected {bad:?} to be rejected"
        );
    }
}

#[test]
fn directory_only_pattern_does_not_match_a_file() {
    let user = vec!["**/artifacts/".to_string()];
    let s = set(&built_in(), &user);
    assert!(s.is_safe_to_delete("artifacts", true));
    assert!(!s.is_safe_to_delete("artifacts", false));
}

#[test]
fn a_configuration_extends_the_catalog() {
    let mut cfg = Config::default();
    cfg.safe_delete.push("**/cache-of-mine".to_string());
    let s = SafeSet::from_config("/p", None, &cfg).unwrap();
    assert_eq!(s.len(), built_in().len() + 1);
    assert_eq!(s.patterns().last().map(|p| p.as_str()), Some("**/cache-of-mine"));
    assert!(s.is_safe("cache-of-mine", true));
    assert!(s.is_safe("target", true));
    assert!(!s.is_safe("/target", true), "absolute paths are never safe");
    assert_eq!(s.lookup_path("target"), Some("/p/target".to_string()));
    let copy = s.clone();
    assert_eq!(copy.patterns(), s.patterns());
    assert!(copy.is_safe("cache-of-mine", true));
    let relative = SafeSet::from_config("p", Some("/work"), &cfg).unwrap();
    assert_eq!(relative.lookup_path("target"), Some("/work/p/target".to_string()));
}

#[test]
fn a_catalog_without_patterns_covers_nothing() {
    let s = set(&[], &[]);
    assert!(s.is_empty());
    assert!(!s.is_safe_to_delete("target", true));
    assert!(!s.is_safe_to_delete("a/b", false));
}
