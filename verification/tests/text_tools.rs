//! Text and the small parts around it.

use offcut::classify::Status;
use offcut::clean::{Classification, CleanItem};
use offcut::ignore_rules::{global_ignore_path, global_ignore_path_in, IGNORE_FILE};
use offcut::interactive::{
    listed_path, next_prompt, prospect_text, questions_fit, review_label_text, run,
    InteractiveFlowInputs,
};
use offcut::json::{classification_label, status_label};
use offcut::paths::absolute_path;
use offcut::text::{
    decimal_text, holds_text, join, lines, signed_text, split, split_non_empty, trim, words,
};

#[test]
fn numbers_are_written_as_the_standard_library_writes_them() {
    for n in [0u64, 7, 10, 99, 100, 12345, u64::MAX] {
        assert_eq!(decimal_text(n), n.to_string());
    }
    for n in [0i32, 5, -1, 128, i32::MIN, i32::MAX] {
        assert_eq!(signed_text(n), n.to_string());
    }
}

#[test]
fn text_is_cut_up_as_the_standard_library_cuts_it() {
    let samples =
        ["", " ", "a", " a b\t", "a\n", "a\r\nb", "a\n\nb\r", "\u{a0}x\u{3000}", "a\0\0b\0", "\r"];
    for s in samples {
        assert_eq!(trim(s), s.trim(), "{s:?}");
        assert_eq!(words(s), s.split_whitespace().collect::<Vec<_>>(), "{s:?}");
        assert_eq!(lines(s), s.lines().collect::<Vec<_>>(), "{s:?}");
        assert_eq!(split(s, '\n'), s.split('\n').collect::<Vec<_>>(), "{s:?}");
        let entries: Vec<&str> = s.split('\0').filter(|e| !e.is_empty()).collect();
        assert_eq!(split_non_empty(s, '\0'), entries, "{s:?}");
        assert_eq!(join(&split(s, 'a'), "a"), s);
    }
    let v = vec!["a".to_string(), "b".to_string()];
    assert!(holds_text(&v, "b"));
    assert!(!holds_text(&v, "B"));
}

#[test]
fn the_global_ignore_file_lies_in_the_home_directory() {
    assert_eq!(
        global_ignore_path_in(Some("/home/me".to_string())),
        Some(format!("/home/me/{IGNORE_FILE}"))
    );
    assert_eq!(global_ignore_path_in(None), None);
    if let Some(path) = global_ignore_path() {
        assert!(path.ends_with(IGNORE_FILE), "{path}");
    }
}

#[test]
fn labels_tell_classifications_apart() {
    let all = [
        (Classification::Protected, "protected", "protected", "kept"),
        (Classification::Safe, "safe", "safe-to-delete", "will delete"),
        (Classification::Surfaced, "surfaced", "surfaced", "needs approval"),
    ];
    for (c, document, review, prospect) in all {
        assert_eq!(classification_label(c), document);
        assert_eq!(review_label_text(c), review);
        assert_eq!(prospect_text(c), prospect);
    }
    assert_eq!(status_label(Status::NoRemote), "no-remote");
    let dir = CleanItem {
        rel_path: "target".to_string(),
        is_dir: true,
        classification: Classification::Safe,
    };
    assert_eq!(listed_path(&dir), "target/");
}

#[test]
fn ordinary_dialogues_can_be_counted() {
    let inputs = InteractiveFlowInputs {
        all_projects: vec![("/p".to_string(), Status::Cleanable)],
        per_project_items: vec![("/p".to_string(), Vec::new())],
        force: false,
        dry_run: false,
    };
    assert!(questions_fit(&inputs));
    assert!(next_prompt(&inputs, &Vec::new()).is_some());
    assert!(!run(&inputs, &Vec::new())[0].project_approved);
}

#[test]
fn paths_are_made_absolute_as_the_standard_library_makes_them() {
    let rooted = [
        "/", "//", "///", "/a", "//a", "///a", "//a//b", "/a/./b", "/a//b/", "/./a", "/a/.", "/a/..",
        "/../a", "/.", "/a/./", "/.a/b.",
    ];
    for p in rooted {
        let std = std::path::absolute(p).unwrap();
        assert_eq!(absolute_path(p, None), std.to_str().map(|s| s.to_string()), "{p}");
        assert_eq!(absolute_path(p, Some("/w")), std.to_str().map(|s| s.to_string()), "{p}");
    }
    let here = std::path::absolute(".").unwrap();
    let cwd = here.to_str().unwrap();
    let relative = [
        ".", "./", "..", "../", "a", "./a", "a/", "a//", "a/./b", "a/../b", "./././a", "a/.", ".a", "..a",
        ".//a", "a/..",
    ];
    for p in relative {
        let std = std::path::absolute(p).unwrap();
        assert_eq!(absolute_path(p, Some(cwd)), std.to_str().map(|s| s.to_string()), "{p}");
        assert_eq!(absolute_path(p, None), None, "{p}");
    }
    assert!(std::path::absolute("").is_err());
    assert_eq!(absolute_path("", Some("/w")), None);
    assert_eq!(absolute_path("./p", Some("/")), Some("/p".to_string()));
}
