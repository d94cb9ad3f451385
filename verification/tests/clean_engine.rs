//! The cleaning engine: classification, exclusions and the plan of a run.

use offcut::clean::{
    build_exclusions, clean, clean_args, dry_run, enumerate_untracked, git_cmd, is_listing_ok,
    run_git_clean, subtree_listing_args, untracked_listing_args, Classification, CleanItem,
    CleanStep, Enumeration, GitReply,
};
use offcut::ignore_rules::{IgnoreFile, IgnoreSet};
use offcut::safelist::{built_in, SafeSet};

fn item(path: &str, is_dir: bool, classification: Classification) -> CleanItem {
    CleanItem { rel_path: path.to_string(), is_dir, classification }
}

fn safe_set() -> SafeSet {
    let known = built_in();
    SafeSet::merge("/work/project", None, &known, &[]).unwrap()
}

/// The rules of a project whose root holds one ignore file with this text.
fn rules(text: &str) -> IgnoreSet {
    let files = vec![IgnoreFile { dir: "/work/project".to_string(), text: text.to_string() }];
    IgnoreSet::load("/work/project", None, None, &files).unwrap()
}

fn no_rules() -> IgnoreSet {
    IgnoreSet::load("/work/project", None, None, &[]).unwrap()
}

/// A listing as git writes it: every entry ends in a NUL.
fn listing(entries: &[&str]) -> Result<String, String> {
    let mut out = String::new();
    for e in entries {
        out.push_str(e);
        out.push('\0');
    }
    Ok(out)
}

fn items_of(e: Enumeration) -> Vec<CleanItem> {
    match e {
        Enumeration::Items(items) => items,
        Enumeration::Failed(e) => panic!("enumeration failed: {e}"),
        Enumeration::NeedsListing(dir) => panic!("{dir} was not listed"),
    }
}

fn class_of(items: &[CleanItem], path: &str) -> Option<Classification> {
    items.iter().find(|i| i.rel_path == path).map(|i| i.classification)
}

fn texts(args: &[&str]) -> Vec<String> {
    args.iter().map(|a| a.to_string()).collect()
}

#[test]
fn devcleanignored_file_is_protected() {
    let ignore_set = rules("*.log\n");
    let listed = listing(&[".devcleanignore", "debug.log"]);
    let items = items_of(enumerate_untracked(&listed, &[], &ignore_set, &safe_set()));
    assert!(
        items
            .iter()
            .any(|i| i.classification == Classification::Protected && i.rel_path == "debug.log"),
        "expected debug.log protected: {items:?}"
    );
}

#[test]
fn devcleanignored_directory_is_protected_once() {
    let ignore_set = rules("build/\n");
    let listed = listing(&[".devcleanignore", "build/"]);
    let items = items_of(enumerate_untracked(&listed, &[], &ignore_set, &safe_set()));
    let protected: Vec<&str> = items
        .iter()
        .filter(|i| i.classification == Classification::Protected)
        .map(|i| i.rel_path.as_str())
        .collect();
    assert!(protected.iter().any(|p| *p == "build"), "expected build protected once: {items:?}");
    assert_eq!(protected.len(), 1);
}

#[test]
fn safe_listed_directory_is_safe() {
    let listed = listing(&["target/"]);
    let items = items_of(enumerate_untracked(&listed, &[], &no_rules(), &safe_set()));
    assert!(
        items.iter().any(|i| i.classification == Classification::Safe && i.rel_path == "target"),
        "expected target safe: {items:?}"
    );
}

#[test]
fn whitelisted_path_is_not_protected() {
    let layers: [(&str, &[&str]); 1] = [("", &["*.log", "!keep.log"])];
    let ignore_set = IgnoreSet::from_layers("/work/project", None, &layers).unwrap();
    let listed = listing(&["keep.log"]);
    let items = items_of(enumerate_untracked(&listed, &[], &ignore_set, &safe_set()));
    assert!(
        items
            .iter()
            .any(|i| i.classification == Classification::Surfaced && i.rel_path == "keep.log"),
        "whitelisted keep.log should be surfaced, not protected: {items:?}"
    );
}

#[test]
fn absolute_path_is_never_selected_for_deletion() {
    let abs = "/tmp/devclean-noise";
    assert!(offcut::paths::has_root(abs));
    let items = vec![item("/tmp/devclean-noise", false, Classification::Protected)];
    let excl = build_exclusions(&items, &Vec::new(), false);
    assert!(
        excl.iter().any(|e| e == "//tmp/devclean-noise"),
        "absolute protected path should be excluded: {excl:?}"
    );
    // A listing that names an absolute path never offers it for removal.
    let listed = listing(&["/tmp/devclean-noise"]);
    let items = items_of(enumerate_untracked(&listed, &[], &no_rules(), &safe_set()));
    assert_eq!(class_of(&items, "/tmp/devclean-noise"), Some(Classification::Protected));
}

#[test]
fn exclusions_split_approved_and_disapproved() {
    let items = vec![
        item("important.bin", false, Classification::Protected),
        item("b.tmp", false, Classification::Surfaced),
        item("c.tmp", false, Classification::Surfaced),
        item("target", true, Classification::Safe),
    ];

    let excl = build_exclusions(&items, &Vec::new(), false);
    assert!(excl.iter().any(|e| e == "/important.bin"));
    assert!(excl.iter().any(|e| e == "/b.tmp"));
    assert!(excl.iter().any(|e| e == "/c.tmp"));
    assert!(!excl.iter().any(|e| e == "/target"));

    let excl = build_exclusions(&items, &vec!["b.tmp".to_string()], false);
    assert!(!excl.iter().any(|e| e == "/b.tmp"));
    assert!(excl.iter().any(|e| e == "/c.tmp"));

    let excl = build_exclusions(&items, &Vec::new(), true);
    assert!(excl.iter().any(|e| e == "/important.bin"));
    assert!(!excl.iter().any(|e| e == "/b.tmp"));
    assert!(!excl.iter().any(|e| e == "/c.tmp"));
    assert!(!excl.iter().any(|e| e == "/target"));
}

#[test]
fn exclusions_escape_glob_metacharacters() {
    let items = vec![
        item("important [backup].dat", false, Classification::Protected),
        item("star*name?.tmp", false, Classification::Surfaced),
        item("trailing  ", false, Classification::Protected),
    ];
    let excl = build_exclusions(&items, &Vec::new(), false);
    assert!(
        excl.iter().any(|e| e == "/important \\[backup\\].dat"),
        "bracket name should be escaped: {excl:?}"
    );
    assert!(
        excl.iter().any(|e| e == "/star\\*name\\?.tmp"),
        "star/question name should be escaped: {excl:?}"
    );
    assert!(
        excl.iter().any(|e| e == "/trailing\\ \\ "),
        "trailing spaces should be escaped: {excl:?}"
    );
}

#[test]
fn dry_run_does_not_delete() {
    let listed = listing(&["ambiguous.tmp"]);
    let items = items_of(dry_run(&listed, &[], &no_rules(), &safe_set()));
    assert!(
        items
            .iter()
            .any(|i| i.classification == Classification::Surfaced && i.rel_path == "ambiguous.tmp"),
        "expected ambiguous.tmp surfaced: {items:?}"
    );
    // Nothing is run in a dry run, even with force.
    match clean(&listed, &[], &no_rules(), &safe_set(), &Vec::new(), true, true) {
        CleanStep::Ready { command, .. } => assert_eq!(command, None),
        _ => panic!("the listing is complete"),
    }
}

#[test]
fn content_patterns_apply_inside_untracked_directories() {
    let ignore_set = rules("*.js\n");
    let listed = listing(&[".devcleanignore", "junk/"]);
    match enumerate_untracked(&listed, &[], &ignore_set, &safe_set()) {
        Enumeration::NeedsListing(dir) => assert_eq!(dir, "junk"),
        _ => panic!("the files of junk have to be listed"),
    }
    let subtrees = vec![listing(&["junk/keep.js", "junk/other.txt"])];
    let items = items_of(enumerate_untracked(&listed, &subtrees, &ignore_set, &safe_set()));
    assert_eq!(
        class_of(&items, "junk/keep.js"),
        Some(Classification::Protected),
        "expected junk/keep.js protected by *.js: {items:?}"
    );
    assert_eq!(
        class_of(&items, "junk/other.txt"),
        Some(Classification::Surfaced),
        "expected junk/other.txt surfaced: {items:?}"
    );
}

#[test]
fn empty_devcleanignored_directory_is_protected() {
    let ignore_set = rules("keepempty/\n");
    let listed = listing(&["keepempty/"]);
    let items = items_of(enumerate_untracked(&listed, &[], &ignore_set, &safe_set()));
    assert!(
        items.iter().any(|i| {
            i.classification == Classification::Protected && i.is_dir && i.rel_path == "keepempty"
        }),
        "empty protected dir should be classified Protected: {items:?}"
    );
}

#[test]
fn empty_untracked_directory_is_surfaced_and_kept_without_approval() {
    let listed = listing(&["emptyjunk/"]);
    let subtrees = vec![listing(&[])];
    let items = items_of(enumerate_untracked(&listed, &subtrees, &no_rules(), &safe_set()));
    assert!(
        items.iter().any(|i| {
            i.classification == Classification::Surfaced && i.is_dir && i.rel_path == "emptyjunk"
        }),
        "empty untracked dir should be classified Surfaced: {items:?}"
    );
    match clean(&listed, &subtrees, &no_rules(), &safe_set(), &Vec::new(), false, false) {
        CleanStep::Ready { command, left } => {
            assert!(left.iter().any(|i| i.rel_path == "emptyjunk"));
            assert_eq!(command, Some(texts(&["clean", "-xfd", "-e", "/emptyjunk"])));
        }
        _ => panic!("the listing is complete"),
    }
}

#[test]
fn clean_force_removes_safe_and_surfaced_keeps_protected() {
    let ignore_set = rules("important.dat\n");
    let listed = listing(&["ambiguous.tmp", "important.dat", "target/"]);
    match clean(&listed, &[], &ignore_set, &safe_set(), &Vec::new(), true, false) {
        CleanStep::Ready { command, left } => {
            assert!(left.is_empty(), "force should auto-approve all: {left:?}");
            // The protected file is kept; nothing keeps the others.
            let command = command.expect("git is run");
            assert!(command.contains(&"/important.dat".to_string()));
            assert!(!command.iter().any(|a| a.contains("target")));
            assert!(!command.iter().any(|a| a.contains("ambiguous.tmp")));
            assert_eq!(command, texts(&["clean", "-xfd", "-e", "/important.dat"]));
        }
        _ => panic!("the listing is complete"),
    }
}

#[test]
fn clean_keeps_protected_file_with_glob_metacharacters_in_name() {
    let ignore_set = rules("important*\n");
    let listed = listing(&["ambiguous.tmp", "important [backup].dat"]);
    match clean(&listed, &[], &ignore_set, &safe_set(), &Vec::new(), true, false) {
        CleanStep::Ready { command, .. } => {
            let command = command.expect("git is run");
            assert_eq!(
                command,
                texts(&["clean", "-xfd", "-e", "/important \\[backup\\].dat"]),
                "protected metacharacter-named file must survive git clean"
            );
            assert!(!command.iter().any(|a| a.contains("ambiguous.tmp")));
        }
        _ => panic!("the listing is complete"),
    }
}

#[test]
fn clean_force_keeps_empty_protected_dir_removes_empty_surfaced_dir() {
    let ignore_set = rules("keepempty/\n");
    let listed = listing(&["emptyjunk/", "keepempty/"]);
    let subtrees = vec![listing(&[])];
    match clean(&listed, &subtrees, &ignore_set, &safe_set(), &Vec::new(), true, false) {
        CleanStep::Ready { command, .. } => {
            let command = command.expect("git is run");
            assert!(
                command.iter().any(|a| a.contains("keepempty")),
                "empty protected dir must survive git clean"
            );
            assert!(
                !command.iter().any(|a| a.contains("emptyjunk")),
                "empty surfaced dir should be removed in force mode"
            );
        }
        _ => panic!("the listing is complete"),
    }
}

#[test]
fn a_failed_listing_leaves_nothing_to_run() {
    let failed: Result<String, String> = Err("git is gone".to_string());
    match clean(&failed, &[], &no_rules(), &safe_set(), &Vec::new(), true, false) {
        CleanStep::Failed(e) => assert_eq!(e, "git is gone"),
        _ => panic!("nothing may be run"),
    }
    let listed = listing(&["junk/"]);
    let subtrees = vec![Err("junk is gone".to_string())];
    match clean(&listed, &subtrees, &no_rules(), &safe_set(), &Vec::new(), true, false) {
        CleanStep::Failed(e) => assert_eq!(e, "junk is gone"),
        _ => panic!("nothing may be run"),
    }
}

#[test]
fn approval_takes_an_item_off_the_exclusions() {
    let listed = listing(&["a.tmp", "b.tmp"]);
    let approved = vec!["a.tmp".to_string()];
    match clean(&listed, &[], &no_rules(), &safe_set(), &approved, false, false) {
        CleanStep::Ready { command, left } => {
            assert_eq!(command, Some(texts(&["clean", "-xfd", "-e", "/b.tmp"])));
            assert_eq!(left.len(), 1);
            assert_eq!(left[0].rel_path, "b.tmp");
        }
        _ => panic!("the listing is complete"),
    }
}

#[test]
fn a_dry_run_shows_the_full_surfaced_set() {
    let listed = listing(&["a.tmp", "node_modules/", "b.tmp"]);
    let approved = vec!["a.tmp".to_string()];
    match clean(&listed, &[], &no_rules(), &safe_set(), &approved, false, true) {
        CleanStep::Ready { command, left } => {
            assert_eq!(command, None);
            let shown: Vec<&str> = left.iter().map(|i| i.rel_path.as_str()).collect();
            assert_eq!(shown, vec!["a.tmp", "b.tmp"]);
        }
        _ => panic!("the listing is complete"),
    }
    match clean(&listed, &[], &no_rules(), &safe_set(), &approved, true, true) {
        CleanStep::Ready { command, left } => {
            assert_eq!(command, None);
            assert!(left.is_empty());
        }
        _ => panic!("the listing is complete"),
    }
}

#[test]
fn git_is_called_with_these_arguments() {
    assert_eq!(untracked_listing_args(), texts(&["ls-files", "--others", "--directory", "-z"]));
    assert_eq!(
        subtree_listing_args("a/b"),
        texts(&["ls-files", "--others", "-z", "--", "a/b"])
    );
    assert_eq!(clean_args(&[]), texts(&["clean", "-xfd"]));
}

#[test]
fn git_replies_become_messages() {
    let args = texts(&["ls-files", "-z"]);
    assert_eq!(
        git_cmd("/p", &args, &GitReply::NotRun("no such file".to_string())),
        Err("git command failed: no such file".to_string())
    );
    assert_eq!(
        git_cmd("/p", &args, &GitReply::Refused { code: 128, stderr: "fatal".to_string() }),
        Err("git -C /p ls-files -z failed (exit 128): fatal".to_string())
    );
    assert_eq!(
        git_cmd("/p", &args, &GitReply::Output(None)),
        Err("git -C /p ls-files -z: output contains non-UTF-8 path(s); refusing to clean this project"
            .to_string())
    );
    assert_eq!(
        git_cmd("/p", &args, &GitReply::Output(Some("a\0".to_string()))),
        Ok("a\0".to_string())
    );
    assert_eq!(run_git_clean(&GitReply::Output(None)), Ok(()));
    assert_eq!(
        run_git_clean(&GitReply::Refused { code: -1, stderr: "killed".to_string() }),
        Err("git clean failed (exit -1): killed".to_string())
    );
}

#[test]
fn listings_with_unmatchable_entries_are_spotted() {
    assert!(is_listing_ok("a\0b/\0"));
    assert!(!is_listing_ok(".///a\0"));
}
