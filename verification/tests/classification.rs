//! The states of a project, from what git and the file system say of it.

use offcut::classify::{
    changes_tracked_file, classify, git_cmd, probe_args, remote_warning, GitEntry, GitFacts, Probe,
    Status, Step,
};
use offcut::clean::GitReply;
use offcut::ignore_rules::IgnoreSet;

/// What git says of a project, question by question.
struct World {
    entry: GitEntry,
    git_dir: Result<&'static str, &'static str>,
    remotes: Result<&'static str, &'static str>,
    upstream: Result<&'static str, &'static str>,
    head: Result<&'static str, &'static str>,
    unpushed: Result<&'static str, &'static str>,
    changes: Result<&'static str, &'static str>,
    untracked: Result<&'static str, &'static str>,
    below: Vec<(&'static str, Result<&'static str, &'static str>)>,
}

/// A project that is committed and pushed, with nothing untracked.
fn settled() -> World {
    World {
        entry: GitEntry::Other,
        git_dir: Ok(".git\n"),
        remotes: Ok("origin\t/srv/app.git (fetch)\n"),
        upstream: Ok("1f2e3d\n"),
        head: Ok("1f2e3d\n"),
        unpushed: Ok(""),
        changes: Ok(""),
        untracked: Ok(""),
        below: Vec::new(),
    }
}

fn owned(r: &Result<&'static str, &'static str>) -> Result<String, String> {
    match r {
        Ok(s) => Ok(s.to_string()),
        Err(s) => Err(s.to_string()),
    }
}

/// Answers questions until the status is settled.
fn status_of(world: &World, rules: &[&str]) -> Status {
    let set = IgnoreSet::from_layers("/p", None, &[("", rules)]).unwrap_or_else(|e| panic!("{e}"));
    let mut facts = GitFacts::unknown();
    for _ in 0..32 {
        match classify(&facts, &set) {
            Step::Done(status) => return status,
            Step::Ask(Probe::GitEntry) => facts.git_entry = Some(world.entry),
            Step::Ask(Probe::GitDir) => facts.git_dir = Some(owned(&world.git_dir)),
            Step::Ask(Probe::Remotes) => facts.remotes = Some(owned(&world.remotes)),
            Step::Ask(Probe::Upstream) => facts.upstream = Some(owned(&world.upstream)),
            Step::Ask(Probe::Head) => facts.head = Some(owned(&world.head)),
            Step::Ask(Probe::UnpushedCommits) => {
                facts.unpushed_commits = Some(owned(&world.unpushed))
            }
            Step::Ask(Probe::Changes) => facts.changes = Some(owned(&world.changes)),
            Step::Ask(Probe::Untracked) => facts.untracked = Some(owned(&world.untracked)),
            Step::Ask(Probe::FilesUnder(dir)) => {
                let answer = world.below.iter().find(|(d, _)| *d == dir);
                facts.subtrees.push(owned(&answer.expect("an unexpected directory").1));
            }
        }
    }
    panic!("the questions do not end");
}

#[test]
fn no_git_when_no_git_dir() {
    let mut w = settled();
    w.entry = GitEntry::Missing;
    assert_eq!(status_of(&w, &[]), Status::NoGit);
}

#[test]
fn a_git_file_that_git_cannot_follow_is_no_git() {
    let mut w = settled();
    w.entry = GitEntry::File;
    assert_eq!(status_of(&w, &[]), Status::Clean);
    w.git_dir = Err("not a git repository");
    assert_eq!(status_of(&w, &[]), Status::NoGit);
}

#[test]
fn no_git_not_reported_when_git_dir_present() {
    let mut w = settled();
    w.untracked = Ok("secret.txt\0");
    assert_eq!(status_of(&w, &[]), Status::Cleanable);
}

#[test]
fn no_remote_when_no_remote_configured() {
    let mut w = settled();
    w.remotes = Ok(" \n");
    assert_eq!(status_of(&w, &[]), Status::NoRemote);
    w.remotes = Err("broken");
    assert_eq!(status_of(&w, &[]), Status::NoRemote);
}

#[test]
fn unpushed_when_no_upstream() {
    // A commit on top of what was pushed.
    let mut w = settled();
    w.head = Ok("4d5e6f\n");
    w.unpushed = Ok("4d5e6f\n");
    assert_eq!(status_of(&w, &[]), Status::Unpushed);
    let mut w = settled();
    w.upstream = Err("no upstream");
    assert_eq!(status_of(&w, &[]), Status::Unpushed);
}

#[test]
fn unpushed_without_a_commit_or_with_one_ahead() {
    let mut w = settled();
    w.head = Err("unknown revision");
    assert_eq!(status_of(&w, &[]), Status::Unpushed);
    let mut w = settled();
    w.unpushed = Ok("9a9a9a\n");
    assert_eq!(status_of(&w, &[]), Status::Unpushed);
    w.unpushed = Err("bad revision");
    assert_eq!(status_of(&w, &[]), Status::Unpushed);
    // Where git sees no repository, nothing counts as unpushed.
    let mut w = settled();
    w.git_dir = Err("not a git repository");
    assert_eq!(status_of(&w, &[]), Status::Clean);
}

#[test]
fn wip_when_modified_tracked_file() {
    let mut w = settled();
    w.changes = Ok(" M initial.txt\n");
    assert_eq!(status_of(&w, &[]), Status::Wip);
    w.changes = Ok("?? junk\n M src/main.rs\n");
    assert_eq!(status_of(&w, &[]), Status::Wip);
}

#[test]
fn cleanable_when_untracked_non_ignored_file() {
    let mut w = settled();
    w.changes = Ok("?? secret.txt\n");
    w.untracked = Ok("secret.txt\0");
    assert_eq!(status_of(&w, &[]), Status::Cleanable);
}

#[test]
fn clean_when_all_untracked_are_ignored() {
    let mut w = settled();
    w.untracked = Ok("node_modules\0");
    assert_eq!(status_of(&w, &["**/node_modules"]), Status::Clean);
    w.untracked = Ok("a.log\0keep/\0");
    assert_eq!(status_of(&w, &["*.log", "keep/"]), Status::Clean);
}

#[test]
fn cleanable_when_junk_is_gitignored_but_not_offcutignored() {
    // What the project's own `.gitignore` names is listed too, and only the
    // ignore rules of the tool protect it.
    let args = probe_args(&Probe::Untracked).expect("git is asked");
    assert!(!args.iter().any(|a| a == "--exclude-standard"));
    let mut w = settled();
    w.untracked = Ok("node_modules/\0");
    w.below = vec![("node_modules", Ok("node_modules/junk.txt\0"))];
    assert_eq!(status_of(&w, &[]), Status::Cleanable);
}

#[test]
fn clean_when_ignored_untracked_directory_has_contents() {
    let mut w = settled();
    w.untracked = Ok("node_modules/\0");
    w.below = vec![("node_modules", Ok("node_modules/pkg/index.js\0"))];
    assert_eq!(status_of(&w, &["node_modules/"]), Status::Clean);
}

#[test]
fn clean_when_untracked_directory_name_has_glob_metacharacters() {
    let args = probe_args(&Probe::FilesUnder("w[t]d".to_string())).expect("git is asked");
    assert_eq!(args.last().map(|a| a.as_str()), Some(":(literal)w[t]d"));
    let mut w = settled();
    w.untracked = Ok("w[t]d/\0");
    w.below = vec![("w[t]d", Ok("w[t]d/a.js\0"))];
    assert_eq!(status_of(&w, &["*.js"]), Status::Clean);
}

#[test]
fn clean_when_only_untracked_directory_is_empty() {
    // Git is asked to leave an empty `scratch/` out.
    let args = probe_args(&Probe::Untracked).expect("git is asked");
    assert!(args.iter().any(|a| a == "--no-empty-directory"));
    assert_eq!(status_of(&settled(), &[]), Status::Clean);
}

#[test]
fn clean_when_ignored_untracked_path_is_non_ascii() {
    let mut w = settled();
    w.untracked = Ok("café.txt\0");
    assert_eq!(status_of(&w, &["café.txt"]), Status::Clean);
    assert_eq!(status_of(&w, &["cafe.txt"]), Status::Cleanable);
}

#[test]
fn clean_when_untracked_directory_contents_match_a_content_pattern() {
    let mut w = settled();
    w.untracked = Ok("logs/\0");
    w.below = vec![("logs", Ok("logs/a.js\0logs/b.js\0"))];
    assert_eq!(status_of(&w, &["*.js"]), Status::Clean);
}

#[test]
fn cleanable_when_untracked_directory_holds_one_non_ignored_file() {
    let mut w = settled();
    w.untracked = Ok("logs/\0");
    w.below = vec![("logs", Ok("logs/a.js\0logs/keep.txt\0"))];
    assert_eq!(status_of(&w, &["*.js"]), Status::Cleanable);
    // A listing that fails shows nothing.
    w.below = vec![("logs", Err("broken"))];
    assert_eq!(status_of(&w, &["*.js"]), Status::Clean);
    w.untracked = Err("broken");
    assert_eq!(status_of(&w, &[]), Status::Clean);
}

#[test]
fn precedence_wip_over_cleanable() {
    let mut w = settled();
    w.changes = Ok(" M initial.txt\n?? junk.txt\n");
    w.untracked = Ok("junk.txt\0");
    assert_eq!(status_of(&w, &[]), Status::Wip);
    w.unpushed = Ok("9a9a9a\n");
    assert_eq!(status_of(&w, &[]), Status::Unpushed);
    w.remotes = Ok("");
    assert_eq!(status_of(&w, &[]), Status::NoRemote);
    w.entry = GitEntry::Missing;
    assert_eq!(status_of(&w, &[]), Status::NoGit);
}

#[test]
fn clean_when_no_untracked_files() {
    assert_eq!(status_of(&settled(), &[]), Status::Clean);
}

#[test]
fn questions_stop_once_the_status_is_settled() {
    let set = IgnoreSet::empty();
    let mut facts = GitFacts::unknown();
    assert!(matches!(classify(&facts, &set), Step::Ask(Probe::GitEntry)));
    facts.git_entry = Some(GitEntry::Other);
    assert!(matches!(classify(&facts, &set), Step::Ask(Probe::Remotes)));
    facts.remotes = Some(Ok(String::new()));
    assert!(matches!(classify(&facts, &set), Step::Done(Status::NoRemote)));
}

#[test]
fn lines_about_untracked_files_are_no_changes() {
    assert!(!changes_tracked_file(""));
    assert!(!changes_tracked_file("?? a\n?? b\n"));
    assert!(!changes_tracked_file("?\n\n"));
    assert!(changes_tracked_file("?? a\nA  b\n"));
    assert!(changes_tracked_file("R  a -> b"));
}

#[test]
fn ranks_follow_severity() {
    let all = [
        (Status::NoGit, 1, "no-git"),
        (Status::NoRemote, 2, "no-remote"),
        (Status::Unpushed, 3, "unpushed"),
        (Status::Wip, 4, "wip"),
        (Status::Cleanable, 5, "cleanable"),
        (Status::Clean, 6, "clean"),
    ];
    for (status, rank, label) in all {
        assert_eq!(status.rank(), rank);
        assert_eq!(status.label(), label);
    }
}

#[test]
fn sorting_by_rank_and_by_status_agree() {
    let all = [
        Status::Clean,
        Status::Wip,
        Status::NoGit,
        Status::Cleanable,
        Status::NoRemote,
        Status::Unpushed,
    ];
    for a in all {
        for b in all {
            assert_eq!(a.cmp(&b), a.rank().cmp(&b.rank()));
            assert_eq!(a.partial_cmp(&b), Some(a.cmp(&b)));
            assert_eq!(a < b, a.rank() < b.rank());
        }
    }
    let mut by_status = all.to_vec();
    let mut by_rank = all.to_vec();
    by_status.sort();
    by_rank.sort_by_key(|s| s.rank());
    assert_eq!(by_status, by_rank);
    assert_eq!(by_status[0], Status::NoGit);
}

#[test]
fn questions_have_their_git_commands() {
    fn args(p: Probe) -> String {
        probe_args(&p).map(|a| a.join(" ")).unwrap_or_default()
    }
    assert!(probe_args(&Probe::GitEntry).is_none());
    assert_eq!(args(Probe::GitDir), "rev-parse --git-dir");
    assert_eq!(args(Probe::Remotes), "remote -v");
    assert_eq!(args(Probe::Upstream), "rev-parse @{u}");
    assert_eq!(args(Probe::Head), "rev-parse HEAD");
    assert_eq!(args(Probe::UnpushedCommits), "rev-list @{u}..HEAD --");
    assert_eq!(args(Probe::Changes), "status --porcelain");
    assert_eq!(
        args(Probe::Untracked),
        "ls-files --others --directory --no-empty-directory -z"
    );
    assert_eq!(
        args(Probe::FilesUnder("a[b]".to_string())),
        "ls-files --others -z -- :(literal)a[b]"
    );
}

#[test]
fn git_failures_are_told() {
    let args = vec!["remote".to_string(), "-v".to_string()];
    assert_eq!(
        git_cmd(&args, &GitReply::Output(Some("x\n".to_string()))),
        Ok("x\n".to_string())
    );
    assert_eq!(
        git_cmd(&args, &GitReply::NotRun("no such file".to_string())),
        Err("git command failed: no such file".to_string())
    );
    let refused = GitReply::Refused { code: 128, stderr: "fatal: bad".to_string() };
    assert_eq!(
        git_cmd(&args, &refused),
        Err("git command failed (exit 128): remote -v — fatal: bad".to_string())
    );
    let mut facts = GitFacts::unknown();
    assert_eq!(remote_warning("/p", &facts), None);
    facts.remotes = Some(Err("boom".to_string()));
    assert_eq!(
        remote_warning("/p", &facts).as_deref(),
        Some("warning: /p: could not read remotes, reporting as no-remote: boom")
    );
}
