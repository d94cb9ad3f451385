//! Discovery: markers, pruning, nesting, and targets.

use offcut::config::Config;
use offcut::discovery::{
    build_prune_set, contains_glob_meta, discover, discover_single, enters, find_marker_in,
    git_toplevel, has_ancestor_git, no_roots_notice, resolve_path, toplevel_args, walk_root,
    DiscoveredProject, Discovery, MarkerSet, RootWalk, Target, WalkEntry,
};
use offcut::paths::normalized_absolute;

fn mkconfig(root: &str, markers: &[&str], depth: usize) -> Config {
    let mut cfg = Config::default();
    cfg.workspace_roots = vec![root.to_string()];
    cfg.max_depth = depth;
    cfg.project_markers = markers.iter().map(|s| s.to_string()).collect();
    cfg
}

fn names(v: &[&str]) -> Vec<String> {
    v.iter().map(|s| s.to_string()).collect()
}

/// A folder of a walk: the way to it from the root, and what is in it.
fn dir(path: &str, children: &[&str]) -> Result<WalkEntry, String> {
    Ok(WalkEntry {
        names: path.split('/').filter(|s| !s.is_empty()).map(|s| s.to_string()).collect(),
        is_dir: true,
        has_git: children.contains(&".git"),
        children: Some(names(children)),
    })
}

fn found(cfg: &Config, entries: Vec<Result<WalkEntry, String>>) -> Vec<DiscoveredProject> {
    let walks = vec![RootWalk { is_dir: true, entries }];
    match discover(cfg, &walks) {
        Discovery::Found(v) => v,
        Discovery::Failed(e) => panic!("discovery failed: {e}"),
        Discovery::NeedsWalk(n) => panic!("root {n} was not walked"),
    }
}

fn paths(v: &[DiscoveredProject]) -> Vec<&str> {
    v.iter().map(|p| p.path.as_str()).collect()
}

#[test]
fn literal_marker_detected() {
    let cfg = mkconfig("/ws", &[".git"], 2);
    let results = found(&cfg, vec![dir("", &[".git", "README.md"])]);
    assert_eq!(results.len(), 1);
    assert_eq!(results[0].path, "/ws");
    assert_eq!(results[0].marker, ".git");
}

#[test]
fn glob_marker_detected() {
    let cfg = mkconfig("/ws", &["*.csproj"], 2);
    let results = found(&cfg, vec![dir("", &["Foo.csproj", "README.md"])]);
    assert_eq!(results.len(), 1);
    assert_eq!(results[0].marker, "*.csproj");
}

#[test]
fn nested_git_suppressed_inside_root() {
    let cfg = mkconfig("/ws", &[".git"], 2);
    let results = found(&cfg, vec![dir("", &[".git", "src"]), dir("src", &[".git"])]);
    assert_eq!(results.len(), 1);
    assert_eq!(results[0].path, "/ws");
    assert_eq!(results[0].marker, ".git");
}

#[test]
fn nested_non_git_suppressed_inside_root() {
    let cfg = mkconfig("/ws", &[".git", "package.json"], 2);
    let results = found(
        &cfg,
        vec![
            dir("", &[".git", "packages"]),
            dir("packages", &["a"]),
            dir("packages/a", &["package.json"]),
        ],
    );
    assert_eq!(results.len(), 1);
    assert_eq!(results[0].path, "/ws");
    assert_eq!(results[0].marker, ".git");
}

#[test]
fn max_depth_limits_walk() {
    let cfg = mkconfig("/ws", &[".git", "package.json", "Cargo.toml"], 1);
    let results = found(
        &cfg,
        vec![
            dir("", &[".git", "a"]),
            dir("a", &["package.json", "b"]),
            dir("a/b", &["Cargo.toml"]),
        ],
    );
    // The root, which has `.git`, is reported; `a` lies inside that git
    // project, and `a/b` is too deep.
    assert_eq!(results.len(), 1);
    let paths = paths(&results);
    assert!(paths.iter().any(|p| *p == "/ws"));
    assert!(!paths.iter().any(|p| p.ends_with("a")));
    assert!(!paths.iter().any(|p| p.ends_with("b")));
}

#[test]
fn folders_below_the_depth_are_not_found() {
    let cfg = mkconfig("/ws", &["package.json", "Cargo.toml"], 1);
    let results = found(
        &cfg,
        vec![
            dir("", &["a"]),
            dir("a", &["package.json", "b"]),
            dir("a/b", &["Cargo.toml"]),
        ],
    );
    assert_eq!(paths(&results), vec!["/ws/a"]);
}

#[test]
fn empty_workspace_returns_clear_message() {
    let mut cfg = mkconfig("/ws", &[".git"], 2);
    cfg.workspace_roots = Vec::new();
    match discover(&cfg, &Vec::new()) {
        Discovery::Found(v) => assert!(v.is_empty()),
        _ => panic!("there is nothing to walk"),
    }
    assert!(no_roots_notice().contains("no workspace roots configured"));
}

#[test]
fn no_marker_is_not_reported() {
    let cfg = mkconfig("/ws", &[".git", "package.json"], 2);
    let results = found(&cfg, vec![dir("", &["README.md", "src"]), dir("src", &["main.rs"])]);
    assert_eq!(results.len(), 0);
}

#[test]
fn workspace_root_boundary_respected() {
    let cfg = mkconfig("/ws", &[".git"], 2);
    let results = found(
        &cfg,
        vec![dir("", &["outside"]), dir("outside", &["deep"]), dir("outside/deep", &[".git"])],
    );
    assert_eq!(results.len(), 1);
    assert_eq!(results[0].path, "/ws/outside/deep");
}

#[test]
fn missing_workspace_root_errors() {
    let cfg = mkconfig("/does/not/exist", &[".git"], 2);
    let walks = vec![RootWalk { is_dir: false, entries: Vec::new() }];
    match discover(&cfg, &walks) {
        Discovery::Failed(e) => assert_eq!(e, "workspace root not found: /does/not/exist"),
        _ => panic!("the root is missing"),
    }
}

#[test]
fn marker_set_ignores_non_listed_basename() {
    let ms = MarkerSet::from_entries(&[".git".to_string(), "*.csproj".to_string()])
        .unwrap_or_else(|e| panic!("{e}"));
    assert_eq!(ms.matches("README.md"), None);
    assert_eq!(ms.matches("main.rs"), None);
    assert_eq!(ms.matches(".git"), Some(".git"));
    assert_eq!(ms.matches("Foo.csproj"), Some("*.csproj"));
}

#[test]
fn marker_set_rejects_malformed_glob() {
    assert!(MarkerSet::from_entries(&["[unclosed".to_string()]).is_err());
    let e = MarkerSet::from_entries(&names(&["ok", "[unclosed", "[bad"])).err();
    assert_eq!(e.as_deref(), Some("Pattern syntax error near position 0: invalid range pattern"));
    // It fails discovery before any root is walked.
    let cfg = mkconfig("/ws", &["[unclosed"], 2);
    assert!(matches!(discover(&cfg, &Vec::new()), Discovery::Failed(_)));
}

#[test]
fn discovered_paths_are_absolute() {
    let cfg = mkconfig("/ws", &[".git"], 1);
    let results = found(&cfg, vec![dir("", &[".git"])]);
    assert!(results[0].path.starts_with('/'));
}

#[test]
fn nested_git_with_other_marker_still_suppressed() {
    let cfg = mkconfig("/ws", &["package.json", ".git"], 2);
    let results = found(
        &cfg,
        vec![dir("", &[".git", "vendored"]), dir("vendored", &["package.json", ".git"])],
    );
    assert_eq!(results.len(), 1);
    assert_eq!(results[0].path, "/ws");
    assert_eq!(results[0].marker, ".git");
}

#[test]
fn root_marker_not_suppressed_by_git_above_boundary() {
    // Nothing above the root is in the walk, so nothing above it counts.
    let cfg = mkconfig("/outer/workspace", &[".git", "Cargo.toml"], 2);
    let results = found(&cfg, vec![dir("", &["Cargo.toml"])]);
    assert_eq!(paths(&results), vec!["/outer/workspace"]);
    assert_eq!(results[0].marker, "Cargo.toml");
    assert!(!has_ancestor_git("/outer/workspace", "/outer/workspace", &names(&["/outer"])));
    assert!(!has_ancestor_git("/outer/workspace/a", "/outer/workspace", &names(&["/outer"])));
    assert!(has_ancestor_git(
        "/outer/workspace/a/b",
        "/outer/workspace/",
        &names(&["/outer/workspace"])
    ));
}

#[test]
fn monorepo_reports_only_root_git() {
    let cfg = mkconfig("/ws", &[".git", "package.json"], 3);
    let results = found(
        &cfg,
        vec![
            dir("", &[".git", "packages"]),
            dir("packages", &["a", "b"]),
            dir("packages/a", &["package.json"]),
            dir("packages/b", &["package.json"]),
        ],
    );
    assert_eq!(results.len(), 1);
    assert_eq!(results[0].path, "/ws");
    assert_eq!(results[0].marker, ".git");
    assert!(!paths(&results).contains(&"/ws/packages/a"));
    assert!(!paths(&results).contains(&"/ws/packages/b"));
}

#[test]
fn nested_worktree_with_real_gitdir_suppressed() {
    // Whatever a nested `.git` is, the folder lies inside the root's project.
    let cfg = mkconfig("/ws", &[".git", "package.json"], 3);
    let results = found(
        &cfg,
        vec![
            dir("", &[".git", ".worktrees"]),
            dir(".worktrees", &["work"]),
            dir(".worktrees/work", &["issue-1"]),
            dir(".worktrees/work/issue-1", &[".git"]),
        ],
    );
    assert_eq!(results.len(), 1);
    assert_eq!(results[0].path, "/ws");
    assert_eq!(results[0].marker, ".git");
    assert!(!paths(&results).contains(&"/ws/.worktrees/work/issue-1"));
}

#[test]
fn nested_worktree_with_dangling_gitdir_suppressed() {
    // A `.git` that points nowhere is still listed, though nothing is there.
    let cfg = mkconfig("/ws", &[".git", "package.json"], 3);
    let mut worktree = dir(".worktrees/work/issue-2", &[".git"]);
    if let Ok(e) = &mut worktree {
        e.has_git = false;
    }
    let results = found(
        &cfg,
        vec![
            dir("", &[".git", ".worktrees"]),
            dir(".worktrees", &["work"]),
            dir(".worktrees/work", &["issue-2"]),
            worktree,
        ],
    );
    assert_eq!(results.len(), 1);
    assert_eq!(results[0].path, "/ws");
    assert_eq!(results[0].marker, ".git");
    assert!(!paths(&results).contains(&"/ws/.worktrees/work/issue-2"));
}

#[test]
fn nested_git_file_with_valid_gitdir_suppressed() {
    let cfg = mkconfig("/ws", &[".git"], 2);
    let results =
        found(&cfg, vec![dir("", &[".git", "submodule"]), dir("submodule", &[".git"])]);
    assert_eq!(results.len(), 1);
    assert_eq!(results[0].path, "/ws");
    assert_eq!(results[0].marker, ".git");
    assert!(!paths(&results).contains(&"/ws/submodule"));
}

#[test]
fn nested_git_file_with_dangling_gitdir_suppressed() {
    let cfg = mkconfig("/ws", &[".git"], 2);
    let results = found(&cfg, vec![dir("", &[".git", "stray"]), dir("stray", &[".git"])]);
    assert_eq!(results.len(), 1);
    assert_eq!(results[0].path, "/ws");
    assert_eq!(results[0].marker, ".git");
    assert!(!paths(&results).contains(&"/ws/stray"));
}

#[test]
fn monorepo_with_deeply_nested_packages_suppressed() {
    let cfg = mkconfig("/ws", &[".git", "package.json", "Cargo.toml"], 3);
    let results = found(
        &cfg,
        vec![
            dir("", &[".git", "packages"]),
            dir("packages", &["a", "b"]),
            dir("packages/a", &["package.json"]),
            dir("packages/b", &["src"]),
            dir("packages/b/src", &["Cargo.toml"]),
        ],
    );
    assert_eq!(results.len(), 1);
    assert_eq!(results[0].path, "/ws");
    assert_eq!(results[0].marker, ".git");
    assert!(!paths(&results).contains(&"/ws/packages/a"));
    assert!(!paths(&results).contains(&"/ws/packages/b/src"));
}

#[test]
fn symlinked_dir_not_followed() {
    // A link is no folder of the walk, whatever it points at.
    let cfg = mkconfig("/ws", &[".git", "Cargo.toml", "package.json"], 2);
    let link = Ok(WalkEntry {
        names: names(&["sub", "link"]),
        is_dir: false,
        has_git: false,
        children: Some(names(&["Cargo.toml"])),
    });
    let results = found(
        &cfg,
        vec![
            dir("", &[".git", "sub", "outside"]),
            dir("sub", &["Cargo.toml", "link"]),
            link,
            dir("outside", &["package.json"]),
        ],
    );
    assert_eq!(results.len(), 1);
    let markers: Vec<&str> = results.iter().map(|r| r.marker.as_str()).collect();
    assert_eq!(markers.len(), 1);
    assert_eq!(markers[0], ".git");
}

#[test]
fn git_directory_not_reported_inside_walk() {
    let cfg = mkconfig("/ws", &[".git", "Cargo.toml"], 3);
    let results = found(
        &cfg,
        vec![dir("", &[".git"]), dir(".git/objects/deep", &["Cargo.toml"])],
    );
    assert_eq!(results.len(), 1);
    assert_eq!(results[0].path, "/ws");
    assert_eq!(results[0].marker, ".git");
    assert!(!paths(&results).contains(&"/ws/.git/objects/deep"));
}

#[test]
fn git_internals_are_pruned_without_a_project_around_them() {
    let cfg = mkconfig("/ws", &[".git", "Cargo.toml"], 4);
    let results = found(
        &cfg,
        vec![dir("", &["app"]), dir("app", &[]), dir("app/.git/objects", &["Cargo.toml"])],
    );
    assert!(results.is_empty());
}

#[test]
fn node_modules_not_descended_into() {
    let cfg = mkconfig("/ws", &[".git", "package.json"], 3);
    let results = found(
        &cfg,
        vec![
            dir("", &["app", "node_modules"]),
            dir("app", &["package.json"]),
            dir("node_modules", &["lodash"]),
            dir("node_modules/lodash", &["package.json"]),
        ],
    );
    assert_eq!(results.len(), 1);
    assert_eq!(results[0].path, "/ws/app");
    assert_eq!(results[0].marker, "package.json");
    assert!(!paths(&results).contains(&"/ws/node_modules/lodash"), "lodash must not be reported:");
}

#[test]
fn target_not_descended_into() {
    let cfg = mkconfig("/ws", &[".git", "Cargo.toml"], 3);
    let results = found(
        &cfg,
        vec![dir("app", &["Cargo.toml"]), dir("target/debug/deep", &["Cargo.toml"])],
    );
    assert_eq!(results.len(), 1);
    assert_eq!(results[0].path, "/ws/app");
    assert_eq!(results[0].marker, "Cargo.toml");
    assert!(!paths(&results).contains(&"/ws/target/debug/deep"));
}

#[test]
fn user_safe_delete_artifact_pruned() {
    let mut cfg = mkconfig("/ws", &[".git", "package.json"], 3);
    cfg.safe_delete = vec!["**/.my-artifacts".to_string()];
    let results = found(
        &cfg,
        vec![dir("app", &["package.json"]), dir(".my-artifacts", &["package.json"])],
    );
    assert_eq!(results.len(), 1);
    assert_eq!(results[0].path, "/ws/app");
    assert_eq!(results[0].marker, "package.json");
    assert!(!paths(&results).contains(&"/ws/.my-artifacts"));
}

#[test]
fn bare_name_safe_delete_pruned() {
    let mut cfg = mkconfig("/ws", &[".git", "package.json"], 3);
    cfg.safe_delete = vec!["my-cache".to_string()];
    let results =
        found(&cfg, vec![dir("app", &["package.json"]), dir("my-cache", &["package.json"])]);
    assert_eq!(results.len(), 1);
    assert_eq!(results[0].path, "/ws/app");
    assert!(!paths(&results).contains(&"/ws/my-cache"), "my-cache must not be reported:");
}

#[test]
fn multi_segment_pattern_does_not_over_prune() {
    let mut cfg = mkconfig("/ws", &[".git", "package.json"], 3);
    cfg.safe_delete = vec!["**/bin/obj".to_string()];
    let results = found(&cfg, vec![dir("", &["obj"]), dir("obj", &["package.json"])]);
    assert_eq!(results.len(), 1, "obj/ must be reported:");
    assert_eq!(results[0].path, "/ws/obj", "obj/ must be reported:");
    assert_eq!(results[0].marker, "package.json");
}

#[test]
fn depth_zero_root_still_walked() {
    let cfg = mkconfig("/d0/target", &[".git", "Cargo.toml"], 2);
    let results = found(&cfg, vec![dir("", &[".git", "Cargo.toml"])]);
    assert_eq!(paths(&results), vec!["/d0/target"]);
    assert_eq!(results[0].marker, ".git");
    let prune = build_prune_set(&[]);
    assert!(enters(0, "target", &prune));
    assert!(!enters(1, "target", &prune));
    assert!(enters(1, "src", &prune));
}

#[test]
fn sibling_project_still_found() {
    let cfg = mkconfig("/ws", &[".git", "Cargo.toml", "package.json"], 3);
    let results = found(
        &cfg,
        vec![
            dir("", &["myproject", "subproject"]),
            dir("myproject", &[".git", "node_modules"]),
            dir("myproject/node_modules", &["react"]),
            dir("myproject/node_modules/react", &["package.json"]),
            dir("subproject", &["Cargo.toml"]),
        ],
    );
    let paths = paths(&results);
    assert!(paths.contains(&"/ws/myproject"), "myproject must be reported:");
    assert!(paths.contains(&"/ws/subproject"), "subproject must be reported:");
    assert!(
        !paths.contains(&"/ws/myproject/node_modules/react"),
        "node_modules/react must not be reported:"
    );
}

#[test]
fn roots_are_walked_one_after_the_other() {
    let mut cfg = mkconfig("/a", &[".git"], 2);
    cfg.workspace_roots.push("b/".to_string());
    let mut walks: Vec<RootWalk> = Vec::new();
    assert!(matches!(discover(&cfg, &walks), Discovery::NeedsWalk(0)));
    walks.push(RootWalk { is_dir: true, entries: vec![dir("x", &[".git"])] });
    assert!(matches!(discover(&cfg, &walks), Discovery::NeedsWalk(1)));
    walks.push(RootWalk { is_dir: true, entries: vec![dir("y", &[".git"])] });
    match discover(&cfg, &walks) {
        Discovery::Found(v) => assert_eq!(paths(&v), vec!["/a/x", "b/y"]),
        _ => panic!("both roots are walked"),
    }
}

#[test]
fn an_entry_that_cannot_be_read_fails_discovery() {
    let cfg = mkconfig("/ws", &[".git"], 2);
    let walks = vec![RootWalk {
        is_dir: true,
        entries: vec![dir("a", &[".git"]), Err("denied".to_string()), Err("later".to_string())],
    }];
    match discover(&cfg, &walks) {
        Discovery::Failed(e) => assert_eq!(e, "denied"),
        _ => panic!("an entry could not be read"),
    }
}

#[test]
fn a_failing_walk_keeps_what_it_came_by() {
    let walk = RootWalk {
        is_dir: true,
        entries: vec![dir("a", &[".git"]), Err("denied".to_string()), dir("b", &[".git"])],
    };
    let markers = MarkerSet::from_entries(&names(&[".git"])).unwrap();
    let prune = build_prune_set(&[]);
    let mut out = vec![DiscoveredProject { path: "/x".to_string(), marker: ".git".to_string() }];
    let r = walk_root("/ws", 2, &markers, &prune, &walk, &mut out);
    assert_eq!(r, Err("denied".to_string()));
    assert_eq!(paths(&out), vec!["/x", "/ws/a"]);
    let missing = RootWalk { is_dir: false, entries: Vec::new() };
    let r = walk_root("/no", 2, &markers, &prune, &missing, &mut out);
    assert_eq!(r, Err("workspace root not found: /no".to_string()));
    assert_eq!(out.len(), 2);
}

#[test]
fn prune_set_holds_plain_names_only() {
    let set = build_prune_set(&names(&["**/x", "y", "**/x", "a/b", "*.log", "!z", "**/", ""]));
    for inside in [".git", "node_modules", "target", "x", "y"] {
        assert!(set.iter().any(|s| s == inside), "{inside}");
    }
    for outside in ["obj", "a/b", "*.log", "z", "!z", ""] {
        assert!(!set.iter().any(|s| s == outside), "{outside:?}");
    }
    assert_eq!(set.iter().filter(|s| *s == "x").count(), 1);
}

#[test]
fn git_wins_over_other_markers_in_any_order() {
    let ms = MarkerSet::from_entries(&names(&["package.json", ".git", "*.toml"]))
        .unwrap_or_else(|e| panic!("{e}"));
    for order in [["package.json", ".git", "Cargo.toml"], [".git", "Cargo.toml", "package.json"]] {
        assert_eq!(find_marker_in(&Some(names(&order)), &ms), Some(".git".to_string()));
    }
    assert_eq!(
        find_marker_in(&Some(names(&["x", "Cargo.toml", "package.json"])), &ms),
        Some("*.toml".to_string())
    );
    assert_eq!(find_marker_in(&None, &ms), None);
    assert!(contains_glob_meta("a{b"));
    assert!(!contains_glob_meta("a]b"));
}

fn target(path: &str) -> Target {
    Target {
        path: path.to_string(),
        is_dir: true,
        canonical: Some(path.to_string()),
        cwd: Ok("/home/me".to_string()),
        git_output: None,
        git_canonical: None,
        children: Some(Vec::new()),
    }
}

#[test]
fn discover_single_returns_one_project_with_marker() {
    let cfg = mkconfig("/ws", &[".git", "Cargo.toml"], 2);
    let mut t = target("/ws/app");
    t.children = Some(names(&["Cargo.toml", ".git"]));
    t.git_output = Some("/ws/app\n".to_string());
    t.git_canonical = Some("/ws/app".to_string());
    let result = discover_single(&t, &cfg).unwrap();
    assert_eq!(result.path, "/ws/app");
    assert_eq!(result.marker, ".git");
}

#[test]
fn discover_single_returns_none_marker_for_unmarked_dir() {
    let cfg = mkconfig("/ws", &[".git", "Cargo.toml"], 2);
    let result = discover_single(&target("/ws/plain"), &cfg).unwrap();
    assert_eq!(result.marker, "(none)");
    assert!(result.path.starts_with('/'));
}

#[test]
fn discover_single_errors_on_missing_path() {
    let cfg = mkconfig("/ws", &[".git"], 2);
    let mut t = target("/ws/does-not-exist");
    t.is_dir = false;
    assert_eq!(
        discover_single(&t, &cfg),
        Err("project path not found or not a directory: /ws/does-not-exist".to_string())
    );
    t.path = "~/app".to_string();
    let e = discover_single(&t, &cfg).unwrap_err();
    assert!(e.contains("hint: `~` is expanded by your shell"), "{e}");
}

#[test]
fn discover_single_errors_on_file_not_directory() {
    let cfg = mkconfig("/ws", &[".git"], 2);
    let mut t = target("/ws/not-a-dir.txt");
    t.is_dir = false;
    t.children = None;
    assert!(discover_single(&t, &cfg).is_err());
}

#[test]
fn discover_single_rejects_subdirectory_of_git_project() {
    let cfg = mkconfig("/ws", &[".git", "Cargo.toml"], 3);
    let mut t = target("/ws/crates/inner");
    t.git_output = Some("/ws\n".to_string());
    t.git_canonical = Some("/ws".to_string());
    let err = discover_single(&t, &cfg).unwrap_err();
    assert!(err.contains("not a project root"), "{err}");
    assert_eq!(
        err,
        "project path is not a project root: /ws/crates/inner\nit is inside the git project at /ws — pass that path instead"
    );
}

#[test]
fn discover_single_accepts_nested_git_project_root() {
    let cfg = mkconfig("/ws", &[".git"], 3);
    let mut t = target("/ws/vendor/lib");
    t.children = Some(names(&[".git"]));
    // The comparison is by components: a trailing slash makes no difference.
    t.git_output = Some("/ws/vendor/lib/\n".to_string());
    t.git_canonical = Some("/ws/vendor/lib/".to_string());
    let result = discover_single(&t, &cfg).unwrap();
    assert_eq!(result.path, "/ws/vendor/lib");
    assert_eq!(result.marker, ".git");
}

#[test]
fn paths_are_resolved_even_without_the_file_system() {
    let cwd: Result<String, String> = Ok("/home/me".to_string());
    let gone: Result<String, String> = Err("gone".to_string());
    assert_eq!(resolve_path("x", &Some("/real/x".to_string()), &gone), Ok("/real/x".to_string()));
    assert_eq!(resolve_path("./x/", &None, &cwd), Ok("/home/me/x".to_string()));
    assert_eq!(resolve_path("/a/../b", &None, &gone), Ok("/b".to_string()));
    assert_eq!(
        resolve_path("x", &None, &gone),
        Err("cannot resolve relative path x: the current directory is unavailable (gone)"
            .to_string())
    );
}

#[test]
fn git_names_the_toplevel() {
    assert_eq!(git_toplevel(&Some("/ws\n".to_string())), Some("/ws".to_string()));
    assert_eq!(git_toplevel(&Some(" \n".to_string())), None);
    assert_eq!(git_toplevel(&None), None);
    assert_eq!(toplevel_args("/d"), names(&["-C", "/d", "rev-parse", "--show-toplevel"]));
}

#[test]
fn normalized_absolute_joins_relative_path_against_cwd() {
    let got = normalized_absolute("proj", "/home/me/work");
    assert_eq!(got, "/home/me/work/proj");
}

#[test]
fn normalized_absolute_collapses_curdir_components() {
    let cwd = "/home/me/work";
    let got = normalized_absolute("./proj", cwd);
    assert_eq!(got, "/home/me/work/proj");
    assert_eq!(normalized_absolute(".", cwd), cwd);
}

#[test]
fn normalized_absolute_resolves_parent_dir_components() {
    let got = normalized_absolute("../../proj", "/home/me/work/a/b");
    assert_eq!(got, "/home/me/work/proj");
}

#[test]
fn normalized_absolute_drops_trailing_slash() {
    let got = normalized_absolute("proj/", "/home/me/work");
    assert_eq!(got, "/home/me/work/proj");
}

#[test]
fn normalized_absolute_keeps_absolute_path_and_normalizes() {
    let got = normalized_absolute("/srv/apps/./looper/../looper", "/irrelevant");
    assert_eq!(got, "/srv/apps/looper");
}

#[test]
fn normalized_absolute_does_not_pop_past_root() {
    let got = normalized_absolute("../../../../proj", "/home/me");
    assert_eq!(got, "/proj");
}

#[test]
fn normalized_absolute_fallback_compares_equal_to_enclosing_git_root() {
    // Where the file system makes nothing of a path, the path as it was typed
    // still compares equal to what git names.
    let git_root = git_toplevel(&Some("/home/me/proj\n".to_string())).unwrap();
    assert_eq!(normalized_absolute("proj", "/home/me"), git_root);
    assert_eq!(normalized_absolute("./proj/", "/home/me"), git_root);
    assert_ne!("proj", git_root);
    let cfg = mkconfig("/home/me", &[".git"], 2);
    for typed in ["proj", "./proj/"] {
        let mut t = target(typed);
        t.canonical = None;
        t.git_output = Some("/home/me/proj\n".to_string());
        assert!(discover_single(&t, &cfg).is_ok(), "{typed}");
    }
}

#[test]
fn normalizing_again_changes_nothing() {
    let once = normalized_absolute("/a/./b//../c/", "");
    assert_eq!(once, "/a/c");
    assert_eq!(normalized_absolute(&once, "/elsewhere"), once);
}

#[test]
fn paths_read_as_the_standard_library_reads_them() {
    let samples = [
        "", "/", ".", "..", "a", "a/", "/a", "//a//b/", "./a", "a/./b", "a/../b", "a/.", "../..",
        "/..", "a/b/c", "工程/x",
    ];
    for s in samples {
        let p = std::path::Path::new(s);
        assert_eq!(
            offcut::paths::parent(s),
            p.parent().map(|q| q.display().to_string()),
            "parent of {s:?}"
        );
        assert_eq!(
            offcut::paths::file_name(s),
            p.file_name().map(|n| n.to_string_lossy().into_owned()),
            "name of {s:?}"
        );
        assert_eq!(offcut::paths::has_root(s), p.has_root());
        for t in samples {
            let q = std::path::Path::new(t);
            assert_eq!(offcut::paths::paths_equal(s, t), p == q, "{s:?} and {t:?}");
            assert_eq!(
                offcut::paths::join_path(s, t),
                p.join(q).display().to_string(),
                "{s:?} joined with {t:?}"
            );
            assert_eq!(
                offcut::paths::strip_prefix(s, t),
                p.strip_prefix(q).ok().map(|r| r.display().to_string()),
                "{s:?} without {t:?}"
            );
        }
    }
}
