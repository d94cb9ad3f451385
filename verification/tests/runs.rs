//! Whole runs: what they print, what their documents say, what they delete.

use offcut::classify::Status;
use offcut::clean::{build_exclusions, Classification, CleanItem, GitReply};
use offcut::cleaning::{
    approved_paths, approved_without_asking, blocked_reclaim, clean_item_fate, cleaning_in,
    closing_lines, deleted_items, document_execution, enters_cleaning_execution_phase, execution_of,
    failure_report, flow_inputs, item_fate, json_clean, outcome_lines, paths_without_asking,
    preview_lines, reclaim_of, run_cleaning, safe_only, some_declined, success_report, survey_rows,
    targeted_outcome_panel, CleanRun, CleaningNext, Inspection, Reclaim, Subject,
};
use offcut::config::{CliOverrides, Config, Mode};
use offcut::discovery::DiscoveredProject;
use offcut::disk::format_size;
use offcut::interactive::{
    print_project_report, prospect_text, InteractiveFlowInputs, ProjectResult,
};
use offcut::json::{Envelope, InitResult};
use offcut::labels::{
    branch_label, changed_label, committed_state, format_branch_state, git_text,
    status_detail_lines, BranchLabels, CommitStep, DetailStep, LabelStep,
};
use offcut::output::{clean_review_rows, format_clean_review, Terminal};
use offcut::safelist::SafeSet;
use offcut::session::{
    config_path, failure_line, generate_init_template, init_allowed, init_config, init_root,
    init_target, json_command_name, json_config, json_discovery, json_err, json_ignore, json_init,
    json_safelist, load_cli_config, project_relative, run_config, run_discovery, run_ignore,
    run_init, run_safelist, warning, workspace_notice, Command, Occupant, EXIT_APPROVAL_REQUIRED,
    EXIT_ERROR, EXIT_OK,
};
use offcut::survey::{
    cleanable_count, is_sized, json_classification, json_listing, listing_in, row_line,
    run_classification, run_listing, severity_order, sort_by_status, summary_line,
    total_reclaimable, total_text, SurveyRow, TableLabels,
};

fn item(path: &str, classification: Classification) -> CleanItem {
    CleanItem { rel_path: path.to_string(), is_dir: false, classification }
}

fn strings(v: &[&str]) -> Vec<String> {
    v.iter().map(|s| s.to_string()).collect()
}

fn terminal(tty: bool) -> Terminal {
    Terminal {
        json_mode: false,
        stdout_is_tty: tty,
        stderr_is_tty: tty,
        term: Some("xterm".to_string()),
        no_color: true,
        clicolor: None,
    }
}

fn rendered_fates(items: &[CleanItem], would_delete: &[&str], project_approved: bool) -> String {
    let would_delete = strings(would_delete);
    let rows = clean_review_rows(items, |item| {
        item_fate(item, &would_delete, project_approved, false, false)
    });
    format_clean_review(
        "/workspace/app",
        "main · clean tree · remote ✓ pushed",
        &rows,
        Some("10 KB"),
        100,
        false,
    )
    .join("\n")
}

#[test]
fn declined_all_cleanup_rich_review_reports_every_item_kept() {
    let items = vec![
        item("target", Classification::Safe),
        item("scratch.txt", Classification::Surfaced),
    ];

    let rendered = rendered_fates(&items, &["target", "scratch.txt"], false);

    assert!(rendered.contains("target"), "{rendered}");
    assert!(rendered.contains("scratch.txt"), "{rendered}");
    assert_eq!(
        rendered.matches("kept").count(),
        2,
        "declined real run keeps every item: {rendered}"
    );
    assert!(
        !rendered.contains("would delete"),
        "declined real run must not promise deletion: {rendered}"
    );
}

#[test]
fn declined_per_project_rich_review_reports_every_item_kept() {
    let items = vec![
        item("node_modules", Classification::Safe),
        item("coverage.tmp", Classification::Surfaced),
        item("keep.dat", Classification::Protected),
    ];

    let rendered = rendered_fates(&items, &["node_modules", "coverage.tmp"], false);

    assert_eq!(
        rendered.matches("kept").count(),
        3,
        "declined project keeps safe, surfaced, and protected items: {rendered}"
    );
    assert!(!rendered.contains("would delete"), "{rendered}");
    assert!(!rendered.contains("deleting"), "{rendered}");
}

#[test]
fn approved_project_still_reports_planned_deletions() {
    let items = vec![item("target", Classification::Safe)];

    let rendered = rendered_fates(&items, &["target"], true);

    assert!(rendered.contains("deleting"), "{rendered}");
}

#[test]
fn live_cleaning_progress_is_only_for_real_approved_execution() {
    assert!(enters_cleaning_execution_phase(true, false));
    assert!(!enters_cleaning_execution_phase(true, true));
    assert!(!enters_cleaning_execution_phase(false, false));
    assert!(!enters_cleaning_execution_phase(false, true));
}

fn panel_with(status: Status, possible_reclaim: Option<&str>) -> Option<String> {
    panel_for(status, possible_reclaim, true)
}

fn panel_for(status: Status, possible_reclaim: Option<&str>, committed: bool) -> Option<String> {
    targeted_outcome_panel(
        "/workspace/dashboard",
        status,
        committed,
        &format_branch_state("main", status, committed),
        &[],
        possible_reclaim,
        80,
        false,
    )
    .map(|lines| lines.join("\n"))
}

fn panel(status: Status) -> Option<String> {
    panel_with(status, None)
}

#[test]
fn clean_project_reports_nothing_to_reclaim_instead_of_a_refusal() {
    let rendered = panel(Status::Clean).expect("clean projects get a panel");
    assert!(rendered.contains("nothing to reclaim"), "{rendered}");
    assert!(!rendered.contains("refusing to clean"), "{rendered}");
    assert!(!rendered.contains("commit, push"), "{rendered}");
}

#[test]
fn blocking_states_keep_the_refusal_panel() {
    for status in [Status::NoGit, Status::NoRemote, Status::Unpushed, Status::Wip] {
        let rendered = panel(status).unwrap_or_else(|| panic!("{status:?} gets a panel"));
        assert!(rendered.contains("refusing to clean"), "{status:?}");
        assert!(rendered.contains("offcut clean"), "{status:?}");
    }
}

#[test]
fn uninspectable_cleanable_project_gets_no_panel() {
    assert!(panel(Status::Cleanable).is_none());
}

#[test]
fn blocked_reclaim_counts_safe_output_not_untracked_work() {
    let items = vec![
        item("node_modules", Classification::Safe),
        item("scratch", Classification::Surfaced),
    ];
    let safe = safe_only(&items);
    assert_eq!(safe.len(), 1);
    assert_eq!(safe[0].rel_path, "node_modules");
    let (measured, warnings) = blocked_reclaim(&safe, &[Ok(2048)]);
    assert_eq!(measured.as_deref(), Some(format_size(2048).as_str()));
    assert!(warnings.is_empty());
    let (nothing, warnings) = blocked_reclaim(&safe, &[Err("denied".to_string())]);
    assert_eq!(nothing, None);
    assert_eq!(warnings.len(), 1);
}

#[test]
fn unpushed_panel_does_not_claim_commits_an_empty_repo_lacks() {
    let empty = panel_for(Status::Unpushed, None, false).expect("panel");
    assert!(empty.contains("no commits yet"), "{empty}");
    assert!(!empty.contains("commits ahead"), "{empty}");
    assert!(empty.contains("refusing to clean - nothing committed yet"), "{empty}");
    assert!(!empty.contains("has unpushed commits"), "{empty}");
    assert!(empty.contains("commit, push"), "{empty}");

    let ahead = panel_for(Status::Unpushed, None, true).expect("panel");
    assert!(ahead.contains("local commits ahead"), "{ahead}");
    assert!(!ahead.contains("no commits yet"), "{ahead}");
    assert!(ahead.contains("refusing to clean - has unpushed commits"), "{ahead}");
    assert!(!ahead.contains("nothing committed"), "{ahead}");
}

#[test]
fn blocked_panel_carries_the_measured_reclaim_when_known() {
    let measured = panel_with(Status::Wip, Some("540 MB")).expect("panel");
    assert!(measured.contains("~540 MB"), "{measured}");
    assert!(measured.contains("would become reclaimable"), "{measured}");

    let unmeasured = panel(Status::Wip).expect("panel");
    assert!(!unmeasured.contains("would become reclaimable"), "{unmeasured}");
}

/// A configuration in TOML.
fn body_of(cfg: &Config) -> String {
    fn list(v: &[String]) -> toml::Value {
        toml::Value::Array(v.iter().map(|s| toml::Value::String(s.clone())).collect())
    }
    let mut table = toml::Table::new();
    table.insert("workspace_roots".to_string(), list(&cfg.workspace_roots));
    table.insert("safe_delete".to_string(), list(&cfg.safe_delete));
    table.insert("max_depth".to_string(), toml::Value::Integer(cfg.max_depth as i64));
    table.insert("project_markers".to_string(), list(&cfg.project_markers));
    table.insert(
        "default_mode".to_string(),
        toml::Value::String(cfg.default_mode.name().to_string()),
    );
    toml::to_string_pretty(&table).unwrap()
}

#[test]
fn template_body_matches_serialized_default() {
    let workspace = "/tmp/another-workspace";
    let text = generate_init_template(&body_of(&init_config(workspace.to_string())));
    let default_cfg =
        Config { workspace_roots: vec![workspace.to_string()], ..Default::default() };
    let expected_body = body_of(&default_cfg);
    let body = text.split_once("\n\n").map(|(_, b)| b).unwrap_or(&text);
    assert_eq!(body.trim(), expected_body.trim());
}

#[test]
fn template_round_trips_through_config_load() {
    let workspace = "/tmp/example-workspace";
    let text = generate_init_template(&body_of(&init_config(workspace.to_string())));
    assert!(text.starts_with('#'), "template missing comment block");
    let cfg: toml::Table = text.parse().unwrap();
    let roots = cfg["workspace_roots"].as_array().unwrap();
    assert_eq!(roots.len(), 1);
    assert_eq!(roots[0].as_str(), Some(workspace));
    assert_eq!(cfg["max_depth"].as_integer(), Some(4));
    assert_eq!(cfg["default_mode"].as_str(), Some("interactive"));
    assert!(cfg["safe_delete"].as_array().unwrap().is_empty());
    let markers = cfg["project_markers"].as_array().unwrap();
    assert!(markers.iter().any(|m| m.as_str() == Some(".git")));
}

#[test]
fn template_is_a_comment_block_and_the_body() {
    let text = generate_init_template("max_depth = 4\n");
    let (block, body) = text.split_once("\n\n").expect("a blank line");
    assert!(block.lines().all(|line| line.starts_with('#')), "{block}");
    assert_eq!(body, "max_depth = 4\n");
    assert!(generate_init_template("").starts_with('#'));
}

#[test]
fn init_refuses_to_clobber_existing_file() {
    let target = init_target(&Some("/tmp/mine.toml".to_string()), &None).unwrap();
    let msg = init_allowed(&target, Occupant::File).unwrap_err();
    assert!(msg.contains("already exists"), "error message must name the existing file");
    assert!(msg.contains("/tmp/mine.toml"));
}

#[test]
fn init_injects_workspace_root() {
    let root = init_root("/tmp/injected-workspace", None).unwrap();
    let cfg = init_config(root);
    assert!(
        cfg.workspace_roots.iter().any(|p| p.contains("injected-workspace")),
        "workspace root not injected"
    );
}

#[test]
fn init_never_overwrites() {
    assert_eq!(init_allowed("/c.toml", Occupant::Nothing), Ok(()));
    assert_eq!(
        init_allowed("/c.toml", Occupant::File),
        Err("config file already exists: /c.toml".to_string())
    );
    assert_eq!(
        init_allowed("/c.toml", Occupant::Other),
        Err("target exists and is not a file: /c.toml".to_string())
    );
    let given = Some("/mine.toml".to_string());
    let fallback = Some("/default.toml".to_string());
    assert_eq!(init_target(&given, &fallback), Ok("/mine.toml".to_string()));
    assert_eq!(init_target(&None, &fallback), Ok("/default.toml".to_string()));
    assert_eq!(
        init_target(&None, &None),
        Err("could not determine platform config dir".to_string())
    );
    assert_eq!(init_root("ws", None), Ok("ws".to_string()));
    assert_eq!(init_root("ws", Some(Ok("/real/ws".to_string()))), Ok("/real/ws".to_string()));
    assert_eq!(init_root("ws", Some(Err("denied".to_string()))), Err("denied".to_string()));
    assert_eq!(run_init("/c.toml"), "created config file: /c.toml");
    let doc = json_init("init", "/c.toml".to_string());
    assert!(doc.ok);
    assert!(doc.result.unwrap().created);
}

#[test]
fn json_discovery_lists_projects() {
    let found = vec![DiscoveredProject { path: "/ws/app".to_string(), marker: ".git".to_string() }];
    let doc = json_discovery("discovery", &found);
    assert_eq!((doc.version, doc.command, doc.ok), (1, "discovery", true));
    let projects = doc.result.unwrap().projects;
    assert_eq!(projects.len(), 1);
    assert_eq!(projects[0].path, "/ws/app");
    assert_eq!(projects[0].marker, ".git");
    assert_eq!(run_discovery(&found), strings(&["discovered 1 project(s):", "  /ws/app (.git)"]));
    assert_eq!(run_discovery(&[]), strings(&["discovery: no projects found"]));
}

#[test]
fn json_safelist_reports_match() {
    let safe = SafeSet::from_config("/p", None, &Config::default())
        .unwrap_or_else(|e| panic!("{e}"))
        .is_safe("target", true);
    let doc = json_safelist("safelist", "target".to_string(), safe);
    assert_eq!(doc.command, "safelist");
    assert!(doc.result.unwrap().safe);
    assert_eq!(run_safelist("target", true), "target: safe");
    assert_eq!(run_safelist("src", false), "src: not-safe");
}

#[test]
fn ignore_command_answers_in_both_forms() {
    assert_eq!(run_ignore("a", true), "a: ignored");
    assert_eq!(run_ignore("a", false), "a: not-ignored");
    let doc = json_ignore("ignore", "a".to_string(), true);
    assert_eq!((doc.version, doc.command, doc.ok), (1, "ignore", true));
    assert!(doc.error.is_none());
    assert!(doc.result.unwrap().ignored);
}

#[test]
fn paths_outside_the_project_get_no_verdict() {
    assert_eq!(project_relative("/p", "/p/a/b"), Ok("a/b".to_string()));
    assert_eq!(project_relative("/p", "a"), Ok("a".to_string()));
    assert_eq!(
        project_relative("/p", "/q/a"),
        Err("path is outside the project root /p: /q/a".to_string())
    );
    assert_eq!(
        project_relative("/p", "../a"),
        Err("path escapes the project root: ../a".to_string())
    );
    assert_eq!(
        project_relative("/p", "/p/../q"),
        Err("path escapes the project root: /p/../q".to_string())
    );
}

#[test]
fn config_file_is_the_given_one_or_the_default() {
    let given = Some("/mine.toml".to_string());
    let fallback = Some("/default.toml".to_string());
    assert_eq!(config_path(&given, true, &fallback), Ok(given.clone()));
    assert_eq!(
        config_path(&given, false, &fallback),
        Err("config file not found: /mine.toml".to_string())
    );
    assert_eq!(config_path(&None, false, &fallback), Ok(fallback.clone()));
    assert_eq!(config_path(&None, false, &None), Ok(None));

    let (from, cfg) = load_cli_config(None, None).unwrap_or_else(|e| panic!("{e}"));
    assert_eq!((from, cfg.max_depth), (None, 4));
    let mut custom = Config::default();
    custom.max_depth = 7;
    let (from, cfg) =
        load_cli_config(given.clone(), Some(Ok(custom))).unwrap_or_else(|e| panic!("{e}"));
    assert_eq!((from, cfg.max_depth), (given.clone(), 7));
    let e = load_cli_config(given, Some(Err("bad toml".to_string()))).err();
    assert_eq!(e.as_deref(), Some("bad toml"));
}

#[test]
fn config_command_shows_the_merged_configuration() {
    let mut cfg = Config::default();
    cfg.workspace_roots = strings(&["/a", "/b"]);
    cfg.default_mode = Mode::Force;
    let flags = CliOverrides {
        workspace: Vec::new(),
        force: true,
        dry_run: false,
        verbose: true,
    };
    assert_eq!(
        run_config(&Some("/c.toml".to_string()), &cfg, &flags),
        strings(&[
            "offcut resolved config:",
            "  config file: /c.toml",
            "  default_mode: force",
            "  max_depth: 4",
            "  workspace_roots:",
            "    - /a",
            "    - /b",
            "  flags: dry_run=false, force=true, verbose=true",
        ])
    );
    let bare = run_config(&None, &Config::default(), &flags);
    assert_eq!(bare[1], "  config file: (none)");
    assert_eq!(bare[2], "  default_mode: interactive");
    assert_eq!(bare[5], "    (none)");
    let doc = json_config("config", None, cfg, &flags);
    let result = doc.result.unwrap();
    assert_eq!(result.default_mode, "force");
    assert_eq!(result.max_depth, 4);
    assert_eq!(result.workspace_roots, strings(&["/a", "/b"]));
    assert!(result.force && !result.dry_run && result.verbose);
    assert!(result.config_file.is_none());
}

#[test]
fn unused_workspace_flags_are_noticed() {
    let one = strings(&["/a"]);
    let two = strings(&["/a", "/b"]);
    assert_eq!(
        workspace_notice(Command::Clean, true, &one).as_deref(),
        Some("offcut: clean <PROJECT_PATH> scopes the run to that project; --workspace /a is ignored")
    );
    assert_eq!(
        workspace_notice(Command::Init, false, &two).as_deref(),
        Some("offcut: init <WORKSPACE> uses the positional workspace; --workspace (2 paths) is ignored")
    );
    assert_eq!(workspace_notice(Command::Clean, false, &one), None);
    assert_eq!(workspace_notice(Command::List, true, &one), None);
    assert_eq!(workspace_notice(Command::Init, false, &[]), None);
}

#[test]
fn commands_have_names_and_failures_documents() {
    let all = [
        (Command::Default, "clean"),
        (Command::List, "list"),
        (Command::Config, "config"),
        (Command::Ignore, "ignore"),
        (Command::Safelist, "safelist"),
        (Command::Discovery, "discovery"),
        (Command::Classification, "classification"),
        (Command::Clean, "clean"),
        (Command::Init, "init"),
    ];
    for (command, name) in all {
        assert_eq!(json_command_name(command), name);
    }
    let (doc, code): (Envelope<InitResult>, i32) = json_err("init", "no".to_string());
    assert_eq!(code, EXIT_ERROR);
    assert_eq!((doc.version, doc.command, doc.ok), (1, "init", false));
    assert!(doc.result.is_none());
    assert_eq!(doc.error.unwrap().message, "no");
    assert_eq!(failure_line("no"), "offcut: no");
    assert_eq!(warning("/p", "classification failed", "no"), "warning: /p: classification failed: no");
}

fn row(path: &str, status: Status, bytes: Option<u64>) -> SurveyRow {
    SurveyRow { path: path.to_string(), status, bytes }
}

fn sample_rows() -> Vec<SurveyRow> {
    vec![
        row("/w/clean", Status::Clean, None),
        row("/w/one", Status::Cleanable, Some(2048)),
        row("/w/none", Status::NoGit, None),
        row("/w/two", Status::Cleanable, Some(0)),
        row("/w/wip", Status::Wip, None),
    ]
}

#[test]
fn sorting_is_by_severity_and_keeps_the_order_within() {
    let rows = sample_rows();
    let sorted = sort_by_status(&rows);
    let paths: Vec<&str> = sorted.iter().map(|r| r.path.as_str()).collect();
    assert_eq!(paths, vec!["/w/none", "/w/wip", "/w/one", "/w/two", "/w/clean"]);
    let statuses: Vec<Status> = rows.iter().map(|r| r.status).collect();
    assert_eq!(severity_order(&statuses), vec![2, 4, 1, 3, 0]);
    assert_eq!(cleanable_count(&rows), cleanable_count(&sorted));
    assert_eq!(total_reclaimable(&rows), total_reclaimable(&sorted));
}

#[test]
fn totals_add_up_or_overflow() {
    assert_eq!(cleanable_count(&sample_rows()), 2);
    assert_eq!(total_reclaimable(&sample_rows()), Some(2048));
    let huge = vec![
        row("/a", Status::Cleanable, Some(u64::MAX)),
        row("/b", Status::Cleanable, Some(1)),
    ];
    assert_eq!(total_reclaimable(&huge), None);
    assert_eq!(total_text(0), None);
    assert_eq!(total_text(2048), Some(format_size(2048)));
}

#[test]
fn only_cleanable_projects_are_sized() {
    assert!(is_sized(Status::Cleanable));
    assert!(!is_sized(Status::Clean));
    assert!(!is_sized(Status::Wip));
    let rows =
        vec![row("/a", Status::Wip, Some(100)), row("/b", Status::Cleanable, Some(7))];
    assert_eq!(total_reclaimable(&rows), Some(7));
    let result = json_listing("list", &rows).result.unwrap();
    assert_eq!(result.total_reclaimable_bytes, 7);
    assert_eq!(result.projects[0].reclaimable_bytes, None);
    assert_eq!(result.projects[1].reclaimable_bytes, Some(7));
    assert!(!row_line(&rows[0], &terminal(false)).contains("100"));
    assert!(row_line(&rows[1], &terminal(false)).contains("7 B"));
}

#[test]
fn listing_documents_carry_status_rank_and_size() {
    let doc = json_listing("list", &sample_rows());
    assert_eq!((doc.version, doc.command, doc.ok), (1, "list", true));
    let result = doc.result.unwrap();
    assert_eq!(result.cleanable_count, 2);
    assert_eq!(result.total_reclaimable_bytes, 2048);
    assert_eq!(result.projects[0].path, "/w/none");
    assert_eq!((result.projects[2].status, result.projects[2].rank), ("cleanable", 5));
    assert_eq!(result.projects[2].reclaimable_bytes, Some(2048));

    let doc = json_classification("classification", &sample_rows());
    let projects = doc.result.unwrap().projects;
    assert_eq!((projects[2].status, projects[2].rank), ("cleanable", 5));
    assert_eq!(projects[2].reclaimable_bytes, None);
}

#[test]
fn listings_have_a_summary_and_a_row_per_project() {
    let labels = TableLabels { branches: Vec::new(), changed: Vec::new() };
    let rows = sample_rows();
    let plain = listing_in(5, &rows, &labels, &terminal(false), 80, None);
    let sorted = sort_by_status(&rows);
    assert_eq!(plain.len(), 6);
    assert_eq!(plain[0], summary_line(&sorted, &terminal(false)));
    assert_eq!(plain[1], row_line(&sorted[0], &terminal(false)));
    assert!(plain[1].contains("/w/none") && plain[1].contains("no-git"), "{}", plain[1]);
    assert_eq!(
        listing_in(0, &[], &labels, &terminal(false), 80, None),
        strings(&["listing: no projects found"])
    );
    assert_eq!(run_listing(0, &[], &labels, &terminal(false), 80).len(), 1);
    assert_eq!(
        run_classification(0, &[]),
        strings(&["classification: no projects found"])
    );
    let lines = run_classification(5, &rows);
    assert!(lines.iter().any(|l| l.contains("/w/none") && l.contains("no-git")), "{lines:?}");
}

#[test]
fn rich_listings_are_tables() {
    let labels = TableLabels {
        branches: strings(&["main"]),
        changed: strings(&["2 days ago"]),
    };
    let rows = vec![row("/home/me/app", Status::Cleanable, Some(2048))];
    let lines = listing_in(1, &rows, &labels, &terminal(true), 100, Some("/home/me")).join("\n");
    assert!(lines.contains("~/app") || lines.contains("app"), "{lines}");
    assert!(lines.contains("main"), "{lines}");
    assert!(lines.contains("2 days ago"), "{lines}");
}

fn subject(path: &str, status: Status, items: Option<Vec<CleanItem>>) -> Subject {
    Subject {
        path: path.to_string(),
        status,
        inspection: items.map(|items| Inspection { items, bytes: Some(10) }),
    }
}

fn run(force: bool, dry_run: bool, targeted: bool) -> CleanRun {
    CleanRun { force, dry_run, targeted }
}

fn some_items() -> Vec<CleanItem> {
    vec![
        item("target", Classification::Safe),
        item("notes.txt", Classification::Surfaced),
        item("keep.dat", Classification::Protected),
    ]
}

#[test]
fn documents_delete_only_with_force() {
    let subjects = vec![
        subject("/w/wip", Status::Wip, None),
        subject("/w/app", Status::Cleanable, Some(some_items())),
        subject("/w/bad", Status::Cleanable, None),
    ];

    let (doc, code) = json_clean("clean", &subjects, run(false, false, false));
    assert_eq!(code, EXIT_APPROVAL_REQUIRED);
    assert_eq!(code, 3);
    assert!(!doc.ok && doc.error.is_none());
    let result = doc.result.unwrap();
    assert!(result.approval_required);
    assert_eq!(result.projects.len(), 3);
    let fates: Vec<&str> = result.projects[1].items.iter().map(|i| i.fate).collect();
    assert_eq!(fates, vec!["would-delete", "would-prompt", "kept"]);
    assert!(!result.projects[1].approved);
    assert_eq!(result.projects[1].deleted_count, 0);
    assert!(result.projects[0].items.is_empty() && result.projects[2].items.is_empty());

    let (doc, code) = json_clean("clean", &subjects, run(true, false, false));
    assert_eq!(code, EXIT_OK);
    let result = doc.result.unwrap();
    let fates: Vec<&str> = result.projects[1].items.iter().map(|i| i.fate).collect();
    assert_eq!(fates, vec!["deleted", "deleted", "kept"]);
    assert!(result.projects[1].approved);
    assert_eq!(result.projects[1].deleted_count, 2);
    assert_eq!(result.projects[1].reclaimable_bytes, Some(10));

    let (doc, code) = json_clean("clean", &subjects, run(true, true, false));
    assert_eq!(code, EXIT_OK);
    let result = doc.result.unwrap();
    let fates: Vec<&str> = result.projects[1].items.iter().map(|i| i.fate).collect();
    assert_eq!(fates, vec!["would-delete", "would-delete", "kept"]);
    assert_eq!(result.projects[1].deleted_count, 0);

    let (doc, code) = json_clean("clean", &subjects, run(false, true, false));
    assert_eq!(code, EXIT_OK);
    let fates: Vec<&str> =
        doc.result.unwrap().projects[1].items.iter().map(|i| i.fate).collect();
    assert_eq!(fates, vec!["would-delete", "would-prompt", "kept"]);

    // With nothing to ask about, no approval is missing.
    let (doc, code) = json_clean("clean", &subjects[..1], run(false, false, false));
    assert!(doc.ok);
    assert_eq!(code, EXIT_OK);
}

#[test]
fn what_goes_without_asking() {
    let items = some_items();
    assert_eq!(paths_without_asking(&items, false), strings(&["target"]));
    assert_eq!(paths_without_asking(&items, true), strings(&["target", "notes.txt"]));
    assert_eq!(approved_without_asking(&items, false), Vec::<String>::new());
    assert_eq!(approved_without_asking(&items, true), strings(&["notes.txt"]));
    let doomed = strings(&["target"]);
    assert_eq!(clean_item_fate(&items[0], &doomed, true, false, false, true), "deleted");
    assert_eq!(clean_item_fate(&items[1], &doomed, false, false, false, true), "kept");
}

#[test]
fn fates_follow_the_answers() {
    let items = some_items();
    let doomed = strings(&["target"]);
    assert_eq!(item_fate(&items[0], &doomed, true, false, false), "deleting");
    assert_eq!(item_fate(&items[0], &doomed, true, false, true), "would delete");
    assert_eq!(item_fate(&items[1], &doomed, true, false, true), "would prompt");
    assert_eq!(item_fate(&items[1], &doomed, true, true, true), "kept");
    assert_eq!(item_fate(&items[0], &doomed, false, false, false), "kept");
}

#[test]
fn clean_runs_start_with_a_report() {
    let labels = TableLabels { branches: strings(&["main"]), changed: strings(&["now"]) };
    let cleanable = vec![subject("/w/app", Status::Cleanable, Some(some_items()))];
    let t = terminal(false);

    let start = cleaning_in(0, &[], &labels, run(false, false, false), &t, 80, None);
    assert_eq!(start.lines, strings(&["clean: no projects found"]));
    assert!(matches!(start.next, CleaningNext::Done));

    let start = cleaning_in(1, &cleanable, &labels, run(false, true, false), &t, 80, None);
    assert_eq!(start.lines.len(), 3);
    assert_eq!(start.lines[0], "clean: 1 project(s) — sorted by status");
    assert_eq!(start.lines[1], summary_line(&survey_rows(&cleanable), &t));
    match start.next {
        CleaningNext::Dialogue(inputs) => {
            assert_eq!(inputs.all_projects.len(), 1);
            assert_eq!(inputs.per_project_items.len(), 1);
            assert_eq!(inputs.per_project_items[0].0, "/w/app");
            assert_eq!(inputs.per_project_items[0].1.len(), 3);
            assert!(!inputs.force && inputs.dry_run);
        }
        _ => panic!("there is something to ask"),
    }

    // A cleanable project whose inspection failed has no row and no questions.
    let failed = vec![subject("/w/bad", Status::Cleanable, None)];
    let start = cleaning_in(1, &failed, &labels, run(false, false, true), &t, 80, None);
    assert_eq!(
        start.lines.last().map(|s| s.as_str()),
        Some("clean: no cleanable projects — nothing to delete")
    );
    assert_eq!(start.lines.len(), 3);
    assert!(matches!(start.next, CleaningNext::Done));
    assert!(flow_inputs(&failed, false, false).per_project_items.is_empty());

    // On a rich terminal a run on one project ends with its panel.
    let wip = vec![subject("/w/wip", Status::Wip, None)];
    let rich = terminal(true);
    let start = cleaning_in(1, &wip, &labels, run(false, false, true), &rich, 80, None);
    assert!(matches!(start.next, CleaningNext::Panel));
    let start = run_cleaning(1, &wip, &labels, run(false, false, false), &rich, 80);
    assert!(matches!(start.next, CleaningNext::Done));
}

#[test]
fn a_run_on_one_project_closes_with_its_panel_or_a_line() {
    let rich = terminal(true);
    let closing = closing_lines("/w/p", Status::Clean, true, "main", &[], None, &rich, 80);
    assert!(closing.join("\n").contains("nothing to reclaim"));
    let closing = closing_lines("/w/p", Status::Cleanable, true, "main", &[], None, &rich, 80);
    assert_eq!(closing, strings(&["clean: no cleanable projects — nothing to delete"]));
}

fn result(approved: bool, would_delete: &[&str]) -> ProjectResult {
    ProjectResult {
        path: "/w/app".to_string(),
        status: Status::Cleanable,
        items: some_items(),
        would_delete: strings(would_delete),
        project_approved: approved,
    }
}

#[test]
fn previews_are_reviews_on_a_rich_terminal() {
    let items = vec![
        item("target", Classification::Safe),
        item("notes.txt", Classification::Surfaced),
        item("keep.db", Classification::Protected),
    ];
    let (lines, review) = preview_lines("/w/app", &items, "main", None, &terminal(false), 80);
    assert!(!review);
    assert_eq!(lines, print_project_report("/w/app", &items));
    assert_eq!(lines[..2], strings(&["/w/app:", "  Gitignored review"]));

    let (lines, review) =
        preview_lines("/w/app", &items, "main", Some("2 KB"), &terminal(true), 80);
    assert!(review);
    let rows = clean_review_rows(&items, |i| prospect_text(i.classification));
    assert_eq!(lines, format_clean_review("/w/app", "main", &rows, Some("2 KB"), 80, false));
    let text = lines.join("\n");
    assert!(text.contains("needs approval") && text.contains("will delete"), "{text}");
}

#[test]
fn outcomes_are_told_item_by_item() {
    let r = result(true, &["target"]);
    let plain = outcome_lines(&r, false, "main", None, run(false, false, false), &terminal(false), 80);
    assert_eq!(
        plain,
        strings(&[
            "clean /w/app: approved — cleanable",
            "  target [safe-to-delete] (deleting)",
            "  notes.txt [surfaced] (kept)",
            "  keep.dat [protected] (kept)",
        ])
    );
    let rich = terminal(true);
    let shown = outcome_lines(&r, true, "main", None, run(false, false, false), &rich, 80);
    assert_eq!(shown.len(), 1);
    assert!(shown[0].starts_with("⟩ cleaning "), "{}", shown[0]);
    let dry = outcome_lines(&r, true, "main", None, run(false, true, false), &rich, 80);
    assert_eq!(dry, strings(&["⟩ dry-run only - nothing deleted"]));
    let skipped =
        outcome_lines(&result(false, &[]), false, "main", None, run(false, false, false), &rich, 80);
    assert!(skipped.last().unwrap().starts_with("⟩ skipped by user · "));
    assert!(skipped.len() > 1);
}

#[test]
fn only_agreed_paths_reach_the_deletion() {
    let r = result(true, &["target", "notes.txt/"]);
    assert_eq!(approved_paths(&r), strings(&["notes.txt/"]));
    assert!(!some_declined(&r));
    assert_eq!(deleted_items(&r).len(), 2);
    let r = result(true, &["target"]);
    assert_eq!(approved_paths(&r), Vec::<String>::new());
    assert!(some_declined(&r));
    assert_eq!(deleted_items(&r)[0].rel_path, "target");
    assert_eq!(
        success_report(&r, None, &terminal(false), 80),
        strings(&["clean /w/app: deleted 1 item(s)"])
    );
    assert!(!success_report(&r, Some("1 KB"), &terminal(true), 80).is_empty());
    assert_eq!(failure_report("/w/app", "denied"), "clean /w/app: failed: denied");
}

fn out(text: &str) -> GitReply {
    GitReply::Output(Some(text.to_string()))
}

fn asked(step: &LabelStep) -> String {
    match step {
        LabelStep::Ask(args) => args.join(" "),
        LabelStep::Done(label) => panic!("already known: {label}"),
    }
}

fn told(step: &LabelStep) -> &str {
    match step {
        LabelStep::Done(label) => label,
        LabelStep::Ask(_) => panic!("not known yet"),
    }
}

#[test]
fn branches_are_named_or_detached() {
    let refused = GitReply::Refused { code: 128, stderr: String::new() };
    assert_eq!(told(&branch_label(Status::NoGit, &[])), "-");
    assert_eq!(asked(&branch_label(Status::Wip, &[])), "branch --show-current");
    assert_eq!(told(&branch_label(Status::Wip, &[out("main\n")])), "main");
    assert_eq!(asked(&branch_label(Status::Wip, &[out("\n")])), "rev-parse --short HEAD");
    assert_eq!(told(&branch_label(Status::Wip, &[out(""), out("abc123\n")])), "detached@abc123");
    assert_eq!(told(&branch_label(Status::Wip, &[out(""), refused])), "-");
    assert_eq!(asked(&changed_label(Status::Wip, &[])), "log -1 --format=%cr");
    assert_eq!(told(&changed_label(Status::Wip, &[out("3 days ago\n")])), "3 days ago");
    assert_eq!(told(&changed_label(Status::Wip, &[GitReply::Output(None)])), "-");
    assert_eq!(git_text(&GitReply::NotRun("x".to_string())), None);
}

#[test]
fn has_commits_reads_the_repository_not_the_status() {
    let unborn = GitReply::Refused { code: 128, stderr: "fatal: needed a single revision".to_string() };
    assert!(
        matches!(committed_state(Status::Unpushed, &[unborn]), CommitStep::Done(false)),
        "a repo with no commits has nothing ahead of a remote"
    );
    assert!(matches!(committed_state(Status::Unpushed, &[out("abc\n")]), CommitStep::Done(true)));
}

#[test]
fn commits_are_in_doubt_only_for_unpushed_projects() {
    assert!(matches!(committed_state(Status::Wip, &[]), CommitStep::Done(true)));
    match committed_state(Status::Unpushed, &[]) {
        CommitStep::Ask(args) => assert_eq!(args.join(" "), "rev-parse --verify HEAD"),
        CommitStep::Done(_) => panic!("git was not asked"),
    }
    assert!(matches!(committed_state(Status::Unpushed, &[out("abc\n")]), CommitStep::Done(true)));
    let none = GitReply::Refused { code: 128, stderr: String::new() };
    assert!(matches!(committed_state(Status::Unpushed, &[none]), CommitStep::Done(false)));
}

#[test]
fn details_are_the_first_changes() {
    match status_detail_lines(Status::Wip, &[]) {
        DetailStep::Ask(args) => assert_eq!(args.join(" "), "status --porcelain"),
        DetailStep::Done(_) => panic!("git was not asked"),
    }
    match status_detail_lines(Status::Wip, &[out(" M 1\n M 2\n M 3\n M 4\n M 5\n M 6\n M 7\n")]) {
        DetailStep::Done(lines) => {
            assert_eq!(lines.len(), 6);
            assert_eq!(lines[0], "M 1");
            assert_eq!(lines[5], " M 6");
        }
        DetailStep::Ask(_) => panic!("git was asked"),
    }
    assert!(matches!(status_detail_lines(Status::Clean, &[]), DetailStep::Done(v) if v.is_empty()));
}

#[test]
fn branch_lines_say_what_is_certain() {
    assert_eq!(
        format_branch_state("main", Status::Cleanable, true),
        "main · clean tree · remote ✓ pushed"
    );
    assert_eq!(
        format_branch_state("main", Status::Wip, true),
        "main · uncommitted changes · remote ✓"
    );
    assert_eq!(
        format_branch_state("main", Status::Unpushed, false),
        "main · no commits yet · remote ✗ nothing pushed"
    );
    assert_eq!(
        format_branch_state("main", Status::NoRemote, true),
        "main · local only · remote ✗ none"
    );
    assert_eq!(format_branch_state("main", Status::NoGit, true), "-");
}

#[test]
fn branch_labels_are_read_once() {
    let mut labels = BranchLabels::new(2);
    assert_eq!(labels.get(0), None);
    labels.learn(1, "main");
    labels.learn(7, "lost");
    assert_eq!(labels.get(1).as_deref(), Some("main"));
    assert_eq!(labels.get(7), None);
    labels.seed(strings(&["a", "b"]));
    assert_eq!(labels.get(0).as_deref(), Some("a"));
}

#[test]
fn what_is_promised_is_what_git_is_told() {
    let inputs = InteractiveFlowInputs {
        all_projects: vec![("/w/app".to_string(), Status::Cleanable)],
        per_project_items: vec![("/w/app".to_string(), some_items())],
        force: false,
        dry_run: false,
    };
    for (answers, doomed, kept) in [
        (["y", "y", "y"], vec!["target", "notes.txt"], vec!["/keep.dat"]),
        (["y", "n", "y"], vec!["target"], vec!["/notes.txt", "/keep.dat"]),
    ] {
        let results = offcut::interactive::run(&inputs, &strings(&answers));
        let r = &results[0];
        assert!(r.project_approved);
        assert_eq!(r.would_delete, strings(&doomed));
        assert_eq!(build_exclusions(&r.items, &approved_paths(r), false), strings(&kept));
    }
}

#[test]
fn only_approved_projects_are_executed() {
    let r = result(true, &["target", "notes.txt"]);
    assert_eq!(execution_of(&r, false), Some(strings(&["notes.txt"])));
    assert_eq!(execution_of(&r, true), None);
    assert_eq!(execution_of(&result(false, &["target"]), false), None);

    let s = subject("/w/app", Status::Cleanable, Some(some_items()));
    assert_eq!(document_execution(&s, run(true, false, false)), Some(strings(&["notes.txt"])));
    assert_eq!(document_execution(&s, run(true, true, false)), None);
    assert_eq!(document_execution(&s, run(false, false, false)), None);
    let failed = subject("/w/bad", Status::Cleanable, None);
    assert_eq!(document_execution(&failed, run(true, false, false)), None);
}

#[test]
fn declined_items_are_not_counted_as_freed() {
    let size = Some("10 B".to_string());
    let all = result(true, &["target", "notes.txt"]);
    let some = result(true, &["target"]);
    assert!(matches!(reclaim_of(&all, size.clone(), &terminal(false)), Reclaim::Known(None)));
    match reclaim_of(&all, size.clone(), &terminal(true)) {
        Reclaim::Known(words) => assert_eq!(words, size),
        Reclaim::Measure(_) => panic!("nothing was declined"),
    }
    match reclaim_of(&some, size, &terminal(true)) {
        Reclaim::Measure(items) => assert_eq!(items[0].rel_path, "target"),
        Reclaim::Known(_) => panic!("something was declined"),
    }
}
