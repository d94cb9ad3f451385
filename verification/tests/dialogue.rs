//! The cleaning dialogue.

use offcut::classify::Status;
use offcut::clean::{Classification, CleanItem};
use offcut::interactive::{
    affirms, all_question, blocked_reason, collect_all_approval, collect_each_item,
    collect_project_approval, item_question, next_prompt, print_project_report, project_question,
    run, status_reason, InteractiveFlowInputs, ProjectResult, Prompt,
};

fn make_item(rel: &str, classification: Classification, is_dir: bool) -> CleanItem {
    CleanItem { rel_path: rel.to_string(), is_dir, classification }
}

fn inputs_for(items: &[CleanItem], force: bool, dry_run: bool) -> InteractiveFlowInputs {
    let path = "/tmp/project".to_string();
    InteractiveFlowInputs {
        all_projects: vec![(path.clone(), Status::Cleanable)],
        per_project_items: vec![(path, items.to_vec())],
        force,
        dry_run,
    }
}

fn run_with_answers(inputs: InteractiveFlowInputs, answers: &str) -> Vec<ProjectResult> {
    let lines: Vec<String> = answers.lines().map(|l| l.to_string()).collect();
    run(&inputs, &lines)
}

fn has(paths: &[String], p: &str) -> bool {
    paths.iter().any(|x| x == p)
}

#[test]
fn interactive_all_yes_approves_each_project() {
    let items = vec![
        make_item("important.dat", Classification::Protected, false),
        make_item("target", Classification::Safe, true),
        make_item("b.tmp", Classification::Surfaced, false),
        make_item("c.tmp", Classification::Surfaced, false),
    ];
    let inputs = inputs_for(&items, false, false);
    let results = run_with_answers(inputs, "y\ny\ny\ny\n");
    assert_eq!(results.len(), 1);
    assert!(results[0].project_approved);
    assert_eq!(results[0].would_delete.len(), 3); // safe + 2 surfaced
}

#[test]
fn interactive_all_no_exits_cleanly() {
    let items = vec![make_item("target", Classification::Safe, true)];
    let inputs = inputs_for(&items, false, false);
    let results = run_with_answers(inputs, "n\n");
    assert_eq!(results.len(), 1);
    assert!(!results[0].project_approved);
}

#[test]
fn interactive_disapprove_item_keeps_it_excluded() {
    let items = vec![
        make_item("target", Classification::Safe, true),
        make_item("a.tmp", Classification::Surfaced, false),
        make_item("b.tmp", Classification::Surfaced, false),
    ];
    let inputs = inputs_for(&items, false, false);
    let results = run_with_answers(inputs, "y\nn\ny\ny\n");
    assert!(results[0].project_approved);
    assert!(has(&results[0].would_delete, "b.tmp"));
    assert!(!has(&results[0].would_delete, "a.tmp"));
}

#[test]
fn force_auto_approves_each_item() {
    let items = vec![
        make_item("important.dat", Classification::Protected, false),
        make_item("target", Classification::Safe, true),
        make_item("a.tmp", Classification::Surfaced, false),
        make_item("b.tmp", Classification::Surfaced, false),
    ];
    let inputs = inputs_for(&items, true, false);
    let results = run_with_answers(inputs, "y\n");
    assert!(results[0].project_approved);
    assert!(has(&results[0].would_delete, "target"));
    assert!(has(&results[0].would_delete, "a.tmp"));
    assert!(has(&results[0].would_delete, "b.tmp"));
    assert!(!has(&results[0].would_delete, "important.dat"));
}

#[test]
fn dry_run_displays_each_item() {
    let items = vec![
        make_item("target", Classification::Safe, true),
        make_item("a.tmp", Classification::Surfaced, false),
    ];
    let inputs = inputs_for(&items, false, true);
    let results = run_with_answers(inputs, "");
    assert!(results[0].project_approved);
    assert_eq!(results[0].would_delete, vec!["target".to_string()]);
}

#[test]
fn force_and_dry_run_auto_approve_each_item() {
    let items = vec![
        make_item("important.dat", Classification::Protected, false),
        make_item("target", Classification::Safe, true),
        make_item("a.tmp", Classification::Surfaced, false),
    ];
    let inputs = inputs_for(&items, true, true);
    let results = run_with_answers(inputs, "");
    assert!(results[0].project_approved);
    assert_eq!(results[0].would_delete.len(), 2);
}

#[test]
fn zero_cleanable_each_result_empty() {
    let inputs = InteractiveFlowInputs {
        all_projects: vec![
            ("/tmp/project1".to_string(), Status::Cleanable),
            ("/tmp/project2".to_string(), Status::Wip),
        ],
        per_project_items: vec![],
        force: false,
        dry_run: false,
    };
    let results = run_with_answers(inputs, "");
    assert!(results.is_empty());
}

#[test]
fn per_project_gating_each_condition() {
    let items = vec![make_item("target", Classification::Safe, true)];
    let inputs = inputs_for(&items, false, false);
    let results = run_with_answers(inputs, "y\nn\n");
    assert!(!results[0].project_approved);
}

#[test]
fn each_classification_respected_each_item() {
    let items = vec![
        make_item("protected.dat", Classification::Protected, false),
        make_item("target", Classification::Safe, true),
        make_item("b.tmp", Classification::Surfaced, false),
    ];
    let inputs = inputs_for(&items, false, false);
    let results = run_with_answers(inputs, "y\ny\ny\n");
    assert!(has(&results[0].would_delete, "target"));
    assert!(has(&results[0].would_delete, "b.tmp"));
    assert!(!has(&results[0].would_delete, "protected.dat"));
}

#[test]
fn each_rel_path_preserved_each_result() {
    let items = vec![
        make_item("a/path", Classification::Safe, false),
        make_item("b/path", Classification::Surfaced, false),
    ];
    let inputs = inputs_for(&items, false, false);
    let results = run_with_answers(inputs, "y\ny\ny\n");
    assert!(has(&results[0].would_delete, "a/path"));
    assert!(has(&results[0].would_delete, "b/path"));
}

#[test]
fn each_project_path_preserved_each_result() {
    let items = vec![make_item("target", Classification::Safe, true)];
    let inputs = inputs_for(&items, false, false);
    let results = run_with_answers(inputs, "y\ny\ny\n");
    assert_eq!(results[0].path, "/tmp/project");
    assert_eq!(results[0].status, Status::Cleanable);
}

#[test]
fn status_looked_up_by_path_with_non_cleanable_projects_present() {
    let cleanable = "/tmp/zz-cleanable".to_string();
    let inputs = InteractiveFlowInputs {
        all_projects: vec![
            ("/tmp/aa-no-git".to_string(), Status::NoGit),
            (cleanable.clone(), Status::Cleanable),
        ],
        per_project_items: vec![(
            cleanable.clone(),
            vec![make_item("target", Classification::Safe, true)],
        )],
        force: false,
        dry_run: true,
    };
    let results = run_with_answers(inputs, "");
    assert_eq!(results.len(), 1);
    assert_eq!(results[0].path, cleanable);
    assert_eq!(results[0].status, Status::Cleanable);
}

#[test]
fn only_a_lone_y_is_a_yes() {
    assert!(affirms("y"));
    assert!(affirms("  Y \n"));
    for no in ["", "yes", "n", "N", "yy", " "] {
        assert!(!affirms(no), "{no:?}");
    }
    assert!(collect_all_approval(2, Some("y")));
    assert!(!collect_all_approval(0, Some("y")));
    assert!(!collect_all_approval(2, None));
    assert!(collect_project_approval(Some("y")));
    assert!(!collect_project_approval(None));
}

#[test]
fn surfaced_items_are_asked_about_one_by_one() {
    let items = vec![
        make_item("target", Classification::Safe, true),
        make_item("a.tmp", Classification::Surfaced, false),
        make_item("b.tmp", Classification::Surfaced, false),
    ];
    let answers = vec!["n".to_string(), "y".to_string()];
    assert_eq!(
        collect_each_item(&items, &answers),
        vec![("a.tmp".to_string(), false), ("b.tmp".to_string(), true)]
    );
}

#[test]
fn the_questions_come_in_order() {
    let items = vec![
        make_item("target", Classification::Safe, true),
        make_item("a.tmp", Classification::Surfaced, false),
    ];
    let inputs = inputs_for(&items, false, false);
    let mut answers: Vec<String> = Vec::new();
    assert!(matches!(next_prompt(&inputs, &answers), Some(Prompt::All(1))));
    answers.push("y".to_string());
    assert!(matches!(
        next_prompt(&inputs, &answers),
        Some(Prompt::Item { project: 0, item: 1, report: true })
    ));
    answers.push("y".to_string());
    assert!(matches!(
        next_prompt(&inputs, &answers),
        Some(Prompt::Project { project: 0, report: false })
    ));
    answers.push("n".to_string());
    assert!(next_prompt(&inputs, &answers).is_none());
    assert!(!run(&inputs, &answers)[0].project_approved);

    let declined = vec!["n".to_string()];
    assert!(next_prompt(&inputs, &declined).is_none());
    assert!(next_prompt(&inputs_for(&items, true, false), &Vec::new()).is_none());
    assert!(next_prompt(&inputs_for(&items, false, true), &Vec::new()).is_none());
}

#[test]
fn questions_and_reports_read_so() {
    assert_eq!(
        all_question(3, false),
        "? Remove gitignored paths from the 3 cleanable projects? (y/n)"
    );
    let dir = make_item("junk", Classification::Surfaced, true);
    assert_eq!(item_question(&dir, true), "? junk/ [surfaced] delete? [y/N]");
    assert_eq!(
        project_question("/p", false),
        "? Remove these gitignored paths from /p? (y/n)"
    );
    assert_eq!(
        print_project_report("/p", &[dir, make_item("k", Classification::Protected, false)]),
        vec![
            "/p:".to_string(),
            "  Gitignored review".to_string(),
            "  junk/ [surfaced] (needs approval)".to_string(),
            "  k [protected] (kept)".to_string(),
        ]
    );
    assert_eq!(status_reason(Status::Wip), "uncommitted work in progress");
    assert_eq!(blocked_reason(Status::Unpushed, false), "nothing committed yet");
    assert_eq!(blocked_reason(Status::Unpushed, true), "has unpushed commits");
}

#[test]
fn the_end_of_input_is_a_no() {
    let items = vec![make_item("a.tmp", Classification::Surfaced, false)];
    let results = run_with_answers(inputs_for(&items, false, false), "y\n");
    assert!(!results[0].project_approved);
    assert!(results[0].would_delete.is_empty());
}
