//! A clean run: its report, what becomes of every item, and its documents.
//!
//! The caller inspects the projects, asks the questions and runs git. What is
//! said at each step, what is handed to the dialogue and what may be executed
//! is decided here.

use vstd::prelude::*;

use crate::classify::Status;
use crate::clean::{copy_item, copy_items, Classification, CleanItem};
use crate::disk::compute_reclaimable_size;
use crate::interactive::{
    listed_path, print_project_report, prospect_text, review_label_text, InteractiveFlowInputs,
    ProjectResult,
};
use crate::json::{CleanItemRow, CleanProjectRow, CleanResult, Envelope};
use crate::output::{
    blocks_cleaning, clean_review_rows, format_blocked_project, format_clean_review,
    format_clean_success, format_nothing_to_reclaim, format_path_line, home_dir,
    stderr_color_enabled, stderr_terminal_ui_enabled, stdout_color_enabled,
    stdout_terminal_ui_enabled, wrap_line, Terminal,
};
use crate::paths::{contains_path, paths_equal};
use crate::session::{EXIT_APPROVAL_REQUIRED, EXIT_OK};
use crate::survey::{row_line, summary_line, workspace_table_in, SurveyRow, TableLabels};
use crate::text::{cat2, cat3, decimal_text, push_line, push_lines};

verus! {

/// Whether an approved project is really cleaned: not in a dry run.
pub fn enters_cleaning_execution_phase(project_approved: bool, dry_run: bool) -> (r: bool)
    ensures
        r == (project_approved && !dry_run),
{
    project_approved && !dry_run
}

/// What becomes of an item once the answers are in.
pub open spec fn fate(
    item: crate::clean::Item,
    would_delete: Seq<Seq<char>>,
    project_approved: bool,
    force: bool,
    dry_run: bool,
) -> Seq<char> {
    if !project_approved && !dry_run {
        "kept"@
    } else if crate::paths::holds_path(would_delete, item.rel_path) {
        if project_approved && !dry_run {
            "deleting"@
        } else {
            "would delete"@
        }
    } else if dry_run && !force && item.classification == Classification::Surfaced {
        "would prompt"@
    } else {
        "kept"@
    }
}

/// What becomes of an item once the answers are in. A dry run without force
/// leaves open what a real run would ask about.
pub fn item_fate(
    item: &CleanItem,
    would_delete: &Vec<String>,
    project_approved: bool,
    force: bool,
    dry_run: bool,
) -> (s: &'static str)
    ensures
        s@ == fate(
            item@,
            crate::text::texts(would_delete@),
            project_approved,
            force,
            dry_run,
        ),
{
    let will_execute = enters_cleaning_execution_phase(project_approved, dry_run);
    if !project_approved && !dry_run {
        return "kept";
    }
    if contains_path(would_delete, item.rel_path.as_str()) {
        if will_execute {
            "deleting"
        } else {
            "would delete"
        }
    } else if dry_run && !force && item.classification == Classification::Surfaced {
        "would prompt"
    } else {
        "kept"
    }
}

/// What the inspection of a cleanable project gave.
pub struct Inspection {
    pub items: Vec<CleanItem>,
    /// What cleaning would free, where that was measured.
    pub bytes: Option<u64>,
}

/// A project of a clean run.
pub struct Subject {
    pub path: String,
    pub status: Status,
    /// The inspection of a cleanable project, if it did not fail.
    pub inspection: Option<Inspection>,
}

/// The value of a [`Subject`].
pub struct Project {
    pub path: Seq<char>,
    pub status: Status,
    pub inspection: Option<(Seq<crate::clean::Item>, Option<u64>)>,
}

impl View for Subject {
    type V = Project;

    open spec fn view(&self) -> Project {
        Project {
            path: self.path@,
            status: self.status,
            inspection: match self.inspection {
                Some(i) => Some((crate::clean::item_views(i.items@), i.bytes)),
                None => None,
            },
        }
    }
}

/// The values of a sequence of projects.
pub open spec fn project_views(v: Seq<Subject>) -> Seq<Project> {
    v.map_values(|s: Subject| s@)
}

/// A project as the survey has it.
pub open spec fn surveyed(p: Project) -> crate::survey::Surveyed {
    crate::survey::Surveyed {
        path: p.path,
        status: p.status,
        bytes: match p.inspection {
            Some(i) => i.1,
            None => None,
        },
    }
}

/// Projects as the survey has them.
pub open spec fn all_surveyed(ps: Seq<Project>) -> Seq<crate::survey::Surveyed> {
    ps.map_values(|p: Project| surveyed(p))
}

fn survey_row(s: &Subject) -> (row: SurveyRow)
    ensures
        row@ == surveyed(s@),
{
    let bytes: Option<u64> = match &s.inspection {
        Some(i) => i.bytes,
        None => None,
    };
    SurveyRow { path: s.path.clone(), status: s.status, bytes }
}

/// Projects as the survey has them.
pub fn survey_rows(subjects: &[Subject]) -> (out: Vec<SurveyRow>)
    ensures
        crate::survey::row_views(out@) == all_surveyed(project_views(subjects@)),
{
    let mut out: Vec<SurveyRow> = Vec::new();
    let ghost all = all_surveyed(project_views(subjects@));
    let mut i: usize = 0;
    assert(crate::survey::row_views(out@) =~= all.take(0));
    while i < subjects.len()
        invariant
            i <= subjects@.len(),
            all == all_surveyed(project_views(subjects@)),
            crate::survey::row_views(out@) == all.take(i as int),
        decreases subjects@.len() - i,
    {
        let ghost before = crate::survey::row_views(out@);
        let row = survey_row(&subjects[i]);
        let ghost r = row@;
        out.push(row);
        assert(r == all[i as int]);
        assert(crate::survey::row_views(out@) =~= before.push(r));
        i = i + 1;
        assert(before.push(r) =~= all.take(i as int));
    }
    assert(all.take(i as int) =~= all);
    out
}

/// Whether a project can be cleaned in this run: it is cleanable, and its
/// inspection did not fail.
pub open spec fn actionable(p: Project) -> bool {
    p.status == Status::Cleanable && p.inspection is Some
}

/// The plain rows of a report. A cleanable project whose inspection failed has
/// none; a warning has told of it.
pub open spec fn report_rows(ps: Seq<Project>, colors: bool) -> Seq<Seq<char>>
    decreases ps.len(),
{
    if ps.len() == 0 {
        Seq::empty()
    } else {
        let before = report_rows(ps.drop_last(), colors);
        if ps.last().status == Status::Cleanable && ps.last().inspection is None {
            before
        } else {
            before.push(crate::survey::plain_row(surveyed(ps.last()), colors))
        }
    }
}

/// The plain report.
pub open spec fn plain_report(ps: Seq<Project>, colors: bool) -> Seq<Seq<char>> {
    seq![
        "clean: "@ + crate::text::decimal(ps.len()) + " project(s) — sorted by status"@,
        crate::survey::plain_summary(all_surveyed(ps), colors),
    ] + report_rows(ps, colors)
}

fn plain_report_lines(subjects: &[Subject], t: &Terminal) -> (out: Vec<String>)
    requires
        crate::survey::bytes_in_all(all_surveyed(project_views(subjects@))) <= u64::MAX,
    ensures
        crate::text::texts(out@) == plain_report(
            project_views(subjects@),
            crate::output::rows_are_colored(*t),
        ),
{
    let ghost all = project_views(subjects@);
    let ghost colors = crate::output::rows_are_colored(*t);
    let rows = survey_rows(subjects);
    let mut out: Vec<String> = Vec::new();
    let n = decimal_text(subjects.len() as u64);
    push_line(&mut out, cat3("clean: ", n.as_str(), " project(s) — sorted by status"));
    push_line(&mut out, summary_line(rows.as_slice(), t));
    let ghost head = crate::text::texts(out@);
    let mut i: usize = 0;
    assert(crate::text::texts(out@) =~= head + report_rows(all.take(0), colors));
    while i < subjects.len()
        invariant
            i <= subjects@.len(),
            all == project_views(subjects@),
            crate::survey::row_views(rows@) == all_surveyed(all),
            colors == crate::output::rows_are_colored(*t),
            crate::text::texts(out@) == head + report_rows(all.take(i as int), colors),
        decreases subjects@.len() - i,
    {
        assert(all.take(i + 1).drop_last() =~= all.take(i as int));
        assert(all.take(i + 1).last() == subjects@[i as int]@);
        let failed = subjects[i].status == Status::Cleanable && subjects[i].inspection.is_none();
        if !failed {
            let ghost before = crate::text::texts(out@);
            assert(crate::survey::row_views(rows@).len() == rows@.len());
            assert(all_surveyed(all).len() == subjects@.len());
            assert(crate::survey::row_views(rows@)[i as int] == rows@[i as int]@);
            let line = row_line(&rows[i], t);
            let ghost l = line@;
            push_line(&mut out, line);
            assert(before.push(l) =~= head + report_rows(all.take(i + 1), colors));
        }
        i = i + 1;
    }
    assert(all.take(i as int) =~= all);
    assert(head =~= seq![
        "clean: "@ + crate::text::decimal(all.len()) + " project(s) — sorted by status"@,
        crate::survey::plain_summary(all_surveyed(all), colors),
    ]);
    out
}

/// The report of a clean run.
pub open spec fn report(
    ps: Seq<Project>,
    branches: Seq<Seq<char>>,
    changed: Seq<Seq<char>>,
    targeted: bool,
    t: Terminal,
    w: nat,
    home: Option<Seq<char>>,
) -> Seq<Seq<char>> {
    if crate::output::stdout_is_rich(t) {
        crate::survey::workspace_table(
            all_surveyed(ps),
            branches,
            changed,
            targeted,
            w,
            home,
            crate::output::stdout_is_colored(t),
        )
    } else {
        plain_report(ps, crate::output::rows_are_colored(t))
    }
}

/// The projects and their statuses, as the dialogue gets them.
pub open spec fn status_pairs(v: Seq<(String, Status)>) -> Seq<(Seq<char>, Status)> {
    v.map_values(|p: (String, Status)| (p.0@, p.1))
}

/// The items of the projects in the dialogue.
pub open spec fn item_pairs(v: Seq<(String, Vec<CleanItem>)>) -> Seq<
    (Seq<char>, Seq<crate::clean::Item>),
> {
    v.map_values(|p: (String, Vec<CleanItem>)| (p.0@, crate::clean::item_views(p.1@)))
}

/// The projects that can be cleaned, with their items.
pub open spec fn to_clean(ps: Seq<Project>) -> Seq<(Seq<char>, Seq<crate::clean::Item>)>
    decreases ps.len(),
{
    if ps.len() == 0 {
        Seq::empty()
    } else {
        let before = to_clean(ps.drop_last());
        match ps.last().inspection {
            Some((items, _)) => if actionable(ps.last()) {
                before.push((ps.last().path, items))
            } else {
                before
            },
            None => before,
        }
    }
}

/// Whether `inputs` are those of the dialogue about these projects.
pub open spec fn is_dialogue(
    inputs: InteractiveFlowInputs,
    ps: Seq<Project>,
    force: bool,
    dry_run: bool,
) -> bool {
    &&& status_pairs(inputs.all_projects@) == ps.map_values(|p: Project| (p.path, p.status))
    &&& item_pairs(inputs.per_project_items@) == to_clean(ps)
    &&& inputs.force == force
    &&& inputs.dry_run == dry_run
}

/// What the dialogue of a clean run is about: every project with its status,
/// and the items of those that can be cleaned.
pub fn flow_inputs(subjects: &[Subject], force: bool, dry_run: bool) -> (inputs:
    InteractiveFlowInputs)
    ensures
        is_dialogue(inputs, project_views(subjects@), force, dry_run),
{
    let ghost all = project_views(subjects@);
    let ghost pairs = all.map_values(|p: Project| (p.path, p.status));
    let mut all_projects: Vec<(String, Status)> = Vec::new();
    let mut per_project_items: Vec<(String, Vec<CleanItem>)> = Vec::new();
    let mut i: usize = 0;
    assert(status_pairs(all_projects@) =~= pairs.take(0));
    assert(item_pairs(per_project_items@) =~= to_clean(all.take(0)));
    while i < subjects.len()
        invariant
            i <= subjects@.len(),
            all == project_views(subjects@),
            pairs == all.map_values(|p: Project| (p.path, p.status)),
            status_pairs(all_projects@) == pairs.take(i as int),
            item_pairs(per_project_items@) == to_clean(all.take(i as int)),
        decreases subjects@.len() - i,
    {
        assert(all.take(i + 1).drop_last() =~= all.take(i as int));
        assert(all.take(i + 1).last() == subjects@[i as int]@);
        let s = &subjects[i];
        let ghost said = status_pairs(all_projects@);
        all_projects.push((s.path.clone(), s.status));
        assert(status_pairs(all_projects@) =~= said.push(pairs[i as int]));
        if s.status == Status::Cleanable {
            if let Some(found) = &s.inspection {
                let ghost had = item_pairs(per_project_items@);
                let items = copy_items(found.items.as_slice());
                let ghost views = crate::clean::item_views(items@);
                per_project_items.push((s.path.clone(), items));
                assert(item_pairs(per_project_items@) =~= had.push((s.path@, views)));
            }
        }
        i = i + 1;
        assert(said.push(pairs[i - 1]) =~= pairs.take(i as int));
    }
    assert(all.take(i as int) =~= all);
    assert(pairs.take(i as int) =~= pairs);
    InteractiveFlowInputs { all_projects, per_project_items, force, dry_run }
}

/// What is said when there is nothing to clean and no panel says it.
pub open spec fn nothing_cleanable(t: Terminal, w: nat) -> Seq<Seq<char>> {
    if crate::output::stdout_is_rich(t) {
        crate::layout::wrapped("clean: no cleanable projects — nothing to delete"@, w)
    } else {
        seq!["clean: no cleanable projects — nothing to delete"@]
    }
}

fn nothing_cleanable_lines(t: &Terminal, w: usize) -> (out: Vec<String>)
    ensures
        crate::text::texts(out@) == nothing_cleanable(*t, w as nat),
{
    if stdout_terminal_ui_enabled(t) {
        wrap_line("clean: no cleanable projects — nothing to delete", w)
    } else {
        let mut out: Vec<String> = Vec::new();
        push_line(&mut out, "clean: no cleanable projects — nothing to delete".to_owned());
        assert(crate::text::texts(out@) =~= seq![
            "clean: no cleanable projects — nothing to delete"@,
        ]);
        out
    }
}

/// How a clean run goes on after its report.
pub enum CleaningNext {
    /// It is over.
    Done,
    /// It ends with the panel of the one project it is about (see
    /// [`closing_lines`]).
    Panel,
    /// The user is asked.
    Dialogue(InteractiveFlowInputs),
}

/// The start of a clean run: what it prints, and how it goes on.
pub struct CleaningStart {
    pub lines: Vec<String>,
    pub next: CleaningNext,
}

/// Whether `start` is how a clean run of these projects starts for a user with
/// this home directory.
pub open spec fn starts_as(
    start: CleaningStart,
    found: nat,
    ps: Seq<Project>,
    branches: Seq<Seq<char>>,
    changed: Seq<Seq<char>>,
    run: CleanRun,
    t: Terminal,
    w: nat,
    home: Option<Seq<char>>,
) -> bool {
    let said = crate::text::texts(start.lines@);
    let top = report(ps, branches, changed, run.targeted, t, w, home);
    if found == 0 {
        said == seq!["clean: no projects found"@] && start.next is Done
    } else if to_clean(ps).len() > 0 {
        said == top && start.next is Dialogue && is_dialogue(
            start.next->Dialogue_0,
            ps,
            run.force,
            run.dry_run,
        )
    } else if crate::output::stdout_is_rich(t) && run.targeted && ps.len() > 0 {
        said == top && start.next is Panel
    } else {
        said == top + nothing_cleanable(t, w) && start.next is Done
    }
}

/// The flags of a clean run, and whether it is about one named project.
#[derive(Debug, Clone, Copy, PartialEq, Eq, Structural)]
pub struct CleanRun {
    pub force: bool,
    pub dry_run: bool,
    pub targeted: bool,
}

/// How a clean run starts for a user with this home directory. `found` is how
/// many projects discovery found; `subjects` are those that were classified,
/// sorted by severity (see [`crate::survey::severity_order`]); `labels` are
/// theirs, and needed on a rich terminal only.
pub fn cleaning_in(
    found: usize,
    subjects: &[Subject],
    labels: &TableLabels,
    run: CleanRun,
    t: &Terminal,
    w: usize,
    home: Option<&str>,
) -> (start: CleaningStart)
    requires
        crate::output::stdout_is_rich(*t) ==> labels.branches@.len() == subjects@.len()
            && labels.changed@.len() == subjects@.len(),
        crate::survey::bytes_in_all(all_surveyed(project_views(subjects@))) <= u64::MAX,
    ensures
        starts_as(
            start,
            found as nat,
            project_views(subjects@),
            crate::text::texts(labels.branches@),
            crate::text::texts(labels.changed@),
            run,
            *t,
            w as nat,
            crate::text::str_text(home),
        ),
{
    let ghost ps = project_views(subjects@);
    if found == 0 {
        let mut lines: Vec<String> = Vec::new();
        push_line(&mut lines, "clean: no projects found".to_owned());
        assert(crate::text::texts(lines@) =~= seq!["clean: no projects found"@]);
        return CleaningStart { lines, next: CleaningNext::Done };
    }
    let rich = stdout_terminal_ui_enabled(t);
    let mut lines = if rich {
        let rows = survey_rows(subjects);
        assert(rows@.len() == subjects@.len()) by {
            assert(crate::survey::row_views(rows@).len() == all_surveyed(ps).len());
        }
        workspace_table_in(rows.as_slice(), labels, run.targeted, w, home, stdout_color_enabled(t))
    } else {
        plain_report_lines(subjects, t)
    };
    let inputs = flow_inputs(subjects, run.force, run.dry_run);
    assert(inputs.per_project_items@.len() == to_clean(ps).len()) by {
        assert(item_pairs(inputs.per_project_items@).len() == to_clean(ps).len());
    }
    if inputs.per_project_items.len() > 0 {
        return CleaningStart { lines, next: CleaningNext::Dialogue(inputs) };
    }
    if rich && run.targeted && subjects.len() > 0 {
        return CleaningStart { lines, next: CleaningNext::Panel };
    }
    push_lines(&mut lines, nothing_cleanable_lines(t, w));
    CleaningStart { lines, next: CleaningNext::Done }
}

/// How a clean run starts (see [`cleaning_in`]) for the current user.
pub fn run_cleaning(
    found: usize,
    subjects: &[Subject],
    labels: &TableLabels,
    run: CleanRun,
    t: &Terminal,
    w: usize,
) -> (start: CleaningStart)
    requires
        crate::output::stdout_is_rich(*t) ==> labels.branches@.len() == subjects@.len()
            && labels.changed@.len() == subjects@.len(),
        crate::survey::bytes_in_all(all_surveyed(project_views(subjects@))) <= u64::MAX,
    ensures
        exists|home: Option<Seq<char>>| #[trigger]
            starts_as(
                start,
                found as nat,
                project_views(subjects@),
                crate::text::texts(labels.branches@),
                crate::text::texts(labels.changed@),
                run,
                *t,
                w as nat,
                home,
            ),
{
    let known = home_dir();
    let home = match &known {
        Some(h) => Some(h.as_str()),
        None => None,
    };
    cleaning_in(found, subjects, labels, run, t, w, home)
}

/// The panel that a run on one project ends with, if there is one for its
/// state.
pub open spec fn panel_lines(
    path: Seq<char>,
    status: Status,
    committed: bool,
    branch_line: Seq<char>,
    details: Seq<Seq<char>>,
    possible_reclaim: Option<Seq<char>>,
    w: nat,
    colors: bool,
) -> Option<Seq<Seq<char>>> {
    if crate::output::is_blocking(status) {
        Some(
            crate::output::blocked_lines(
                path,
                status,
                committed,
                branch_line,
                details,
                possible_reclaim,
                w,
                colors,
            ),
        )
    } else if status == Status::Clean {
        Some(crate::output::nothing_lines(path, branch_line, w, colors))
    } else {
        None
    }
}

/// The panel that a run on one project ends with: the refusal of one whose
/// state blocks cleaning, and for a clean one that there is nothing to
/// reclaim. A cleanable one only ends here if its inspection failed, and then
/// there is no panel.
pub fn targeted_outcome_panel(
    path: &str,
    status: Status,
    committed: bool,
    branch_line: &str,
    details: &[String],
    possible_reclaim: Option<&str>,
    w: usize,
    emit_colors: bool,
) -> (r: Option<Vec<String>>)
    ensures
        crate::clean::opt_texts(r) == panel_lines(
            path@,
            status,
            committed,
            branch_line@,
            crate::text::texts(details@),
            crate::text::str_text(possible_reclaim),
            w as nat,
            emit_colors,
        ),
{
    if blocks_cleaning(status) {
        return Some(
            format_blocked_project(
                path,
                status,
                committed,
                branch_line,
                details,
                possible_reclaim,
                w,
                emit_colors,
            ),
        );
    }
    if status == Status::Clean {
        return Some(format_nothing_to_reclaim(path, branch_line, w, emit_colors));
    }
    None
}

/// What a run on one project ends with when there is nothing to clean: the
/// panel, or a line where no panel fits.
pub fn closing_lines(
    path: &str,
    status: Status,
    committed: bool,
    branch_line: &str,
    details: &[String],
    possible_reclaim: Option<&str>,
    t: &Terminal,
    w: usize,
) -> (out: Vec<String>)
    ensures
        crate::text::texts(out@) == match panel_lines(
            path@,
            status,
            committed,
            branch_line@,
            crate::text::texts(details@),
            crate::text::str_text(possible_reclaim),
            w as nat,
            crate::output::stdout_is_colored(*t),
        ) {
            Some(lines) => lines,
            None => nothing_cleanable(*t, w as nat),
        },
{
    match targeted_outcome_panel(
        path,
        status,
        committed,
        branch_line,
        details,
        possible_reclaim,
        w,
        stdout_color_enabled(t),
    ) {
        Some(lines) => lines,
        None => nothing_cleanable_lines(t, w),
    }
}

/// The items that go without asking.
pub open spec fn safe_ones(items: Seq<crate::clean::Item>) -> Seq<crate::clean::Item>
    decreases items.len(),
{
    if items.len() == 0 {
        Seq::empty()
    } else {
        let before = safe_ones(items.drop_last());
        if items.last().classification == Classification::Safe {
            before.push(items.last())
        } else {
            before
        }
    }
}

/// The items that go without asking.
pub fn safe_only(items: &[CleanItem]) -> (out: Vec<CleanItem>)
    ensures
        crate::clean::item_views(out@) == safe_ones(crate::clean::item_views(items@)),
{
    let ghost all = crate::clean::item_views(items@);
    let mut out: Vec<CleanItem> = Vec::new();
    let mut i: usize = 0;
    assert(crate::clean::item_views(out@) =~= safe_ones(all.take(0)));
    while i < items.len()
        invariant
            i <= items@.len(),
            all == crate::clean::item_views(items@),
            crate::clean::item_views(out@) == safe_ones(all.take(i as int)),
        decreases items@.len() - i,
    {
        assert(all.take(i + 1).drop_last() =~= all.take(i as int));
        assert(all.take(i + 1).last() == items@[i as int]@);
        if items[i].classification == Classification::Safe {
            let ghost before = crate::clean::item_views(out@);
            out.push(copy_item(&items[i]));
            assert(crate::clean::item_views(out@) =~= before.push(items@[i as int]@));
        }
        i = i + 1;
    }
    assert(all.take(i as int) =~= all);
    out
}

/// What cleaning a blocked project would free once nothing blocks it, and the
/// warnings of the measurement. Only what goes without asking counts: the rest
/// is likely the user's own new work. `safe` are those items (see
/// [`safe_only`]) and `sizes` what the disk says of each. Nothing is said of
/// zero.
pub fn blocked_reclaim(safe: &[CleanItem], sizes: &[Result<u64, String>]) -> (r: (
    Option<String>,
    Vec<String>,
))
    requires
        safe@.len() == sizes@.len(),
    ensures
        crate::text::opt_text(r.0) == crate::survey::total_words(
            crate::disk::capped(
                crate::disk::reclaimable_sum(crate::clean::item_views(safe@), sizes@),
            ),
        ),
        crate::text::texts(r.1@) == crate::disk::size_warnings(
            crate::clean::item_views(safe@),
            sizes@,
        ),
{
    let (bytes, warnings) = compute_reclaimable_size(safe, sizes);
    (crate::survey::total_text(bytes), warnings)
}

/// The review rows of a project once the answers are in.
pub open spec fn outcome_rows(
    r: crate::interactive::Outcome,
    force: bool,
    dry_run: bool,
) -> Seq<crate::output::ReviewRow> {
    r.items.map_values(
        |i: crate::clean::Item|
            crate::output::ReviewRow {
                rel_path: i.rel_path,
                is_dir: i.is_dir,
                label: crate::interactive::review_label(i.classification),
                fate: fate(i, r.would_delete, r.project_approved, force, dry_run),
            },
    )
}

/// The rich account of a project's outcome.
pub open spec fn rich_outcome(
    r: crate::interactive::Outcome,
    review_shown: bool,
    branch_line: Seq<char>,
    size: Option<Seq<char>>,
    force: bool,
    dry_run: bool,
    w: nat,
    colors: bool,
) -> Seq<Seq<char>> {
    let review = if review_shown {
        Seq::empty()
    } else {
        crate::output::review_lines(
            r.path,
            branch_line,
            outcome_rows(r, force, dry_run),
            size,
            w,
            colors,
        )
    };
    review + if !r.project_approved {
        seq![crate::output::path_line("⟩ skipped by user · "@, r.path, w)]
    } else if dry_run {
        crate::layout::wrapped("⟩ dry-run only - nothing deleted"@, w)
    } else {
        seq![crate::output::path_line("⟩ cleaning "@, r.path, w)]
    }
}

/// The plain line of an item.
pub open spec fn outcome_item(
    item: crate::clean::Item,
    r: crate::interactive::Outcome,
    force: bool,
    dry_run: bool,
) -> Seq<char> {
    "  "@ + crate::interactive::listed(item) + " ["@ + crate::interactive::review_label(
        item.classification,
    ) + "] ("@ + fate(item, r.would_delete, r.project_approved, force, dry_run) + ")"@
}

/// The plain account of a project's outcome.
pub open spec fn plain_outcome(
    r: crate::interactive::Outcome,
    force: bool,
    dry_run: bool,
) -> Seq<Seq<char>> {
    seq![
        "clean "@ + r.path + ": "@ + if r.project_approved {
            "approved"@
        } else {
            "skipped"@
        } + " — "@ + crate::classify::label_of(r.status),
    ] + r.items.map_values(|i: crate::clean::Item| outcome_item(i, r, force, dry_run))
}

fn plain_outcome_lines(r: &ProjectResult, force: bool, dry_run: bool) -> (out: Vec<String>)
    ensures
        crate::text::texts(out@) == plain_outcome(r@, force, dry_run),
{
    let ghost all = crate::clean::item_views(r.items@);
    let ghost lines = all.map_values(|i: crate::clean::Item| outcome_item(i, r@, force, dry_run));
    let mut out: Vec<String> = Vec::new();
    let mut title = cat3("clean ", r.path.as_str(), ": ");
    title.append(
        if r.project_approved {
            "approved"
        } else {
            "skipped"
        },
    );
    title.append(" — ");
    title.append(r.status.label());
    push_line(&mut out, title);
    let ghost head = crate::text::texts(out@);
    let mut i: usize = 0;
    assert(crate::text::texts(out@) =~= head + lines.take(0));
    while i < r.items.len()
        invariant
            i <= r.items@.len(),
            all == crate::clean::item_views(r.items@),
            lines == all.map_values(|i: crate::clean::Item| outcome_item(i, r@, force, dry_run)),
            crate::text::texts(out@) == head + lines.take(i as int),
        decreases r.items@.len() - i,
    {
        let item = &r.items[i];
        let shown = listed_path(item);
        let mut line = cat3("  ", shown.as_str(), " [");
        line.append(review_label_text(item.classification));
        line.append("] (");
        line.append(item_fate(item, &r.would_delete, r.project_approved, force, dry_run));
        line.append(")");
        let ghost before = crate::text::texts(out@);
        assert(lines[i as int] == line@);
        push_line(&mut out, line);
        i = i + 1;
        assert(before.push(lines[i - 1]) =~= head + lines.take(i as int));
    }
    assert(lines.take(i as int) =~= lines);
    assert(crate::text::texts(out@) =~= plain_outcome(r@, force, dry_run));
    out
}

fn review_of(
    r: &ProjectResult,
    branch_line: &str,
    size: Option<&str>,
    force: bool,
    dry_run: bool,
    w: usize,
    colors: bool,
) -> (out: Vec<String>)
    ensures
        crate::text::texts(out@) == crate::output::review_lines(
            r.path@,
            branch_line@,
            outcome_rows(r@, force, dry_run),
            crate::text::str_text(size),
            w as nat,
            colors,
        ),
{
    let fate_of = |item: &CleanItem| -> (s: &'static str)
        ensures
            s@ == fate(item@, r@.would_delete, r.project_approved, force, dry_run),
        { item_fate(item, &r.would_delete, r.project_approved, force, dry_run) };
    let rows = clean_review_rows(r.items.as_slice(), fate_of);
    assert(crate::output::review_views(rows@) =~= outcome_rows(r@, force, dry_run)) by {
        assert forall|i: int| 0 <= i < rows@.len() implies #[trigger] rows@[i]@ == outcome_rows(
            r@,
            force,
            dry_run,
        )[i] by {
            assert(r@.items[i] == r.items@[i]@);
        }
    }
    format_clean_review(r.path.as_str(), branch_line, rows.as_slice(), size, w, colors)
}

/// The review rows of a project before its questions.
pub open spec fn prospect_rows(items: Seq<crate::clean::Item>) -> Seq<crate::output::ReviewRow> {
    items.map_values(
        |i: crate::clean::Item|
            crate::output::ReviewRow {
                rel_path: i.rel_path,
                is_dir: i.is_dir,
                label: crate::interactive::review_label(i.classification),
                fate: crate::interactive::prospect(i.classification),
            },
    )
}

/// What is shown on standard error before the questions about a project: its
/// review on a rich terminal, else the plain report. `branch_line` and `size` are
/// for the review. The second result says whether the review was shown.
pub fn preview_lines(
    path: &str,
    items: &[CleanItem],
    branch_line: &str,
    size: Option<&str>,
    t: &Terminal,
    w: usize,
) -> (out: (Vec<String>, bool))
    ensures
        out.1 == crate::output::stderr_is_rich(*t),
        crate::text::texts(out.0@) == if crate::output::stderr_is_rich(*t) {
            crate::output::review_lines(
                path@,
                branch_line@,
                prospect_rows(crate::clean::item_views(items@)),
                crate::text::str_text(size),
                w as nat,
                crate::output::stderr_is_colored(*t),
            )
        } else {
            crate::interactive::project_report(path@, crate::clean::item_views(items@))
        },
{
    if !stderr_terminal_ui_enabled(t) {
        return (print_project_report(path, items), false);
    }
    let fate_of = |item: &CleanItem| -> (s: &'static str)
        ensures
            s@ == crate::interactive::prospect(item.classification),
        { prospect_text(item.classification) };
    let rows = clean_review_rows(items, fate_of);
    let ghost wanted = prospect_rows(crate::clean::item_views(items@));
    assert(crate::output::review_views(rows@) =~= wanted) by {
        assert forall|i: int| 0 <= i < rows@.len() implies #[trigger] rows@[i]@ == wanted[i] by {
            assert(crate::clean::item_views(items@)[i] == items@[i]@);
        }
    }
    let colors = stderr_color_enabled(t);
    (format_clean_review(path, branch_line, rows.as_slice(), size, w, colors), true)
}

/// What is said of a project once the answers are in, before anything is
/// executed. `review_shown` says whether its review was on the screen when the
/// user was asked; `branch_line` and `size` are for the review.
pub fn outcome_lines(
    r: &ProjectResult,
    review_shown: bool,
    branch_line: &str,
    size: Option<&str>,
    run: CleanRun,
    t: &Terminal,
    w: usize,
) -> (out: Vec<String>)
    ensures
        crate::text::texts(out@) == if crate::output::stdout_is_rich(*t) {
            rich_outcome(
                r@,
                review_shown,
                branch_line@,
                crate::text::str_text(size),
                run.force,
                run.dry_run,
                w as nat,
                crate::output::stdout_is_colored(*t),
            )
        } else {
            plain_outcome(r@, run.force, run.dry_run)
        },
{
    if !stdout_terminal_ui_enabled(t) {
        return plain_outcome_lines(r, run.force, run.dry_run);
    }
    let colors = stdout_color_enabled(t);
    let mut out: Vec<String> = if review_shown {
        Vec::new()
    } else {
        review_of(r, branch_line, size, run.force, run.dry_run, w, colors)
    };
    let ghost review = crate::text::texts(out@);
    if review_shown {
        assert(review =~= Seq::<Seq<char>>::empty());
    }
    if !r.project_approved {
        push_line(&mut out, format_path_line("⟩ skipped by user · ", r.path.as_str(), w));
        assert(crate::text::texts(out@) =~= review + seq![
            crate::output::path_line("⟩ skipped by user · "@, r.path@, w as nat),
        ]);
    } else if run.dry_run {
        push_lines(&mut out, wrap_line("⟩ dry-run only - nothing deleted", w));
    } else {
        push_line(&mut out, format_path_line("⟩ cleaning ", r.path.as_str(), w));
        assert(crate::text::texts(out@) =~= review + seq![
            crate::output::path_line("⟩ cleaning "@, r.path@, w as nat),
        ]);
    }
    out
}

/// Whether a path is that of a surfaced item.
pub open spec fn is_surfaced(items: Seq<crate::clean::Item>, path: Seq<char>) -> bool {
    exists|i: int|
        0 <= i < items.len() && crate::paths::same_path((#[trigger] items[i]).rel_path, path)
            && items[i].classification == Classification::Surfaced
}

/// The surfaced paths among those to remove: what the user agreed to.
pub open spec fn agreed_surfaced(
    items: Seq<crate::clean::Item>,
    would_delete: Seq<Seq<char>>,
) -> Seq<Seq<char>>
    decreases would_delete.len(),
{
    if would_delete.len() == 0 {
        Seq::empty()
    } else {
        let before = agreed_surfaced(items, would_delete.drop_last());
        if is_surfaced(items, would_delete.last()) {
            before.push(would_delete.last())
        } else {
            before
        }
    }
}

fn surfaced(items: &Vec<CleanItem>, path: &str) -> (r: bool)
    ensures
        r == is_surfaced(crate::clean::item_views(items@), path@),
{
    let ghost all = crate::clean::item_views(items@);
    let mut i: usize = 0;
    while i < items.len()
        invariant
            i <= items@.len(),
            all == crate::clean::item_views(items@),
            forall|k: int|
                0 <= k < i ==> !(crate::paths::same_path((#[trigger] all[k]).rel_path, path@)
                    && all[k].classification == Classification::Surfaced),
        decreases items@.len() - i,
    {
        if paths_equal(items[i].rel_path.as_str(), path) && items[i].classification
            == Classification::Surfaced {
            assert(crate::paths::same_path(all[i as int].rel_path, path@));
            return true;
        }
        assert(all[i as int] == items@[i as int]@);
        i = i + 1;
    }
    false
}

/// The surfaced paths that are approved for removal, to be handed to
/// [`crate::clean::clean`].
pub fn approved_paths(r: &ProjectResult) -> (out: Vec<String>)
    ensures
        crate::text::texts(out@) == agreed_surfaced(r@.items, r@.would_delete),
{
    let ghost all = crate::text::texts(r.would_delete@);
    let mut out: Vec<String> = Vec::new();
    let mut i: usize = 0;
    assert(crate::text::texts(out@) =~= agreed_surfaced(r@.items, all.take(0)));
    while i < r.would_delete.len()
        invariant
            i <= r.would_delete@.len(),
            all == crate::text::texts(r.would_delete@),
            crate::text::texts(out@) == agreed_surfaced(r@.items, all.take(i as int)),
        decreases r.would_delete@.len() - i,
    {
        assert(all.take(i + 1).drop_last() =~= all.take(i as int));
        assert(all.take(i + 1).last() == r.would_delete@[i as int]@);
        if surfaced(&r.items, r.would_delete[i].as_str()) {
            push_line(&mut out, r.would_delete[i].clone());
        }
        i = i + 1;
    }
    assert(all.take(i as int) =~= all);
    out
}

/// Whether some item that could go stays: then what the run frees has to be
/// measured again.
pub open spec fn declines_some(r: crate::interactive::Outcome) -> bool {
    exists|i: int|
        0 <= i < r.items.len() && crate::disk::counts(#[trigger] r.items[i])
            && !crate::paths::holds_path(r.would_delete, r.items[i].rel_path)
}

/// Whether some item that could go stays: then what the run frees has to be
/// measured again (over [`deleted_items`]).
pub fn some_declined(r: &ProjectResult) -> (b: bool)
    ensures
        b == declines_some(r@),
{
    let ghost all = crate::clean::item_views(r.items@);
    let mut i: usize = 0;
    while i < r.items.len()
        invariant
            i <= r.items@.len(),
            all == crate::clean::item_views(r.items@),
            forall|k: int|
                0 <= k < i ==> !(crate::disk::counts(#[trigger] all[k])
                    && !crate::paths::holds_path(r@.would_delete, all[k].rel_path)),
        decreases r.items@.len() - i,
    {
        assert(all[i as int] == r.items@[i as int]@);
        if crate::disk::is_deletable(&r.items[i]) && !contains_path(
            &r.would_delete,
            r.items[i].rel_path.as_str(),
        ) {
            assert(crate::disk::counts(r@.items[i as int]));
            return true;
        }
        i = i + 1;
    }
    false
}

/// The items that are removed.
pub open spec fn going(
    items: Seq<crate::clean::Item>,
    would_delete: Seq<Seq<char>>,
) -> Seq<crate::clean::Item>
    decreases items.len(),
{
    if items.len() == 0 {
        Seq::empty()
    } else {
        let before = going(items.drop_last(), would_delete);
        if crate::paths::holds_path(would_delete, items.last().rel_path) {
            before.push(items.last())
        } else {
            before
        }
    }
}

/// The items that are removed.
pub fn deleted_items(r: &ProjectResult) -> (out: Vec<CleanItem>)
    ensures
        crate::clean::item_views(out@) == going(r@.items, r@.would_delete),
{
    let ghost all = crate::clean::item_views(r.items@);
    let mut out: Vec<CleanItem> = Vec::new();
    let mut i: usize = 0;
    assert(crate::clean::item_views(out@) =~= going(all.take(0), r@.would_delete));
    while i < r.items.len()
        invariant
            i <= r.items@.len(),
            all == crate::clean::item_views(r.items@),
            crate::clean::item_views(out@) == going(all.take(i as int), r@.would_delete),
        decreases r.items@.len() - i,
    {
        assert(all.take(i + 1).drop_last() =~= all.take(i as int));
        assert(all.take(i + 1).last() == r.items@[i as int]@);
        if contains_path(&r.would_delete, r.items[i].rel_path.as_str()) {
            let ghost before = crate::clean::item_views(out@);
            out.push(copy_item(&r.items[i]));
            assert(crate::clean::item_views(out@) =~= before.push(r.items@[i as int]@));
        }
        i = i + 1;
    }
    assert(all.take(i as int) =~= all);
    out
}

/// What is executed for a project once the answers are in.
pub open spec fn approvals_of(r: crate::interactive::Outcome, dry_run: bool) -> Option<
    Seq<Seq<char>>,
> {
    if r.project_approved && !dry_run {
        Some(agreed_surfaced(r.items, r.would_delete))
    } else {
        None
    }
}

/// What is executed for a project once the answers are in: the approvals to
/// hand to [`crate::clean::clean`]; `None` where nothing is executed.
pub fn execution_of(r: &ProjectResult, dry_run: bool) -> (out: Option<Vec<String>>)
    ensures
        crate::clean::opt_texts(out) == approvals_of(r@, dry_run),
{
    if enters_cleaning_execution_phase(r.project_approved, dry_run) {
        Some(approved_paths(r))
    } else {
        None
    }
}

/// What a run without questions executes for a project: the approvals to hand
/// to [`crate::clean::clean`]; `None` where nothing is executed.
pub fn document_execution(s: &Subject, run: CleanRun) -> (out: Option<Vec<String>>)
    ensures
        crate::clean::opt_texts(out) == match s@.inspection {
            Some((items, _)) => if actionable(s@) && run.force && !run.dry_run {
                Some(surfaced_paths(items, true))
            } else {
                None
            },
            None => None,
        },
{
    if s.status == Status::Cleanable && enters_cleaning_execution_phase(run.force, run.dry_run) {
        if let Some(found) = &s.inspection {
            return Some(approved_without_asking(found.items.as_slice(), true));
        }
    }
    None
}

/// How what a run frees in a project is found out.
pub enum Reclaim {
    /// It is known, in words, or not shown.
    Known(Option<String>),
    /// These items have to be measured, before they are removed.
    Measure(Vec<CleanItem>),
}

/// How what a run frees in a project is found out. `size` is what the
/// inspection measured, in words: it counts every item that could go, so it
/// holds only where none was declined. A plain report shows no size.
pub fn reclaim_of(r: &ProjectResult, size: Option<String>, t: &Terminal) -> (out: Reclaim)
    ensures
        if !crate::output::stdout_is_rich(*t) {
            out == Reclaim::Known(None)
        } else if declines_some(r@) {
            out is Measure && crate::clean::item_views(out->Measure_0@) == going(
                r@.items,
                r@.would_delete,
            )
        } else {
            out == Reclaim::Known(size)
        },
{
    if !stdout_terminal_ui_enabled(t) {
        Reclaim::Known(None)
    } else if some_declined(r) {
        Reclaim::Measure(deleted_items(r))
    } else {
        Reclaim::Known(size)
    }
}

/// What is said of a project that was cleaned. `reclaimed` is what the run
/// freed, in words.
pub fn success_report(r: &ProjectResult, reclaimed: Option<&str>, t: &Terminal, w: usize) -> (out:
    Vec<String>)
    ensures
        crate::text::texts(out@) == if crate::output::stdout_is_rich(*t) {
            crate::output::success_lines(
                r.path@,
                r.would_delete@.len(),
                crate::text::str_text(reclaimed),
                w as nat,
                crate::output::stdout_is_colored(*t),
            )
        } else {
            seq![
                "clean "@ + r.path@ + ": deleted "@ + crate::text::decimal(r.would_delete@.len())
                    + " item(s)"@,
            ]
        },
{
    if stdout_terminal_ui_enabled(t) {
        return format_clean_success(
            r.path.as_str(),
            r.would_delete.len(),
            reclaimed,
            w,
            stdout_color_enabled(t),
        );
    }
    let mut out: Vec<String> = Vec::new();
    let n = decimal_text(r.would_delete.len() as u64);
    let mut line = cat3("clean ", r.path.as_str(), ": deleted ");
    line.append(n.as_str());
    line.append(" item(s)");
    let ghost l = line@;
    push_line(&mut out, line);
    assert(crate::text::texts(out@) =~= seq![l]);
    out
}

/// What is said of a project whose cleaning failed.
pub fn failure_report(path: &str, error: &str) -> (out: String)
    ensures
        out@ == "clean "@ + path@ + ": failed: "@ + error@,
{
    let mut out = cat3("clean ", path, ": failed: ");
    out.append(error);
    out
}

/// What becomes of an item, in documents.
pub open spec fn document_fate(
    item: crate::clean::Item,
    would_delete: Seq<Seq<char>>,
    will_execute: bool,
    interactive: bool,
    dry_run: bool,
    force: bool,
) -> Seq<char> {
    if crate::paths::holds_path(would_delete, item.rel_path) {
        if will_execute {
            "deleted"@
        } else {
            "would-delete"@
        }
    } else if item.classification == Classification::Surfaced && (interactive || (dry_run
        && !force)) {
        "would-prompt"@
    } else {
        "kept"@
    }
}

/// What becomes of an item, in documents. Where a run would ask, or a dry run
/// stands for one that would, that is what is said.
pub fn clean_item_fate(
    item: &CleanItem,
    would_delete: &Vec<String>,
    will_execute: bool,
    interactive: bool,
    dry_run: bool,
    force: bool,
) -> (s: &'static str)
    ensures
        s@ == document_fate(
            item@,
            crate::text::texts(would_delete@),
            will_execute,
            interactive,
            dry_run,
            force,
        ),
{
    if contains_path(would_delete, item.rel_path.as_str()) {
        if will_execute {
            return "deleted";
        }
        return "would-delete";
    }
    if dry_run && !force && item.classification == Classification::Surfaced {
        return "would-prompt";
    }
    if interactive && item.classification == Classification::Surfaced {
        return "would-prompt";
    }
    "kept"
}

/// The paths that a run without questions removes, or would remove: safe items,
/// and with force the surfaced ones too.
pub open spec fn unasked_paths(items: Seq<crate::clean::Item>, force: bool) -> Seq<Seq<char>>
    decreases items.len(),
{
    if items.len() == 0 {
        Seq::empty()
    } else {
        let before = unasked_paths(items.drop_last(), force);
        if items.last().classification == Classification::Safe || (force
            && items.last().classification == Classification::Surfaced) {
            before.push(items.last().rel_path)
        } else {
            before
        }
    }
}

/// The paths that a run without questions removes, or would remove.
pub fn paths_without_asking(items: &[CleanItem], force: bool) -> (out: Vec<String>)
    ensures
        crate::text::texts(out@) == unasked_paths(crate::clean::item_views(items@), force),
{
    let ghost all = crate::clean::item_views(items@);
    let mut out: Vec<String> = Vec::new();
    let mut i: usize = 0;
    assert(crate::text::texts(out@) =~= unasked_paths(all.take(0), force));
    while i < items.len()
        invariant
            i <= items@.len(),
            all == crate::clean::item_views(items@),
            crate::text::texts(out@) == unasked_paths(all.take(i as int), force),
        decreases items@.len() - i,
    {
        assert(all.take(i + 1).drop_last() =~= all.take(i as int));
        assert(all.take(i + 1).last() == items@[i as int]@);
        if items[i].classification == Classification::Safe || (force && items[i].classification
            == Classification::Surfaced) {
            push_line(&mut out, items[i].rel_path.clone());
        }
        i = i + 1;
    }
    assert(all.take(i as int) =~= all);
    out
}

/// The paths of the surfaced items, if they are all approved.
pub open spec fn surfaced_paths(items: Seq<crate::clean::Item>, force: bool) -> Seq<Seq<char>>
    decreases items.len(),
{
    if items.len() == 0 {
        Seq::empty()
    } else {
        let before = surfaced_paths(items.drop_last(), force);
        if force && items.last().classification == Classification::Surfaced {
            before.push(items.last().rel_path)
        } else {
            before
        }
    }
}

/// The surfaced paths that a run without questions approves: all of them with
/// force, none without.
pub fn approved_without_asking(items: &[CleanItem], force: bool) -> (out: Vec<String>)
    ensures
        crate::text::texts(out@) == surfaced_paths(crate::clean::item_views(items@), force),
{
    let ghost all = crate::clean::item_views(items@);
    let mut out: Vec<String> = Vec::new();
    let mut i: usize = 0;
    assert(crate::text::texts(out@) =~= surfaced_paths(all.take(0), force));
    while i < items.len()
        invariant
            i <= items@.len(),
            all == crate::clean::item_views(items@),
            crate::text::texts(out@) == surfaced_paths(all.take(i as int), force),
        decreases items@.len() - i,
    {
        assert(all.take(i + 1).drop_last() =~= all.take(i as int));
        assert(all.take(i + 1).last() == items@[i as int]@);
        if force && items[i].classification == Classification::Surfaced {
            push_line(&mut out, items[i].rel_path.clone());
        }
        i = i + 1;
    }
    assert(all.take(i as int) =~= all);
    out
}

/// Whether a document row says what becomes of an item.
pub open spec fn item_row_says(
    row: CleanItemRow,
    item: crate::clean::Item,
    would_delete: Seq<Seq<char>>,
    force: bool,
    dry_run: bool,
) -> bool {
    &&& row.path@ == item.rel_path
    &&& row.is_dir == item.is_dir
    &&& row.classification@ == crate::json::classification_name(item.classification)
    &&& row.fate@ == document_fate(
        item,
        would_delete,
        force && !dry_run,
        !force && !dry_run,
        dry_run,
        force,
    )
}

/// Whether document rows say what becomes of items, in their order.
pub open spec fn item_rows_say(
    rows: Seq<CleanItemRow>,
    items: Seq<crate::clean::Item>,
    would_delete: Seq<Seq<char>>,
    force: bool,
    dry_run: bool,
) -> bool {
    rows.len() == items.len() && forall|i: int|
        0 <= i < items.len() ==> item_row_says(
            #[trigger] rows[i],
            items[i],
            would_delete,
            force,
            dry_run,
        )
}

/// Whether a document row says what becomes of a project. One that cannot be
/// cleaned is in the document too, with nothing approved and no items.
pub open spec fn project_row_says(row: CleanProjectRow, p: Project, force: bool, dry_run: bool) ->
    bool {
    &&& row.path@ == p.path
    &&& row.status@ == crate::classify::label_of(p.status)
    &&& match p.inspection {
        Some((items, bytes)) => if p.status == Status::Cleanable {
            let doomed = unasked_paths(items, force);
            &&& row.approved == (force && !dry_run)
            &&& row.deleted_count == if force && !dry_run {
                doomed.len()
            } else {
                0
            }
            &&& row.reclaimable_bytes == bytes
            &&& item_rows_say(row.items@, items, doomed, force, dry_run)
        } else {
            empty_row(row)
        },
        None => empty_row(row),
    }
}

/// Whether a document row says that nothing becomes of a project.
pub open spec fn empty_row(row: CleanProjectRow) -> bool {
    &&& !row.approved
    &&& row.deleted_count == 0
    &&& row.reclaimable_bytes is None
    &&& row.items@.len() == 0
}

/// Whether any project can be cleaned.
pub open spec fn any_actionable(ps: Seq<Project>) -> bool {
    exists|i: int| 0 <= i < ps.len() && actionable(#[trigger] ps[i])
}

fn item_rows(items: &[CleanItem], would_delete: &Vec<String>, force: bool, dry_run: bool) -> (out:
    Vec<CleanItemRow>)
    ensures
        item_rows_say(
            out@,
            crate::clean::item_views(items@),
            crate::text::texts(would_delete@),
            force,
            dry_run,
        ),
{
    let ghost all = crate::clean::item_views(items@);
    let mut out: Vec<CleanItemRow> = Vec::new();
    let mut i: usize = 0;
    while i < items.len()
        invariant
            i <= items@.len(),
            all == crate::clean::item_views(items@),
            out@.len() == i,
            forall|k: int|
                0 <= k < i ==> item_row_says(
                    #[trigger] out@[k],
                    all[k],
                    crate::text::texts(would_delete@),
                    force,
                    dry_run,
                ),
        decreases items@.len() - i,
    {
        let item = &items[i];
        assert(all[i as int] == items@[i as int]@);
        out.push(
            CleanItemRow {
                path: item.rel_path.clone(),
                is_dir: item.is_dir,
                classification: crate::json::classification_label(item.classification),
                fate: clean_item_fate(
                    item,
                    would_delete,
                    force && !dry_run,
                    !force && !dry_run,
                    dry_run,
                    force,
                ),
            },
        );
        i = i + 1;
    }
    out
}

fn project_row(s: &Subject, force: bool, dry_run: bool) -> (row: CleanProjectRow)
    ensures
        project_row_says(row, s@, force, dry_run),
{
    if s.status == Status::Cleanable {
        if let Some(found) = &s.inspection {
            let doomed = paths_without_asking(found.items.as_slice(), force);
            assert(crate::text::texts(doomed@).len() == doomed@.len());
            let items = item_rows(found.items.as_slice(), &doomed, force, dry_run);
            let will_execute = force && !dry_run;
            return CleanProjectRow {
                path: s.path.clone(),
                status: crate::json::status_label(s.status),
                approved: will_execute,
                deleted_count: if will_execute {
                    doomed.len()
                } else {
                    0
                },
                reclaimable_bytes: found.bytes,
                items,
            };
        }
    }
    CleanProjectRow {
        path: s.path.clone(),
        status: crate::json::status_label(s.status),
        approved: false,
        deleted_count: 0,
        reclaimable_bytes: None,
        items: Vec::new(),
    }
}

/// Whether approval is missing: the run would have to ask, and there is
/// something to ask about.
pub open spec fn lacks_approval(ps: Seq<Project>, force: bool, dry_run: bool) -> bool {
    !force && !dry_run && any_actionable(ps)
}

/// The document of `clean`, and how the run ends. It asks nothing: without
/// force or a dry run, if anything could be cleaned, the document says that
/// approval is missing, and nothing is removed.
pub fn json_clean(command: &'static str, subjects: &[Subject], run: CleanRun) -> (r: (
    Envelope<CleanResult>,
    i32,
))
    ensures
        ({
            let ps = project_views(subjects@);
            let missing = lacks_approval(ps, run.force, run.dry_run);
            &&& r.0.version == crate::json::VERSION
            &&& r.0.command == command
            &&& r.0.ok == !missing
            &&& r.0.error is None
            &&& r.0.result is Some
            &&& r.0.result->0.approval_required == missing
            &&& r.0.result->0.projects@.len() == ps.len()
            &&& forall|i: int|
                0 <= i < ps.len() ==> project_row_says(
                    #[trigger] r.0.result->0.projects@[i],
                    ps[i],
                    run.force,
                    run.dry_run,
                )
            &&& r.1 == if missing {
                EXIT_APPROVAL_REQUIRED
            } else {
                EXIT_OK
            }
        }),
{
    let ghost ps = project_views(subjects@);
    let mut projects: Vec<CleanProjectRow> = Vec::new();
    let mut any = false;
    let mut i: usize = 0;
    while i < subjects.len()
        invariant
            i <= subjects@.len(),
            ps == project_views(subjects@),
            projects@.len() == i,
            forall|k: int|
                0 <= k < i ==> project_row_says(
                    #[trigger] projects@[k],
                    ps[k],
                    run.force,
                    run.dry_run,
                ),
            any == exists|k: int| 0 <= k < i && actionable(#[trigger] ps[k]),
        decreases subjects@.len() - i,
    {
        let s = &subjects[i];
        assert(ps[i as int] == subjects@[i as int]@);
        projects.push(project_row(s, run.force, run.dry_run));
        if s.status == Status::Cleanable && s.inspection.is_some() {
            any = true;
            assert(actionable(ps[i as int]));
        }
        i = i + 1;
    }
    let approval_required = !run.force && !run.dry_run && any;
    let env = Envelope {
        version: crate::json::VERSION,
        command,
        ok: !approval_required,
        result: Some(CleanResult { approval_required, projects }),
        error: None,
    };
    let code: i32 = if approval_required {
        EXIT_APPROVAL_REQUIRED
    } else {
        EXIT_OK
    };
    (env, code)
}

/// A document that lacks approval, and one of a dry run, reports nothing as
/// approved or deleted.
pub proof fn unapproved_documents_delete_nothing(
    row: CleanProjectRow,
    p: Project,
    force: bool,
    dry_run: bool,
)
    requires
        project_row_says(row, p, force, dry_run),
        dry_run || !force,
    ensures
        !row.approved,
        row.deleted_count == 0,
        forall|i: int| 0 <= i < row.items@.len() ==> (#[trigger] row.items@[i]).fate@ != "deleted"@,
{
    reveal_strlit("deleted");
    reveal_strlit("would-delete");
    reveal_strlit("would-prompt");
    reveal_strlit("kept");
    assert("deleted"@.len() == 7);
    assert("would-delete"@.len() == 12);
    assert("would-prompt"@.len() == 12);
    assert("kept"@.len() == 4);
    match p.inspection {
        Some((items, bytes)) => {
            if p.status == Status::Cleanable {
                let doomed = unasked_paths(items, force);
                assert forall|i: int| 0 <= i < row.items@.len() implies (
                #[trigger] row.items@[i]).fate@ != "deleted"@ by {
                    assert(item_row_says(row.items@[i], items[i], doomed, force, dry_run));
                }
            }
        },
        None => {},
    }
}

/// The human account and the document agree on what a run without questions
/// removes, and on what it would remove.
pub proof fn accounts_agree(items: Seq<crate::clean::Item>, force: bool, dry_run: bool)
    requires
        force || dry_run,
    ensures
        unasked_paths(items, force) == crate::interactive::doomed_paths(
            items,
            force,
            dry_run,
            Seq::empty(),
        ),
    decreases items.len(),
{
    if items.len() > 0 {
        accounts_agree(items.drop_last(), force, dry_run);
        assert(!crate::paths::holds_path(Seq::empty(), items.last().rel_path));
    }
}

/// What is approved for removal is what the user agreed to: a surfaced path
/// among those to remove, never a protected one.
pub proof fn approved_paths_are_surfaced(
    items: Seq<crate::clean::Item>,
    would_delete: Seq<Seq<char>>,
    i: int,
)
    requires
        0 <= i < agreed_surfaced(items, would_delete).len(),
    ensures
        is_surfaced(items, agreed_surfaced(items, would_delete)[i]),
        would_delete.contains(agreed_surfaced(items, would_delete)[i]),
    decreases would_delete.len(),
{
    let front = would_delete.drop_last();
    let before = agreed_surfaced(items, front);
    if i < before.len() {
        approved_paths_are_surfaced(items, front, i);
        let k = choose|k: int| 0 <= k < front.len() && front[k] == before[i];
        assert(would_delete[k] == before[i]);
    } else {
        assert(would_delete[would_delete.len() - 1] == agreed_surfaced(items, would_delete)[i]);
    }
}

/// A project that was not approved keeps everything, and a dry run deletes
/// nothing: nothing is reported as being deleted.
pub proof fn only_approved_runs_delete(
    item: crate::clean::Item,
    would_delete: Seq<Seq<char>>,
    project_approved: bool,
    force: bool,
    dry_run: bool,
)
    ensures
        fate(item, would_delete, project_approved, force, dry_run) == "deleting"@ <==> (
        project_approved && !dry_run && crate::paths::holds_path(would_delete, item.rel_path)),
        !project_approved && !dry_run ==> fate(
            item,
            would_delete,
            project_approved,
            force,
            dry_run,
        ) == "kept"@,
{
    reveal_strlit("kept");
    reveal_strlit("deleting");
    reveal_strlit("would delete");
    reveal_strlit("would prompt");
    assert("kept"@.len() == 4);
    assert("deleting"@.len() == 8);
    assert("would delete"@.len() == 12);
    assert("would prompt"@.len() == 12);
}

/// Whether an item that is protected shares its path with protected items only.
pub open spec fn protection_is_settled(items: Seq<crate::clean::Item>, i: int) -> bool {
    items[i].classification == Classification::Protected ==> forall|j: int|
        0 <= j < items.len() && crate::paths::same_path(
            (#[trigger] items[j]).rel_path,
            items[i].rel_path,
        ) ==> items[j].classification == Classification::Protected
}

proof fn lemma_doomed(
    items: Seq<crate::clean::Item>,
    force: bool,
    agreed: Seq<Seq<char>>,
    p: Seq<char>,
)
    ensures
        crate::paths::holds_path(
            crate::interactive::doomed_paths(items, force, false, agreed),
            p,
        ) <==> exists|j: int|
            0 <= j < items.len() && crate::interactive::would_go(
                #[trigger] items[j],
                force,
                false,
                agreed,
            ) && crate::paths::same_path(items[j].rel_path, p),
    decreases items.len(),
{
    let all = crate::interactive::doomed_paths(items, force, false, agreed);
    if items.len() > 0 {
        let front = items.drop_last();
        let before = crate::interactive::doomed_paths(front, force, false, agreed);
        lemma_doomed(front, force, agreed, p);
        if crate::paths::holds_path(before, p) {
            let j = choose|j: int|
                0 <= j < front.len() && crate::interactive::would_go(
                    #[trigger] front[j],
                    force,
                    false,
                    agreed,
                ) && crate::paths::same_path(front[j].rel_path, p);
            assert(items[j] == front[j]);
            let k = choose|k: int|
                0 <= k < before.len() && crate::paths::same_path(#[trigger] before[k], p);
            assert(all[k] == before[k]);
        }
        if crate::interactive::would_go(items.last(), force, false, agreed)
            && crate::paths::same_path(items.last().rel_path, p) {
            assert(items[items.len() - 1] == items.last());
            assert(all[all.len() - 1] == items.last().rel_path);
        }
        assert forall|k: int|
            0 <= k < all.len() && crate::paths::same_path(#[trigger] all[k], p) implies exists|
            j: int,
        |
            0 <= j < items.len() && crate::interactive::would_go(
                #[trigger] items[j],
                force,
                false,
                agreed,
            ) && crate::paths::same_path(items[j].rel_path, p) by {
            if k < before.len() {
                assert(before[k] == all[k]);
            } else {
                assert(items[items.len() - 1] == items.last());
            }
        }
        assert forall|j: int|
            0 <= j < items.len() && crate::interactive::would_go(
                #[trigger] items[j],
                force,
                false,
                agreed,
            ) && crate::paths::same_path(items[j].rel_path, p) implies crate::paths::holds_path(
            all,
            p,
        ) by {
            if j < front.len() {
                assert(front[j] == items[j]);
            }
        }
    }
}

proof fn lemma_agreed(
    items: Seq<crate::clean::Item>,
    would_delete: Seq<Seq<char>>,
    p: Seq<char>,
)
    ensures
        crate::paths::holds_path(agreed_surfaced(items, would_delete), p) <==> exists|k: int|
            0 <= k < would_delete.len() && crate::paths::same_path(#[trigger] would_delete[k], p)
                && is_surfaced(items, would_delete[k]),
    decreases would_delete.len(),
{
    let all = agreed_surfaced(items, would_delete);
    if would_delete.len() > 0 {
        let front = would_delete.drop_last();
        let before = agreed_surfaced(items, front);
        lemma_agreed(items, front, p);
        if crate::paths::holds_path(before, p) {
            let k = choose|k: int|
                0 <= k < front.len() && crate::paths::same_path(#[trigger] front[k], p)
                    && is_surfaced(items, front[k]);
            assert(would_delete[k] == front[k]);
            let m = choose|m: int|
                0 <= m < before.len() && crate::paths::same_path(#[trigger] before[m], p);
            assert(all[m] == before[m]);
        }
        if is_surfaced(items, would_delete.last()) && crate::paths::same_path(
            would_delete.last(),
            p,
        ) {
            assert(would_delete[would_delete.len() - 1] == would_delete.last());
            assert(all[all.len() - 1] == would_delete.last());
        }
        assert forall|m: int|
            0 <= m < all.len() && crate::paths::same_path(#[trigger] all[m], p) implies exists|
            k: int,
        |
            0 <= k < would_delete.len() && crate::paths::same_path(#[trigger] would_delete[k], p)
                && is_surfaced(items, would_delete[k]) by {
            if m < before.len() {
                assert(before[m] == all[m]);
            } else {
                assert(would_delete[would_delete.len() - 1] == would_delete.last());
            }
        }
        assert forall|k: int|
            0 <= k < would_delete.len() && crate::paths::same_path(#[trigger] would_delete[k], p)
                && is_surfaced(items, would_delete[k]) implies crate::paths::holds_path(
            all,
            p,
        ) by {
            if k < front.len() {
                assert(front[k] == would_delete[k]);
            }
        }
    }
}

/// What a run promises is what it does. The items among the paths to remove
/// are exactly those that `git clean`, with the approvals that the run hands
/// over, is not told to leave alone; and whatever is reported as kept is
/// excluded by name.
pub proof fn what_is_promised_is_what_is_done(
    inputs: InteractiveFlowInputs,
    answers: Seq<Seq<char>>,
    p: int,
    i: int,
)
    requires
        !inputs.dry_run,
        0 <= p < inputs.per_project_items@.len(),
        0 <= i < crate::interactive::outcome_at(inputs, answers, p).items.len(),
        protection_is_settled(crate::interactive::outcome_at(inputs, answers, p).items, i),
    ensures
        ({
            let r = crate::interactive::outcome_at(inputs, answers, p);
            let item = r.items[i];
            let approved = agreed_surfaced(r.items, r.would_delete);
            &&& crate::paths::holds_path(r.would_delete, item.rel_path)
                <==> !crate::clean::must_stay(item, approved, inputs.force)
            &&& fate(item, r.would_delete, true, inputs.force, false) == "kept"@
                && item.rel_path.len() > 0 ==> crate::clean::exclusions_for(
                r.items,
                approved,
                inputs.force,
            ).contains(crate::clean::exclusion(item.rel_path))
        }),
{
    let r = crate::interactive::outcome_at(inputs, answers, p);
    let item = r.items[i];
    let agreed = crate::interactive::agreed_in(inputs, answers, p);
    let approved = agreed_surfaced(r.items, r.would_delete);
    lemma_doomed(r.items, inputs.force, agreed, item.rel_path);
    lemma_agreed(r.items, r.would_delete, item.rel_path);
    match item.classification {
        Classification::Protected => {},
        Classification::Safe => {
            assert(crate::interactive::would_go(r.items[i], inputs.force, false, agreed));
        },
        Classification::Surfaced => {
            if inputs.force {
                assert(crate::interactive::would_go(r.items[i], inputs.force, false, agreed));
            }
            if crate::paths::holds_path(r.would_delete, item.rel_path) {
                let k = choose|k: int|
                    0 <= k < r.would_delete.len() && crate::paths::same_path(
                        #[trigger] r.would_delete[k],
                        item.rel_path,
                    );
                assert(crate::paths::same_path(r.items[i].rel_path, r.would_delete[k]));
                assert(is_surfaced(r.items, r.would_delete[k]));
            }
        },
    }
    only_approved_runs_delete(item, r.would_delete, true, inputs.force, false);
    reveal_strlit("kept");
    reveal_strlit("deleting");
    assert("kept"@.len() != "deleting"@.len());
    if crate::clean::must_stay(item, approved, inputs.force) && item.rel_path.len() > 0 {
        crate::clean::what_must_stay_is_excluded(r.items, approved, inputs.force, i);
    }
}

/// A document that reports an item as deleted tells what was done: under force
/// those are exactly the items that `git clean`, with the approvals that the
/// run hands over, is not told to leave alone.
pub proof fn documents_tell_what_is_done(items: Seq<crate::clean::Item>, i: int)
    requires
        0 <= i < items.len(),
        protection_is_settled(items, i),
    ensures
        document_fate(items[i], unasked_paths(items, true), true, false, false, true)
            == "deleted"@ <==> !crate::clean::must_stay(
            items[i],
            surfaced_paths(items, true),
            true,
        ),
{
    reveal_strlit("deleted");
    reveal_strlit("kept");
    assert("deleted"@.len() != "kept"@.len());
    accounts_agree(items, true, false);
    lemma_doomed(items, true, Seq::empty(), items[i].rel_path);
    if items[i].classification != Classification::Protected {
        assert(crate::interactive::would_go(items[i], true, false, Seq::empty()));
    }
}

/// Whether a path with these components is among some paths.
pub open spec fn is_among(paths: Seq<Seq<char>>, path: Seq<char>) -> bool {
    exists|j: int|
        0 <= j < paths.len() && crate::paths::parts(#[trigger] paths[j]) == crate::paths::parts(path)
}

proof fn lemma_is_among(paths: Seq<Seq<char>>, path: Seq<char>)
    ensures
        crate::paths::holds_path(paths, path) == is_among(paths, path),
{
    if crate::paths::holds_path(paths, path) {
        let j = choose|j: int|
            0 <= j < paths.len() && crate::paths::same_path(#[trigger] paths[j], path);
        assert(crate::paths::parts(paths[j]) == crate::paths::parts(path));
    }
    if is_among(paths, path) {
        let j = choose|j: int|
            0 <= j < paths.len() && crate::paths::parts(#[trigger] paths[j]) == crate::paths::parts(
                path,
            );
        assert(crate::paths::same_path(paths[j], path));
    }
}

/// An item that is not to go is reported as kept, except that a plain dry run says of a
/// surfaced one that it would ask. One that is to go is being deleted where the project
/// was approved and the run is no dry run, would be deleted in a dry run, and is kept
/// where the project was not approved.
pub proof fn fates_follow_what_is_done(
    item: crate::clean::Item,
    would_delete: Seq<Seq<char>>,
    project_approved: bool,
    force: bool,
    dry_run: bool,
)
    ensures
        ({
            let f = fate(item, would_delete, project_approved, force, dry_run);
            let goes = is_among(would_delete, item.rel_path);
            &&& !dry_run && goes && project_approved ==> f == "deleting"@
            &&& !dry_run && !(goes && project_approved) ==> f == "kept"@
            &&& dry_run && goes ==> f == "would delete"@
            &&& dry_run && !goes && (force || item.classification != Classification::Surfaced)
                ==> f == "kept"@
            &&& dry_run && !goes && !force && item.classification == Classification::Surfaced
                ==> f == "would prompt"@
        }),
{
    lemma_is_among(would_delete, item.rel_path);
}

/// In documents, an item that goes is deleted where the run executes and would be deleted
/// where it does not; of the others a surfaced one would be asked about where the run
/// asks or is a plain dry run, and all the rest are kept.
pub proof fn document_fates_follow_what_is_done(
    item: crate::clean::Item,
    would_delete: Seq<Seq<char>>,
    will_execute: bool,
    interactive: bool,
    dry_run: bool,
    force: bool,
)
    ensures
        ({
            let f = document_fate(item, would_delete, will_execute, interactive, dry_run, force);
            let goes = is_among(would_delete, item.rel_path);
            let asks = interactive || (dry_run && !force);
            &&& goes && will_execute ==> f == "deleted"@
            &&& goes && !will_execute ==> f == "would-delete"@
            &&& !goes && asks && item.classification == Classification::Surfaced ==> f
                == "would-prompt"@
            &&& !goes && !(asks && item.classification == Classification::Surfaced) ==> f
                == "kept"@
        }),
{
    lemma_is_among(would_delete, item.rel_path);
}

/// What a run without questions removes are the safe items and, with force, the surfaced
/// ones, all of them, in order; what it approves are the surfaced ones, with force alone.
pub proof fn runs_without_questions_remove_by_class(
    items: Seq<crate::clean::Item>,
    force: bool,
)
    ensures
        unasked_paths(items, force) == items.filter(
            |i: crate::clean::Item|
                i.classification == Classification::Safe || (force && i.classification
                    == Classification::Surfaced),
        ).map_values(|i: crate::clean::Item| i.rel_path),
        surfaced_paths(items, force) == items.filter(
            |i: crate::clean::Item| force && i.classification == Classification::Surfaced,
        ).map_values(|i: crate::clean::Item| i.rel_path),
        safe_ones(items) == items.filter(
            |i: crate::clean::Item| i.classification == Classification::Safe,
        ),
    decreases items.len(),
{
    reveal(Seq::filter);
    let goes = |i: crate::clean::Item|
        i.classification == Classification::Safe || (force && i.classification
            == Classification::Surfaced);
    let agreed = |i: crate::clean::Item| force && i.classification == Classification::Surfaced;
    let path = |i: crate::clean::Item| i.rel_path;
    if items.len() > 0 {
        let front = items.drop_last();
        runs_without_questions_remove_by_class(front, force);
        let a = front.filter(goes);
        let b = front.filter(agreed);
        assert(a.push(items.last()).map_values(path) =~= a.map_values(path).push(
            items.last().rel_path,
        ));
        assert(b.push(items.last()).map_values(path) =~= b.map_values(path).push(
            items.last().rel_path,
        ));
    } else {
        assert(items.filter(goes).map_values(path) =~= Seq::<Seq<char>>::empty());
        assert(items.filter(agreed).map_values(path) =~= Seq::<Seq<char>>::empty());
    }
}

/// What is approved are those of the paths to remove at which a surfaced item lies, all of
/// them, in order; what is measured again are the items at a path to remove, all of them,
/// in order.
pub proof fn approvals_are_the_surfaced_paths_to_remove(
    items: Seq<crate::clean::Item>,
    would_delete: Seq<Seq<char>>,
)
    ensures
        agreed_surfaced(items, would_delete) == would_delete.filter(
            |p: Seq<char>|
                exists|i: int|
                    0 <= i < items.len() && (#[trigger] items[i]).classification
                        == Classification::Surfaced && crate::paths::parts(items[i].rel_path)
                        == crate::paths::parts(p),
        ),
        going(items, would_delete) == items.filter(
            |i: crate::clean::Item| is_among(would_delete, i.rel_path),
        ),
{
    lemma_approvals(items, would_delete);
    lemma_going(items, would_delete);
}

proof fn lemma_approvals(items: Seq<crate::clean::Item>, would_delete: Seq<Seq<char>>)
    ensures
        agreed_surfaced(items, would_delete) == would_delete.filter(
            |p: Seq<char>|
                exists|i: int|
                    0 <= i < items.len() && (#[trigger] items[i]).classification
                        == Classification::Surfaced && crate::paths::parts(items[i].rel_path)
                        == crate::paths::parts(p),
        ),
    decreases would_delete.len(),
{
    reveal(Seq::filter);
    if would_delete.len() > 0 {
        lemma_approvals(items, would_delete.drop_last());
        let p = would_delete.last();
        if is_surfaced(items, p) {
            let i = choose|i: int|
                0 <= i < items.len() && crate::paths::same_path((#[trigger] items[i]).rel_path, p)
                    && items[i].classification == Classification::Surfaced;
            assert(crate::paths::parts(items[i].rel_path) == crate::paths::parts(p));
        }
        if exists|i: int|
            0 <= i < items.len() && (#[trigger] items[i]).classification
                == Classification::Surfaced && crate::paths::parts(items[i].rel_path)
                == crate::paths::parts(p) {
            let i = choose|i: int|
                0 <= i < items.len() && (#[trigger] items[i]).classification
                    == Classification::Surfaced && crate::paths::parts(items[i].rel_path)
                    == crate::paths::parts(p);
            assert(crate::paths::same_path(items[i].rel_path, p));
        }
    }
}

proof fn lemma_going(items: Seq<crate::clean::Item>, would_delete: Seq<Seq<char>>)
    ensures
        going(items, would_delete) == items.filter(
            |i: crate::clean::Item| is_among(would_delete, i.rel_path),
        ),
    decreases items.len(),
{
    reveal(Seq::filter);
    if items.len() > 0 {
        lemma_going(items.drop_last(), would_delete);
        lemma_is_among(would_delete, items.last().rel_path);
    }
}

/// What is executed after a dialogue: nothing in a dry run or for a project that was not
/// approved, else the surfaced paths to remove.
pub proof fn only_approved_projects_are_executed(
    r: crate::interactive::Outcome,
    dry_run: bool,
)
    ensures
        approvals_of(r, dry_run) is Some <==> r.project_approved && !dry_run,
        approvals_of(r, dry_run) is Some ==> approvals_of(r, dry_run)->0 == agreed_surfaced(
            r.items,
            r.would_delete,
        ),
{
}

/// The dialogue is about the cleanable projects whose inspection did not fail, all of
/// them, in order, each with all its items; a run starts one exactly when there are any.
pub proof fn the_dialogue_is_about_every_cleanable_project(ps: Seq<Project>)
    ensures
        to_clean(ps) == ps.filter(
            |p: Project| p.status == Status::Cleanable && p.inspection is Some,
        ).map_values(|p: Project| (p.path, (p.inspection->0).0)),
        to_clean(ps).len() > 0 <==> exists|i: int|
            0 <= i < ps.len() && (#[trigger] ps[i]).status == Status::Cleanable && ps[i].inspection
                is Some,
    decreases ps.len(),
{
    reveal(Seq::filter);
    let keep = |p: Project| p.status == Status::Cleanable && p.inspection is Some;
    let pair = |p: Project| (p.path, (p.inspection->0).0);
    if ps.len() > 0 {
        let front = ps.drop_last();
        the_dialogue_is_about_every_cleanable_project(front);
        let before = front.filter(keep);
        assert(ps[ps.len() - 1] == ps.last());
        if keep(ps.last()) {
            assert(before.push(ps.last()).map_values(pair) =~= before.map_values(pair).push(
                pair(ps.last()),
            ));
        } else if to_clean(front).len() > 0 {
            let i = choose|i: int|
                0 <= i < front.len() && (#[trigger] front[i]).status == Status::Cleanable
                    && front[i].inspection is Some;
            assert(ps[i] == front[i]);
        } else if exists|i: int|
            0 <= i < ps.len() && (#[trigger] ps[i]).status == Status::Cleanable && ps[i].inspection
                is Some {
            let i = choose|i: int|
                0 <= i < ps.len() && (#[trigger] ps[i]).status == Status::Cleanable
                    && ps[i].inspection is Some;
            assert(front[i] == ps[i]);
        }
    } else {
        assert(ps.filter(keep).map_values(pair) =~= Seq::<
            (Seq<char>, Seq<crate::clean::Item>),
        >::empty());
    }
}

/// The plain report has a row for every project, in order, but for the cleanable ones
/// whose inspection failed.
pub proof fn the_report_has_a_row_for_every_project(ps: Seq<Project>, colors: bool)
    ensures
        report_rows(ps, colors) == ps.filter(
            |p: Project| !(p.status == Status::Cleanable && p.inspection is None),
        ).map_values(|p: Project| crate::survey::plain_row(surveyed(p), colors)),
    decreases ps.len(),
{
    reveal(Seq::filter);
    let keep = |p: Project| !(p.status == Status::Cleanable && p.inspection is None);
    let row = |p: Project| crate::survey::plain_row(surveyed(p), colors);
    if ps.len() > 0 {
        let front = ps.drop_last();
        the_report_has_a_row_for_every_project(front, colors);
        let before = front.filter(keep);
        if keep(ps.last()) {
            assert(before.push(ps.last()).map_values(row) =~= before.map_values(row).push(
                row(ps.last()),
            ));
        }
    } else {
        assert(ps.filter(keep).map_values(row) =~= Seq::<Seq<char>>::empty());
    }
}

/// What is freed is measured again exactly when some item that is not protected is not
/// among the paths to remove.
pub proof fn sizes_are_measured_again_when_something_stays(r: crate::interactive::Outcome)
    ensures
        declines_some(r) <==> exists|i: int|
            0 <= i < r.items.len() && (#[trigger] r.items[i]).classification
                != Classification::Protected && !is_among(r.would_delete, r.items[i].rel_path),
{
    assert forall|i: int| 0 <= i < r.items.len() implies crate::paths::holds_path(
        r.would_delete,
        (#[trigger] r.items[i]).rel_path,
    ) == is_among(r.would_delete, r.items[i].rel_path) by {
        lemma_is_among(r.would_delete, r.items[i].rel_path);
    }
}

/// A document without questions lacks approval exactly when the run is neither forced nor
/// a dry run and some cleanable project was inspected.
pub proof fn approval_is_missing_where_it_is_needed(
    ps: Seq<Project>,
    force: bool,
    dry_run: bool,
)
    ensures
        lacks_approval(ps, force, dry_run) <==> !force && !dry_run && exists|i: int|
            0 <= i < ps.len() && (#[trigger] ps[i]).status == Status::Cleanable && ps[i].inspection
                is Some,
{
    if any_actionable(ps) {
        let i = choose|i: int| 0 <= i < ps.len() && actionable(#[trigger] ps[i]);
        assert(ps[i].status == Status::Cleanable && ps[i].inspection is Some);
    }
    if exists|i: int|
        0 <= i < ps.len() && (#[trigger] ps[i]).status == Status::Cleanable && ps[i].inspection
            is Some {
        let i = choose|i: int|
            0 <= i < ps.len() && (#[trigger] ps[i]).status == Status::Cleanable && ps[i].inspection
                is Some;
        assert(actionable(ps[i]));
    }
}

/// A document has a row for every item of a cleanable project, in order, with its path and
/// kind; what it counts as deleted are the safe items and, with force, the surfaced ones,
/// in a run that executes; any other project has no items and no size.
pub proof fn documents_list_every_item(
    row: CleanProjectRow,
    p: Project,
    force: bool,
    dry_run: bool,
    i: int,
)
    requires
        project_row_says(row, p, force, dry_run),
    ensures
        row.path@ == p.path,
        p.status == Status::Cleanable && p.inspection is Some ==> {
            let items = (p.inspection->0).0;
            &&& row.items@.len() == items.len()
            &&& 0 <= i < items.len() ==> row.items@[i].path@ == items[i].rel_path
                && row.items@[i].is_dir == items[i].is_dir
            &&& row.approved == (force && !dry_run)
            &&& row.reclaimable_bytes == (p.inspection->0).1
            &&& force && !dry_run ==> row.deleted_count == items.filter(
                |i: crate::clean::Item| i.classification != Classification::Protected,
            ).len()
            &&& !(force && !dry_run) ==> row.deleted_count == 0
        },
        !(p.status == Status::Cleanable && p.inspection is Some) ==> row.items@.len() == 0
            && !row.approved && row.deleted_count == 0 && row.reclaimable_bytes is None,
{
    if p.status == Status::Cleanable && p.inspection is Some {
        let items = (p.inspection->0).0;
        let doomed = unasked_paths(items, force);
        if 0 <= i < items.len() {
            assert(item_row_says(row.items@[i], items[i], doomed, force, dry_run));
        }
        if force {
            lemma_forced_count(items);
        }
    }
}

proof fn lemma_forced_count(items: Seq<crate::clean::Item>)
    ensures
        unasked_paths(items, true).len() == items.filter(
            |i: crate::clean::Item| i.classification != Classification::Protected,
        ).len(),
    decreases items.len(),
{
    reveal(Seq::filter);
    if items.len() > 0 {
        lemma_forced_count(items.drop_last());
    }
}

/// The dialogue gets every project with its status, in order, and the items of those that
/// can be cleaned, with the flags of the run.
pub proof fn the_dialogue_gets_every_project(
    inputs: InteractiveFlowInputs,
    ps: Seq<Project>,
    force: bool,
    dry_run: bool,
    i: int,
)
    requires
        is_dialogue(inputs, ps, force, dry_run),
        0 <= i < ps.len(),
    ensures
        inputs.force == force,
        inputs.dry_run == dry_run,
        inputs.all_projects@.len() == ps.len(),
        inputs.all_projects@[i].0@ == ps[i].path,
        inputs.all_projects@[i].1 == ps[i].status,
        inputs.per_project_items@.len() == ps.filter(
            |p: Project| p.status == Status::Cleanable && p.inspection is Some,
        ).len(),
{
    the_dialogue_is_about_every_cleanable_project(ps);
    let pairs = status_pairs(inputs.all_projects@);
    assert(pairs.len() == inputs.all_projects@.len());
    assert(pairs[i] == (inputs.all_projects@[i].0@, inputs.all_projects@[i].1));
    assert(item_pairs(inputs.per_project_items@).len() == inputs.per_project_items@.len());
}

/// A run with nothing found ends at once; one with a project that can be cleaned asks; a
/// rich run on one named project that cannot be ends with its panel; any other ends after
/// its report.
pub proof fn runs_go_on_as_their_projects_allow(
    start: CleaningStart,
    found: nat,
    ps: Seq<Project>,
    branches: Seq<Seq<char>>,
    changed: Seq<Seq<char>>,
    run: CleanRun,
    t: Terminal,
    w: nat,
    home: Option<Seq<char>>,
)
    requires
        starts_as(start, found, ps, branches, changed, run, t, w, home),
    ensures
        ({
            let any = exists|i: int|
                0 <= i < ps.len() && (#[trigger] ps[i]).status == Status::Cleanable
                    && ps[i].inspection is Some;
            &&& found == 0 ==> start.next is Done
            &&& found > 0 ==> (start.next is Dialogue <==> any)
            &&& found > 0 && !any ==> (start.next is Panel <==> crate::output::stdout_is_rich(t)
                && run.targeted && ps.len() > 0)
            &&& start.next matches CleaningNext::Dialogue(inputs) ==> inputs.force == run.force
                && inputs.dry_run == run.dry_run
        }),
{
    the_dialogue_is_about_every_cleanable_project(ps);
}

/// Both accounts of an outcome tell the fate of every item, in order.
pub proof fn outcomes_tell_every_items_fate(
    r: crate::interactive::Outcome,
    force: bool,
    dry_run: bool,
    i: int,
)
    requires
        0 <= i < r.items.len(),
    ensures
        outcome_rows(r, force, dry_run).len() == r.items.len(),
        outcome_rows(r, force, dry_run)[i].rel_path == r.items[i].rel_path,
        outcome_rows(r, force, dry_run)[i].is_dir == r.items[i].is_dir,
        outcome_rows(r, force, dry_run)[i].fate == fate(
            r.items[i],
            r.would_delete,
            r.project_approved,
            force,
            dry_run,
        ),
        plain_outcome(r, force, dry_run).len() == r.items.len() + 1,
        ({
            let line = plain_outcome(r, force, dry_run)[i + 1];
            let end = fate(r.items[i], r.would_delete, r.project_approved, force, dry_run) + ")"@;
            line.len() >= end.len() && line.skip(line.len() - end.len()) == end
        }),
{
    reveal_strlit(")");
    let f = fate(r.items[i], r.would_delete, r.project_approved, force, dry_run);
    let line = plain_outcome(r, force, dry_run)[i + 1];
    assert(line.skip(line.len() - (f + ")"@).len()) =~= f + ")"@);
}

/// After its review, where that was not shown yet, an outcome ends with what was made of
/// it: a project that was not approved is skipped, a dry run deletes nothing, and only
/// what is left is cleaned.
pub proof fn outcomes_end_with_what_was_made_of_them(
    r: crate::interactive::Outcome,
    branch_line: Seq<char>,
    size: Option<Seq<char>>,
    force: bool,
    dry_run: bool,
    w: nat,
    colors: bool,
)
    ensures
        ({
            let end = rich_outcome(r, true, branch_line, size, force, dry_run, w, colors);
            &&& rich_outcome(r, false, branch_line, size, force, dry_run, w, colors)
                == crate::output::review_lines(
                r.path,
                branch_line,
                outcome_rows(r, force, dry_run),
                size,
                w,
                colors,
            ) + end
            &&& !r.project_approved ==> end == seq![
                crate::output::path_line("⟩ skipped by user · "@, r.path, w),
            ]
            &&& r.project_approved && !dry_run ==> end == seq![
                crate::output::path_line("⟩ cleaning "@, r.path, w),
            ]
            &&& r.project_approved && dry_run ==> end == crate::layout::wrapped(
                "⟩ dry-run only - nothing deleted"@,
                w,
            )
        }),
{
    let end = rich_outcome(r, true, branch_line, size, force, dry_run, w, colors);
    if !r.project_approved {
        assert(end =~= seq![crate::output::path_line("⟩ skipped by user · "@, r.path, w)]);
    } else if dry_run {
        assert(end =~= crate::layout::wrapped("⟩ dry-run only - nothing deleted"@, w));
    } else {
        assert(end =~= seq![crate::output::path_line("⟩ cleaning "@, r.path, w)]);
    }
    let whole = rich_outcome(r, false, branch_line, size, force, dry_run, w, colors);
    assert(whole =~= crate::output::review_lines(
        r.path,
        branch_line,
        outcome_rows(r, force, dry_run),
        size,
        w,
        colors,
    ) + end);
}

/// A project has a panel exactly if it cannot be cleaned: a refusal, unless there is merely
/// nothing to remove.
pub proof fn what_cannot_be_cleaned_has_a_panel(
    path: Seq<char>,
    status: Status,
    committed: bool,
    branch_line: Seq<char>,
    details: Seq<Seq<char>>,
    possible_reclaim: Option<Seq<char>>,
    w: nat,
    colors: bool,
)
    ensures
        ({
            let panel = panel_lines(
                path,
                status,
                committed,
                branch_line,
                details,
                possible_reclaim,
                w,
                colors,
            );
            &&& panel is Some <==> status != Status::Cleanable
            &&& status == Status::Clean ==> panel->0 == crate::output::nothing_lines(
                path,
                branch_line,
                w,
                colors,
            )
            &&& status != Status::Cleanable && status != Status::Clean ==> panel->0
                == crate::output::blocked_lines(
                path,
                status,
                committed,
                branch_line,
                details,
                possible_reclaim,
                w,
                colors,
            )
        }),
{
}

/// A review before the questions has a row for every item, in order, with what will become
/// of it.
pub proof fn reviews_have_a_row_for_every_item(items: Seq<crate::clean::Item>, i: int)
    requires
        0 <= i < items.len(),
    ensures
        prospect_rows(items).len() == items.len(),
        prospect_rows(items)[i].rel_path == items[i].rel_path,
        prospect_rows(items)[i].is_dir == items[i].is_dir,
        items[i].classification == Classification::Protected ==> prospect_rows(items)[i].fate
            == "kept"@,
        items[i].classification == Classification::Safe ==> prospect_rows(items)[i].fate
            == "will delete"@,
        items[i].classification == Classification::Surfaced ==> prospect_rows(items)[i].fate
            == "needs approval"@,
{
}

/// A project of a run stands for what it holds, and is surveyed with its own path, status
/// and size.
pub proof fn projects_stand_for_what_they_hold(v: Seq<Subject>, i: int)
    requires
        0 <= i < v.len(),
    ensures
        project_views(v).len() == v.len(),
        project_views(v)[i].path == v[i].path@,
        project_views(v)[i].status == v[i].status,
        project_views(v)[i].inspection is Some <==> v[i].inspection is Some,
        v[i].inspection is Some ==> (project_views(v)[i].inspection->0).0
            == v[i].inspection->0.items@.map_values(|item: CleanItem| item@) && (project_views(
            v,
        )[i].inspection->0).1 == v[i].inspection->0.bytes,
        all_surveyed(project_views(v)).len() == v.len(),
        all_surveyed(project_views(v))[i].path == v[i].path@,
        all_surveyed(project_views(v))[i].status == v[i].status,
        all_surveyed(project_views(v))[i].bytes == if v[i].inspection is Some {
            v[i].inspection->0.bytes
        } else {
            None
        },
{
}

/// Where standard output is no terminal, the report of a run is plain text without color:
/// two lines of summary and a row for every project.
pub proof fn reports_to_files_are_plain(
    ps: Seq<Project>,
    branches: Seq<Seq<char>>,
    changed: Seq<Seq<char>>,
    targeted: bool,
    t: Terminal,
    w: nat,
    home: Option<Seq<char>>,
)
    requires
        !t.stdout_is_tty,
    ensures
        report(ps, branches, changed, targeted, t, w, home).len() >= 2,
        report(ps, branches, changed, targeted, t, w, home).skip(2) == report_rows(ps, false),
        report(ps, branches, changed, targeted, t, w, home)[1] == crate::survey::plain_summary(
            all_surveyed(ps),
            false,
        ),
{
    let lines = report(ps, branches, changed, targeted, t, w, home);
    assert(lines.skip(2) =~= report_rows(ps, false));
}

} // verus!
