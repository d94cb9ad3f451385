//! The cleaning dialogue: which projects and which surfaced items the user
//! agrees to clean.
//!
//! The questions come in a fixed order: one for the whole run, then for each
//! cleanable project one per surfaced item and one for the project. A "no" to
//! the first ends the dialogue. Only `y` (in either case) is a "yes"; blank
//! lines, the end of input and anything else are a "no". `--force` and
//! `--dry-run` ask nothing.
//!
//! The caller prints the questions and reads the answers; the functions here
//! say what to ask next and what follows from the answers so far.

use vstd::prelude::*;

use crate::classify::Status;
use crate::clean::{copy_items, Classification, CleanItem};
use crate::paths::{contains_path, paths_equal};
use crate::text::{cat2, cat3, chars_of, decimal_text, trim};

verus! {

/// What the dialogue is about.
#[derive(Debug, Clone)]
pub struct InteractiveFlowInputs {
    /// Every project and its status, most severe first.
    pub all_projects: Vec<(String, Status)>,
    /// The untracked items of each cleanable project.
    pub per_project_items: Vec<(String, Vec<CleanItem>)>,
    /// Ask nothing and agree to everything.
    pub force: bool,
    /// Ask nothing and remove nothing.
    pub dry_run: bool,
}

/// What the dialogue came to for one cleanable project.
#[derive(Debug, Clone)]
pub struct ProjectResult {
    pub path: String,
    pub status: Status,
    pub items: Vec<CleanItem>,
    /// The paths that would be removed: safe items and agreed surfaced ones;
    /// everything not protected under `--force`; safe items alone in a plain
    /// dry run.
    pub would_delete: Vec<String>,
    /// Whether the project is to be cleaned.
    pub project_approved: bool,
}

/// The value of a [`ProjectResult`].
pub struct Outcome {
    pub path: Seq<char>,
    pub status: Status,
    pub items: Seq<crate::clean::Item>,
    pub would_delete: Seq<Seq<char>>,
    pub project_approved: bool,
}

impl View for ProjectResult {
    type V = Outcome;

    open spec fn view(&self) -> Outcome {
        Outcome {
            path: self.path@,
            status: self.status,
            items: crate::clean::item_views(self.items@),
            would_delete: crate::text::texts(self.would_delete@),
            project_approved: self.project_approved,
        }
    }
}

/// The values of a sequence of results.
pub open spec fn outcomes(v: Seq<ProjectResult>) -> Seq<Outcome> {
    v.map_values(|r: ProjectResult| r@)
}

/// Why a project in this state is not being cleaned.
pub open spec fn reason_of(status: Status) -> Seq<char> {
    match status {
        Status::NoGit => "not git-initialized"@,
        Status::NoRemote => "no remote configured"@,
        Status::Unpushed => "has unpushed commits"@,
        Status::Wip => "uncommitted work in progress"@,
        Status::Cleanable => "cleanable"@,
        Status::Clean => "clean"@,
    }
}

/// Why a project in this state is not being cleaned, in one line.
pub fn status_reason(status: Status) -> (s: &'static str)
    ensures
        s@ == reason_of(status),
{
    match status {
        Status::NoGit => "not git-initialized",
        Status::NoRemote => "no remote configured",
        Status::Unpushed => "has unpushed commits",
        Status::Wip => "uncommitted work in progress",
        Status::Cleanable => "cleanable",
        Status::Clean => "clean",
    }
}

/// Why cleaning is refused. An unpushed project without a single commit has
/// no unpushed commits to speak of.
pub open spec fn refusal_reason(status: Status, committed: bool) -> Seq<char> {
    if status == Status::Unpushed && !committed {
        "nothing committed yet"@
    } else {
        reason_of(status)
    }
}

/// Why cleaning is refused; `committed` says whether the project has any
/// commit.
pub fn blocked_reason(status: Status, committed: bool) -> (s: &'static str)
    ensures
        s@ == refusal_reason(status, committed),
{
    if status == Status::Unpushed && !committed {
        "nothing committed yet"
    } else {
        status_reason(status)
    }
}

/// Whether a line is a "yes".
pub open spec fn is_yes(line: Seq<char>) -> bool {
    let t = crate::text::trimmed(line);
    t == seq!['y'] || t == seq!['Y']
}

/// Whether the question number `k` is answered with "yes". A question past the
/// end of the input is not.
pub open spec fn said_yes(answers: Seq<Seq<char>>, k: nat) -> bool {
    k < answers.len() && is_yes(answers[k as int])
}

/// Whether a line is a "yes".
pub fn affirms(line: &str) -> (r: bool)
    ensures
        r == is_yes(line@),
{
    let t = trim(line);
    let c = chars_of(t.as_str());
    let r = c.len() == 1 && (c[0] == 'y' || c[0] == 'Y');
    proof {
        if r {
            assert(t@ =~= seq!['y'] || t@ =~= seq!['Y']);
        }
    }
    r
}

fn affirmed(answers: &Vec<String>, k: usize) -> (r: bool)
    ensures
        r == said_yes(crate::text::texts(answers@), k as nat),
{
    assert(k < answers@.len() ==> crate::text::texts(answers@)[k as int] == answers@[k as int]@);
    k < answers.len() && affirms(answers[k].as_str())
}

/// How many surfaced items there are.
pub open spec fn surfaced_count(items: Seq<crate::clean::Item>) -> nat
    decreases items.len(),
{
    if items.len() == 0 {
        0
    } else {
        surfaced_count(items.drop_last()) + if items.last().classification
            == Classification::Surfaced {
            1nat
        } else {
            0nat
        }
    }
}

/// The items of the cleanable projects.
pub open spec fn project_items(projects: Seq<(String, Vec<CleanItem>)>) -> Seq<
    Seq<crate::clean::Item>,
> {
    projects.map_values(|p: (String, Vec<CleanItem>)| crate::clean::item_views(p.1@))
}

/// The number of the first question about the project after `projects`: the
/// question about the whole run comes first, then for each project one per
/// surfaced item and one for the project.
pub open spec fn first_question(projects: Seq<Seq<crate::clean::Item>>) -> nat
    decreases projects.len(),
{
    if projects.len() == 0 {
        1
    } else {
        first_question(projects.drop_last()) + surfaced_count(projects.last()) + 1
    }
}

/// The surfaced paths that were agreed to, where `at` is the number of the
/// first question about them.
pub open spec fn agreed_paths(
    items: Seq<crate::clean::Item>,
    answers: Seq<Seq<char>>,
    at: nat,
) -> Seq<Seq<char>>
    decreases items.len(),
{
    if items.len() == 0 {
        Seq::empty()
    } else {
        let front = items.drop_last();
        let before = agreed_paths(front, answers, at);
        if items.last().classification == Classification::Surfaced && said_yes(
            answers,
            at + surfaced_count(front),
        ) {
            before.push(items.last().rel_path)
        } else {
            before
        }
    }
}

/// Whether an item would be removed.
pub open spec fn would_go(
    item: crate::clean::Item,
    force: bool,
    dry_run: bool,
    agreed: Seq<Seq<char>>,
) -> bool {
    if dry_run && !force {
        item.classification == Classification::Safe
    } else {
        match item.classification {
            Classification::Protected => false,
            Classification::Safe => true,
            Classification::Surfaced => force || crate::paths::holds_path(agreed, item.rel_path),
        }
    }
}

/// The paths of the items that would be removed, in order.
pub open spec fn doomed_paths(
    items: Seq<crate::clean::Item>,
    force: bool,
    dry_run: bool,
    agreed: Seq<Seq<char>>,
) -> Seq<Seq<char>>
    decreases items.len(),
{
    if items.len() == 0 {
        Seq::empty()
    } else {
        let before = doomed_paths(items.drop_last(), force, dry_run, agreed);
        if would_go(items.last(), force, dry_run, agreed) {
            before.push(items.last().rel_path)
        } else {
            before
        }
    }
}

/// The status of the first project at `path`; `Cleanable` where none is there.
pub open spec fn status_at(projects: Seq<(String, Status)>, path: Seq<char>) -> Status
    decreases projects.len(),
{
    if projects.len() == 0 {
        Status::Cleanable
    } else if crate::paths::same_path(projects[0].0@, path) {
        projects[0].1
    } else {
        status_at(projects.skip(1), path)
    }
}

/// Whether anything is asked.
pub open spec fn asks(inputs: InteractiveFlowInputs) -> bool {
    !inputs.force && !inputs.dry_run
}

/// Whether the run as a whole goes ahead. With no project to clean nothing is
/// asked and nothing is agreed.
pub open spec fn run_agreed(inputs: InteractiveFlowInputs, answers: Seq<Seq<char>>) -> bool {
    if asks(inputs) {
        inputs.per_project_items@.len() > 0 && said_yes(answers, 0)
    } else {
        true
    }
}

/// The surfaced paths of project `p` that were agreed to.
pub open spec fn agreed_in(
    inputs: InteractiveFlowInputs,
    answers: Seq<Seq<char>>,
    p: int,
) -> Seq<Seq<char>> {
    let projects = project_items(inputs.per_project_items@);
    if asks(inputs) && run_agreed(inputs, answers) {
        agreed_paths(projects[p], answers, first_question(projects.take(p)))
    } else {
        Seq::empty()
    }
}

/// What the dialogue comes to for project `p`.
pub open spec fn outcome_at(
    inputs: InteractiveFlowInputs,
    answers: Seq<Seq<char>>,
    p: int,
) -> Outcome {
    let projects = project_items(inputs.per_project_items@);
    let items = projects[p];
    let path = inputs.per_project_items@[p].0@;
    Outcome {
        path,
        status: status_at(inputs.all_projects@, path),
        items,
        would_delete: doomed_paths(
            items,
            inputs.force,
            inputs.dry_run,
            agreed_in(inputs, answers, p),
        ),
        project_approved: if asks(inputs) {
            run_agreed(inputs, answers) && said_yes(
                answers,
                first_question(projects.take(p)) + surfaced_count(items),
            )
        } else {
            true
        },
    }
}

/// Whether the run as a whole goes ahead: `answer` is what the user said to
/// [`all_question`], `None` at the end of the input.
pub fn collect_all_approval(num_cleanable: usize, answer: Option<&str>) -> (r: bool)
    ensures
        r == (num_cleanable > 0 && match answer {
            Some(line) => is_yes(line@),
            None => false,
        }),
{
    if num_cleanable == 0 {
        return false;
    }
    match answer {
        Some(line) => affirms(line),
        None => false,
    }
}

/// The surfaced items in order, each with whether the user agreed to remove
/// it.
pub open spec fn item_answers(
    items: Seq<crate::clean::Item>,
    answers: Seq<Seq<char>>,
) -> Seq<(Seq<char>, bool)>
    decreases items.len(),
{
    if items.len() == 0 {
        Seq::empty()
    } else {
        let front = items.drop_last();
        let before = item_answers(front, answers);
        if items.last().classification == Classification::Surfaced {
            before.push((items.last().rel_path, said_yes(answers, surfaced_count(front))))
        } else {
            before
        }
    }
}

/// The text and the flag of a sequence of pairs.
pub open spec fn pair_views(v: Seq<(String, bool)>) -> Seq<(Seq<char>, bool)> {
    v.map_values(|p: (String, bool)| (p.0@, p.1))
}

/// The surfaced items in order, each with whether the user agreed to remove
/// it. `answers` are the answers to [`item_question`] for each; missing ones
/// are a "no".
pub fn collect_each_item(items: &[CleanItem], answers: &Vec<String>) -> (out: Vec<(String, bool)>)
    ensures
        pair_views(out@) == item_answers(
            crate::clean::item_views(items@),
            crate::text::texts(answers@),
        ),
{
    let mut out: Vec<(String, bool)> = Vec::new();
    let ghost all = crate::clean::item_views(items@);
    let ghost said = crate::text::texts(answers@);
    let mut k: usize = 0;
    let mut i: usize = 0;
    assert(pair_views(out@) =~= item_answers(all.take(0), said));
    assert(surfaced_count(all.take(0)) == 0);
    while i < items.len()
        invariant
            i <= items@.len(),
            k <= i,
            all == crate::clean::item_views(items@),
            said == crate::text::texts(answers@),
            k == surfaced_count(all.take(i as int)),
            pair_views(out@) == item_answers(all.take(i as int), said),
        decreases items@.len() - i,
    {
        assert(all.take(i + 1).drop_last() =~= all.take(i as int));
        assert(all.take(i + 1).last() == items@[i as int]@);
        if items[i].classification == Classification::Surfaced {
            let ghost before = pair_views(out@);
            let yes = affirmed(answers, k);
            out.push((items[i].rel_path.clone(), yes));
            assert(pair_views(out@) =~= before.push((items@[i as int].rel_path@, yes)));
            k = k + 1;
        }
        i = i + 1;
    }
    assert(all.take(i as int) =~= all);
    out
}

/// Whether a project is to be cleaned: `answer` is what the user said to
/// [`project_question`], `None` at the end of the input.
pub fn collect_project_approval(answer: Option<&str>) -> (r: bool)
    ensures
        r == match answer {
            Some(line) => is_yes(line@),
            None => false,
        },
{
    match answer {
        Some(line) => affirms(line),
        None => false,
    }
}

/// Whether an item would be removed when the surfaced paths in `approved` are
/// agreed to.
fn would_delete(item: &CleanItem, force: bool, dry_run: bool, approved: &Vec<String>) -> (r: bool)
    ensures
        r == would_go(item@, force, dry_run, crate::text::texts(approved@)),
{
    if dry_run && !force {
        item.classification == Classification::Safe
    } else {
        match item.classification {
            Classification::Protected => false,
            Classification::Safe => true,
            Classification::Surfaced => force || contains_path(approved, item.rel_path.as_str()),
        }
    }
}

fn doomed(items: &[CleanItem], force: bool, dry_run: bool, approved: &Vec<String>) -> (out: Vec<
    String,
>)
    ensures
        crate::text::texts(out@) == doomed_paths(
            crate::clean::item_views(items@),
            force,
            dry_run,
            crate::text::texts(approved@),
        ),
{
    let mut out: Vec<String> = Vec::new();
    let ghost all = crate::clean::item_views(items@);
    let ghost ok = crate::text::texts(approved@);
    let mut i: usize = 0;
    assert(crate::text::texts(out@) =~= doomed_paths(all.take(0), force, dry_run, ok));
    while i < items.len()
        invariant
            i <= items@.len(),
            all == crate::clean::item_views(items@),
            ok == crate::text::texts(approved@),
            crate::text::texts(out@) == doomed_paths(all.take(i as int), force, dry_run, ok),
        decreases items@.len() - i,
    {
        assert(all.take(i + 1).drop_last() =~= all.take(i as int));
        assert(all.take(i + 1).last() == items@[i as int]@);
        if would_delete(&items[i], force, dry_run, approved) {
            let ghost before = crate::text::texts(out@);
            out.push(items[i].rel_path.clone());
            assert(crate::text::texts(out@) =~= before.push(items@[i as int].rel_path@));
        }
        i = i + 1;
    }
    assert(all.take(i as int) =~= all);
    out
}

/// The surfaced paths agreed to, and how many questions were about surfaced
/// items.
fn agreed(items: &[CleanItem], answers: &Vec<String>, at: usize) -> (r: (Vec<String>, usize))
    requires
        at + items@.len() <= usize::MAX,
    ensures
        crate::text::texts(r.0@) == agreed_paths(
            crate::clean::item_views(items@),
            crate::text::texts(answers@),
            at as nat,
        ),
        r.1 == surfaced_count(crate::clean::item_views(items@)),
        r.1 <= items@.len(),
{
    let mut out: Vec<String> = Vec::new();
    let ghost all = crate::clean::item_views(items@);
    let ghost said = crate::text::texts(answers@);
    let mut k: usize = 0;
    let mut i: usize = 0;
    assert(crate::text::texts(out@) =~= agreed_paths(all.take(0), said, at as nat));
    assert(surfaced_count(all.take(0)) == 0);
    while i < items.len()
        invariant
            i <= items@.len(),
            k <= i,
            at + items@.len() <= usize::MAX,
            all == crate::clean::item_views(items@),
            said == crate::text::texts(answers@),
            k == surfaced_count(all.take(i as int)),
            crate::text::texts(out@) == agreed_paths(all.take(i as int), said, at as nat),
        decreases items@.len() - i,
    {
        assert(all.take(i + 1).drop_last() =~= all.take(i as int));
        assert(all.take(i + 1).last() == items@[i as int]@);
        if items[i].classification == Classification::Surfaced {
            if affirmed(answers, at + k) {
                let ghost before = crate::text::texts(out@);
                out.push(items[i].rel_path.clone());
                assert(crate::text::texts(out@) =~= before.push(items@[i as int].rel_path@));
            }
            k = k + 1;
        }
        i = i + 1;
    }
    assert(all.take(i as int) =~= all);
    (out, k)
}

/// The status of the first project at `path`.
fn find_status(projects: &Vec<(String, Status)>, path: &str) -> (s: Status)
    ensures
        s == status_at(projects@, path@),
{
    let mut i: usize = 0;
    assert(projects@.skip(0) =~= projects@);
    while i < projects.len()
        invariant
            i <= projects@.len(),
            status_at(projects@, path@) == status_at(projects@.skip(i as int), path@),
        decreases projects@.len() - i,
    {
        assert(projects@.skip(i as int)[0] == projects@[i as int]);
        assert(projects@.skip(i as int).skip(1) =~= projects@.skip(i + 1));
        if paths_equal(projects[i].0.as_str(), path) {
            return projects[i].1;
        }
        i = i + 1;
    }
    Status::Cleanable
}

/// The number of questions that could be asked at most: one for the run, and
/// for each project one per item and one for the project.
pub open spec fn question_bound(projects: Seq<Seq<crate::clean::Item>>) -> nat
    decreases projects.len(),
{
    if projects.len() == 0 {
        1
    } else {
        question_bound(projects.drop_last()) + projects.last().len() + 1
    }
}

proof fn lemma_bound_grows(projects: Seq<Seq<crate::clean::Item>>, n: int)
    requires
        0 <= n <= projects.len(),
    ensures
        question_bound(projects.take(n)) <= question_bound(projects),
    decreases projects.len(),
{
    if n < projects.len() {
        assert(projects.drop_last().take(n) =~= projects.take(n));
        lemma_bound_grows(projects.drop_last(), n);
    } else {
        assert(projects.take(n) =~= projects);
    }
}

/// Whether the questions that could be asked can be counted, as [`run`] and
/// [`next_prompt`] ask for.
pub fn questions_fit(inputs: &InteractiveFlowInputs) -> (r: bool)
    ensures
        r == (question_bound(project_items(inputs.per_project_items@)) <= usize::MAX),
{
    let ghost all = project_items(inputs.per_project_items@);
    let mut bound: usize = 1;
    let mut i: usize = 0;
    assert(all.take(0) =~= Seq::<Seq<crate::clean::Item>>::empty());
    while i < inputs.per_project_items.len()
        invariant
            i <= inputs.per_project_items@.len(),
            all == project_items(inputs.per_project_items@),
            bound == question_bound(all.take(i as int)),
        decreases inputs.per_project_items@.len() - i,
    {
        assert(all.take(i + 1).drop_last() =~= all.take(i as int));
        assert(all.take(i + 1).last() == crate::clean::item_views(
            inputs.per_project_items@[i as int].1@,
        ));
        proof {
            lemma_bound_grows(all, i + 1);
        }
        let n = inputs.per_project_items[i].1.len();
        if n >= usize::MAX - bound {
            return false;
        }
        bound = bound + n + 1;
        i = i + 1;
    }
    assert(all.take(i as int) =~= all);
    true
}

/// Runs the dialogue on the given answers, one line each; missing answers are
/// a "no". The result has one entry per cleanable project, in order.
///
/// A "no" to the first question leaves every project unapproved and every
/// surfaced item in place. Without questions (`force` or `dry_run`) every
/// project comes back approved; the caller sees to it that a dry run removes
/// nothing.
pub fn run(inputs: &InteractiveFlowInputs, answers: &Vec<String>) -> (out: Vec<ProjectResult>)
    requires
        question_bound(project_items(inputs.per_project_items@)) <= usize::MAX,
    ensures
        outcomes(out@) == Seq::new(
            inputs.per_project_items@.len(),
            |p: int| outcome_at(*inputs, crate::text::texts(answers@), p),
        ),
{
    let ghost said = crate::text::texts(answers@);
    let ghost projects = project_items(inputs.per_project_items@);
    let ghost wanted = Seq::new(
        inputs.per_project_items@.len(),
        |p: int| outcome_at(*inputs, said, p),
    );
    let interactive = !inputs.force && !inputs.dry_run;
    let first = if answers.len() > 0 {
        Some(answers[0].as_str())
    } else {
        None
    };
    assert(answers@.len() > 0 ==> said[0] == answers@[0]@);
    let all_approved = if interactive {
        collect_all_approval(inputs.per_project_items.len(), first)
    } else {
        true
    };
    let mut out: Vec<ProjectResult> = Vec::new();
    let mut at: usize = 1;
    let mut p: usize = 0;
    assert(outcomes(out@) =~= wanted.take(0));
    assert(projects.take(0) =~= Seq::<Seq<crate::clean::Item>>::empty());
    while p < inputs.per_project_items.len()
        invariant
            p <= inputs.per_project_items@.len(),
            said == crate::text::texts(answers@),
            projects == project_items(inputs.per_project_items@),
            question_bound(projects) <= usize::MAX,
            wanted == Seq::new(
                inputs.per_project_items@.len(),
                |p: int| outcome_at(*inputs, said, p),
            ),
            interactive == asks(*inputs),
            all_approved == run_agreed(*inputs, said),
            at == first_question(projects.take(p as int)),
            at <= question_bound(projects.take(p as int)),
            outcomes(out@) == wanted.take(p as int),
        decreases inputs.per_project_items@.len() - p,
    {
        let path = &inputs.per_project_items[p].0;
        let items = &inputs.per_project_items[p].1;
        assert(projects[p as int] == crate::clean::item_views(items@));
        assert(projects.take(p + 1).drop_last() =~= projects.take(p as int));
        proof {
            lemma_bound_grows(projects, p + 1);
        }
        let (named, asked) = agreed(items.as_slice(), answers, at);
        let approved = if interactive && all_approved {
            named
        } else {
            Vec::new()
        };
        assert(crate::text::texts(approved@) =~= agreed_in(*inputs, said, p as int));
        let would_delete = doomed(items.as_slice(), inputs.force, inputs.dry_run, &approved);
        let project_approved = if interactive {
            all_approved && affirmed(answers, at + asked)
        } else {
            true
        };
        let status = find_status(&inputs.all_projects, path.as_str());
        let ghost before = outcomes(out@);
        let result = ProjectResult {
            path: path.clone(),
            status,
            items: copy_items(items.as_slice()),
            would_delete,
            project_approved,
        };
        assert(result@ == wanted[p as int]);
        out.push(result);
        assert(outcomes(out@) =~= before.push(wanted[p as int]));
        at = at + asked + 1;
        p = p + 1;
        assert(outcomes(out@) =~= wanted.take(p as int));
    }
    assert(wanted.take(p as int) =~= wanted);
    out
}

/// A question of the dialogue.
pub enum Prompt {
    /// Whether to clean any of this many projects.
    All(usize),
    /// Whether to remove a surfaced item (by the numbers of the project and of
    /// the item). `report` says that the project's report comes first.
    Item { project: usize, item: usize, report: bool },
    /// Whether to clean a project (by its number). `report` says that the
    /// project's report comes first.
    Project { project: usize, report: bool },
}

/// The number of the item that the `j`-th question about surfaced items is
/// about; the number of items where there is no such question.
pub open spec fn surfaced_at(items: Seq<crate::clean::Item>, j: int) -> int
    decreases items.len(),
{
    if items.len() == 0 {
        0
    } else {
        let front = items.drop_last();
        if j < surfaced_count(front) {
            surfaced_at(front, j)
        } else if items.last().classification == Classification::Surfaced && j == surfaced_count(
            front,
        ) {
            items.len() - 1
        } else {
            items.len() as int
        }
    }
}

/// The project that question number `k` is about, for `k` past the first.
pub open spec fn project_of_question(projects: Seq<Seq<crate::clean::Item>>, k: nat) -> int
    decreases projects.len(),
{
    if projects.len() == 0 {
        0
    } else if k < first_question(projects.drop_last()) {
        project_of_question(projects.drop_last(), k)
    } else if k < first_question(projects) {
        projects.len() - 1
    } else {
        projects.len() as int
    }
}

/// The question that comes after `answers`; `None` when the dialogue is over.
pub open spec fn prompt_after(inputs: InteractiveFlowInputs, answers: Seq<Seq<char>>) -> Option<
    Prompt,
> {
    let projects = project_items(inputs.per_project_items@);
    let k = answers.len();
    if !asks(inputs) || projects.len() == 0 {
        None
    } else if k == 0 {
        Some(Prompt::All(projects.len() as usize))
    } else if !is_yes(answers[0]) || k >= first_question(projects) {
        None
    } else {
        let p = project_of_question(projects, k);
        let j = k - first_question(projects.take(p));
        if j < surfaced_count(projects[p]) {
            Some(
                Prompt::Item {
                    project: p as usize,
                    item: surfaced_at(projects[p], j) as usize,
                    report: j == 0,
                },
            )
        } else {
            Some(Prompt::Project { project: p as usize, report: j == 0 })
        }
    }
}

proof fn lemma_question_project(projects: Seq<Seq<crate::clean::Item>>, p: int, k: nat)
    requires
        0 <= p < projects.len(),
        first_question(projects.take(p)) <= k < first_question(projects.take(p + 1)),
    ensures
        project_of_question(projects, k) == p,
        k < first_question(projects),
    decreases projects.len(),
{
    let front = projects.drop_last();
    if p == projects.len() - 1 {
        assert(projects.take(p) =~= front);
        assert(projects.take(p + 1) =~= projects);
    } else {
        assert(front.take(p) =~= projects.take(p));
        assert(front.take(p + 1) =~= projects.take(p + 1));
        lemma_question_project(front, p, k);
    }
}

proof fn lemma_surfaced_at(items: Seq<crate::clean::Item>, i: int)
    requires
        0 <= i < items.len(),
        items[i].classification == Classification::Surfaced,
    ensures
        surfaced_at(items, surfaced_count(items.take(i)) as int) == i,
        surfaced_count(items.take(i)) < surfaced_count(items),
    decreases items.len(),
{
    let front = items.drop_last();
    if i == items.len() - 1 {
        assert(items.take(i) =~= front);
    } else {
        assert(front.take(i) =~= items.take(i));
        lemma_surfaced_at(front, i);
    }
}

/// The question to ask after `answers` were given; `None` when the dialogue is
/// over and [`run`] has all it needs. The end of the input counts as an answer
/// that is empty.
pub fn next_prompt(inputs: &InteractiveFlowInputs, answers: &Vec<String>) -> (out: Option<Prompt>)
    requires
        question_bound(project_items(inputs.per_project_items@)) <= usize::MAX,
    ensures
        out == prompt_after(*inputs, crate::text::texts(answers@)),
{
    let ghost said = crate::text::texts(answers@);
    let ghost projects = project_items(inputs.per_project_items@);
    let k = answers.len();
    assert(said.len() == k);
    if inputs.force || inputs.dry_run || inputs.per_project_items.len() == 0 {
        return None;
    }
    if k == 0 {
        return Some(Prompt::All(inputs.per_project_items.len()));
    }
    assert(said[0] == answers@[0]@);
    if !affirms(answers[0].as_str()) {
        return None;
    }
    let mut at: usize = 1;
    let mut p: usize = 0;
    assert(projects.take(0) =~= Seq::<Seq<crate::clean::Item>>::empty());
    while p < inputs.per_project_items.len()
        invariant
            p <= inputs.per_project_items@.len(),
            said == crate::text::texts(answers@),
            said.len() == k,
            k > 0,
            is_yes(said[0]),
            asks(*inputs),
            projects == project_items(inputs.per_project_items@),
            projects.len() > 0,
            question_bound(projects) <= usize::MAX,
            at == first_question(projects.take(p as int)),
            at <= question_bound(projects.take(p as int)),
            at <= k,
        decreases inputs.per_project_items@.len() - p,
    {
        let items = &inputs.per_project_items[p].1;
        let ghost all = projects[p as int];
        assert(all == crate::clean::item_views(items@));
        assert(projects.take(p + 1).drop_last() =~= projects.take(p as int));
        proof {
            lemma_bound_grows(projects, p + 1);
        }
        let start = at;
        let mut i: usize = 0;
        assert(surfaced_count(all.take(0)) == 0);
        while i < items.len()
            invariant
                i <= items@.len(),
                p < projects.len(),
                said == crate::text::texts(answers@),
                said.len() == k,
                k > 0,
                is_yes(said[0]),
                asks(*inputs),
                projects == project_items(inputs.per_project_items@),
                all == projects[p as int],
                all == crate::clean::item_views(items@),
                projects.take(p + 1).drop_last() == projects.take(p as int),
                start == first_question(projects.take(p as int)),
                start + items@.len() + 1 <= usize::MAX,
                at == start + surfaced_count(all.take(i as int)),
                at <= start + i,
                start <= at <= k,
            decreases items@.len() - i,
        {
            assert(all.take(i + 1).drop_last() =~= all.take(i as int));
            assert(all.take(i + 1).last() == items@[i as int]@);
            if items[i].classification == Classification::Surfaced {
                if at == k {
                    proof {
                        lemma_surfaced_at(all, i as int);
                        lemma_question_project(projects, p as int, k as nat);
                    }
                    return Some(Prompt::Item { project: p, item: i, report: at == start });
                }
                at = at + 1;
            }
            i = i + 1;
        }
        assert(all.take(i as int) =~= all);
        if at == k {
            proof {
                lemma_question_project(projects, p as int, k as nat);
            }
            return Some(Prompt::Project { project: p, report: at == start });
        }
        at = at + 1;
        p = p + 1;
    }
    assert(projects.take(p as int) =~= projects);
    None
}

/// The hint that ends a question.
pub open spec fn hint_text(rich: bool) -> Seq<char> {
    if rich {
        "[y/N]"@
    } else {
        "(y/n)"@
    }
}

fn hint(rich: bool) -> (s: &'static str)
    ensures
        s@ == hint_text(rich),
{
    if rich {
        "[y/N]"
    } else {
        "(y/n)"
    }
}

/// The question about the whole run.
pub fn all_question(num_cleanable: usize, rich: bool) -> (out: String)
    ensures
        out@ == "? Remove gitignored paths from the "@ + crate::text::decimal(
            num_cleanable as nat,
        ) + " cleanable projects? "@ + hint_text(rich),
{
    let mut out = cat2(
        "? Remove gitignored paths from the ",
        decimal_text(num_cleanable as u64).as_str(),
    );
    out.append(" cleanable projects? ");
    out.append(hint(rich));
    out
}

/// A path as it is listed: a directory ends in `/`.
pub open spec fn listed(item: crate::clean::Item) -> Seq<char> {
    item.rel_path + if item.is_dir {
        "/"@
    } else {
        ""@
    }
}

/// The path of an item as it is listed.
pub fn listed_path(item: &CleanItem) -> (out: String)
    ensures
        out@ == listed(item@),
{
    cat2(
        item.rel_path.as_str(),
        if item.is_dir {
            "/"
        } else {
            ""
        },
    )
}

/// The question about a surfaced item.
pub fn item_question(item: &CleanItem, rich: bool) -> (out: String)
    ensures
        out@ == "? "@ + listed(item@) + " [surfaced] delete? "@ + hint_text(rich),
{
    let mut out = cat3("? ", listed_path(item).as_str(), " [surfaced] delete? ");
    out.append(hint(rich));
    out
}

/// The question about a project.
pub fn project_question(project_path: &str, rich: bool) -> (out: String)
    ensures
        out@ == "? Remove these gitignored paths from "@ + project_path@ + "? "@ + hint_text(rich),
{
    let mut out = cat3("? Remove these gitignored paths from ", project_path, "? ");
    out.append(hint(rich));
    out
}

/// The label of a classification in a review.
pub open spec fn review_label(c: Classification) -> Seq<char> {
    match c {
        Classification::Protected => "protected"@,
        Classification::Safe => "safe-to-delete"@,
        Classification::Surfaced => "surfaced"@,
    }
}

/// What will become of an item, as far as it is settled before asking.
pub open spec fn prospect(c: Classification) -> Seq<char> {
    match c {
        Classification::Protected => "kept"@,
        Classification::Safe => "will delete"@,
        Classification::Surfaced => "needs approval"@,
    }
}

/// The label of a classification in a review.
pub fn review_label_text(c: Classification) -> (s: &'static str)
    ensures
        s@ == review_label(c),
{
    match c {
        Classification::Protected => "protected",
        Classification::Safe => "safe-to-delete",
        Classification::Surfaced => "surfaced",
    }
}

/// What will become of an item, as far as it is settled before asking.
pub fn prospect_text(c: Classification) -> (s: &'static str)
    ensures
        s@ == prospect(c),
{
    match c {
        Classification::Protected => "kept",
        Classification::Safe => "will delete",
        Classification::Surfaced => "needs approval",
    }
}

/// One line of a project's report.
pub open spec fn report_line(item: crate::clean::Item) -> Seq<char> {
    "  "@ + listed(item) + " ["@ + review_label(item.classification) + "] ("@ + prospect(
        item.classification,
    ) + ")"@
}

/// The report that comes before the questions about a project.
pub open spec fn project_report(path: Seq<char>, items: Seq<crate::clean::Item>) -> Seq<
    Seq<char>,
> {
    seq![path + ":"@, "  Gitignored review"@] + items.map_values(
        |i: crate::clean::Item| report_line(i),
    )
}

/// The report that comes before the questions about a project: its path and
/// every untracked item with its classification and prospect.
pub fn print_project_report(path: &str, items: &[CleanItem]) -> (out: Vec<String>)
    ensures
        crate::text::texts(out@) == project_report(path@, crate::clean::item_views(items@)),
{
    let mut out: Vec<String> = Vec::new();
    out.push(cat2(path, ":"));
    out.push("  Gitignored review".to_owned());
    let ghost head = seq![path@ + ":"@, "  Gitignored review"@];
    let ghost lines = crate::clean::item_views(items@).map_values(
        |i: crate::clean::Item| report_line(i),
    );
    let mut i: usize = 0;
    assert(crate::text::texts(out@) =~= head + lines.take(0));
    while i < items.len()
        invariant
            i <= items@.len(),
            lines == crate::clean::item_views(items@).map_values(
                |i: crate::clean::Item| report_line(i),
            ),
            crate::text::texts(out@) == head + lines.take(i as int),
        decreases items@.len() - i,
    {
        let item = &items[i];
        let mut line = cat3("  ", listed_path(item).as_str(), " [");
        line.append(review_label_text(item.classification));
        line.append("] (");
        line.append(prospect_text(item.classification));
        line.append(")");
        let ghost before = crate::text::texts(out@);
        assert(lines[i as int] == line@);
        out.push(line);
        assert(crate::text::texts(out@) =~= before.push(lines[i as int]));
        i = i + 1;
        assert(crate::text::texts(out@) =~= head + lines.take(i as int));
    }
    assert(lines.take(i as int) =~= lines);
    out
}

/// Nothing protected is ever among the paths to remove, whatever was answered
/// and whatever the flags: each such path is that of an item that is not
/// protected.
pub proof fn protected_items_never_go(
    items: Seq<crate::clean::Item>,
    force: bool,
    dry_run: bool,
    agreed: Seq<Seq<char>>,
    k: int,
)
    requires
        0 <= k < doomed_paths(items, force, dry_run, agreed).len(),
    ensures
        exists|i: int|
            0 <= i < items.len() && (#[trigger] items[i]).classification
                != Classification::Protected && items[i].rel_path == doomed_paths(
                items,
                force,
                dry_run,
                agreed,
            )[k],
    decreases items.len(),
{
    let front = items.drop_last();
    if k < doomed_paths(front, force, dry_run, agreed).len() {
        protected_items_never_go(front, force, dry_run, agreed, k);
        let i = choose|i: int|
            0 <= i < front.len() && (#[trigger] front[i]).classification
                != Classification::Protected && front[i].rel_path == doomed_paths(
                front,
                force,
                dry_run,
                agreed,
            )[k];
        assert(items[i] == front[i]);
    } else {
        assert(items[items.len() - 1].rel_path == doomed_paths(items, force, dry_run, agreed)[k]);
    }
}

/// A plain dry run promises to remove safe items only.
pub proof fn plain_dry_run_claims_only_safe_items(
    item: crate::clean::Item,
    agreed: Seq<Seq<char>>,
)
    ensures
        would_go(item, false, true, agreed) <==> item.classification == Classification::Safe,
{
}

/// What a clean run removes and what it is told to leave alone are the two
/// halves of the items: outside a plain dry run, an item goes exactly when it
/// is not among those that must stay.
pub proof fn an_item_goes_or_stays(item: crate::clean::Item, force: bool, agreed: Seq<Seq<char>>)
    ensures
        would_go(item, force, false, agreed) <==> !crate::clean::must_stay(item, agreed, force),
        force ==> (would_go(item, true, true, agreed) <==> !crate::clean::must_stay(
            item,
            agreed,
            true,
        )),
{
}

/// A "no" (or nothing) to the first question leaves every project unapproved
/// and no surfaced item agreed to.
pub proof fn declining_the_run_declines_everything(
    inputs: InteractiveFlowInputs,
    answers: Seq<Seq<char>>,
    p: int,
)
    requires
        asks(inputs),
        !said_yes(answers, 0),
        0 <= p < inputs.per_project_items@.len(),
    ensures
        !outcome_at(inputs, answers, p).project_approved,
        agreed_in(inputs, answers, p) == Seq::<Seq<char>>::empty(),
{
}

/// Without questions every project is approved, and nothing is asked.
pub proof fn flags_skip_the_questions(
    inputs: InteractiveFlowInputs,
    answers: Seq<Seq<char>>,
    p: int,
)
    requires
        inputs.force || inputs.dry_run,
        0 <= p < inputs.per_project_items@.len(),
    ensures
        outcome_at(inputs, answers, p).project_approved,
        prompt_after(inputs, answers) is None,
{
}

/// A project is approved only if the user said "yes" to the run and to the
/// project itself.
pub proof fn approval_takes_both_answers(
    inputs: InteractiveFlowInputs,
    answers: Seq<Seq<char>>,
    p: int,
)
    requires
        asks(inputs),
        0 <= p < inputs.per_project_items@.len(),
        outcome_at(inputs, answers, p).project_approved,
    ensures
        said_yes(answers, 0),
        said_yes(
            answers,
            first_question(project_items(inputs.per_project_items@).take(p)) + surfaced_count(
                project_items(inputs.per_project_items@)[p],
            ),
        ),
{
}

proof fn lemma_agreed_item(
    items: Seq<crate::clean::Item>,
    answers: Seq<Seq<char>>,
    at: nat,
    path: Seq<char>,
) -> (j: int)
    requires
        crate::paths::holds_path(agreed_paths(items, answers, at), path),
    ensures
        0 <= j < items.len(),
        items[j].classification == Classification::Surfaced,
        crate::paths::same_path(items[j].rel_path, path),
        said_yes(answers, at + surfaced_count(items.take(j))),
    decreases items.len(),
{
    let front = items.drop_last();
    let before = agreed_paths(front, answers, at);
    let all = agreed_paths(items, answers, at);
    let k = choose|k: int| 0 <= k < all.len() && crate::paths::same_path(#[trigger] all[k], path);
    if k < before.len() {
        assert(before[k] == all[k]);
        let j = lemma_agreed_item(front, answers, at, path);
        assert(front.take(j) =~= items.take(j));
        j
    } else {
        assert(items.take(items.len() - 1) =~= front);
        items.len() - 1
    }
}

/// A surfaced item goes only if the user said "yes" to the run and to the item
/// (or to another surfaced one at the same path).
pub proof fn surfaced_items_need_a_yes(
    inputs: InteractiveFlowInputs,
    answers: Seq<Seq<char>>,
    p: int,
    i: int,
)
    requires
        asks(inputs),
        0 <= p < inputs.per_project_items@.len(),
        0 <= i < project_items(inputs.per_project_items@)[p].len(),
        ({
            let item = project_items(inputs.per_project_items@)[p][i];
            item.classification == Classification::Surfaced && would_go(
                item,
                inputs.force,
                inputs.dry_run,
                agreed_in(inputs, answers, p),
            )
        }),
    ensures
        said_yes(answers, 0),
        ({
            let projects = project_items(inputs.per_project_items@);
            exists|j: int|
                0 <= j < projects[p].len() && (#[trigger] projects[p][j]).classification
                    == Classification::Surfaced && crate::paths::same_path(
                    projects[p][j].rel_path,
                    projects[p][i].rel_path,
                ) && said_yes(
                    answers,
                    first_question(projects.take(p)) + surfaced_count(projects[p].take(j)),
                )
        }),
{
    let projects = project_items(inputs.per_project_items@);
    let path = projects[p][i].rel_path;
    assert(crate::paths::holds_path(agreed_in(inputs, answers, p), path));
    let j = lemma_agreed_item(
        projects[p],
        answers,
        first_question(projects.take(p)),
        path,
    );
    assert(projects[p][j].classification == Classification::Surfaced);
}

proof fn lemma_project_of_question(projects: Seq<Seq<crate::clean::Item>>, k: nat)
    requires
        1 <= k < first_question(projects),
    ensures
        ({
            let p = project_of_question(projects, k);
            &&& 0 <= p < projects.len()
            &&& first_question(projects.take(p)) <= k
            &&& k <= first_question(projects.take(p)) + surfaced_count(projects[p])
        }),
    decreases projects.len(),
{
    let front = projects.drop_last();
    if k < first_question(front) {
        lemma_project_of_question(front, k);
        let p = project_of_question(front, k);
        assert(front.take(p) =~= projects.take(p));
    } else {
        assert(projects.take(projects.len() - 1) =~= front);
    }
}

proof fn lemma_asked_item(items: Seq<crate::clean::Item>, j: int)
    requires
        0 <= j < surfaced_count(items),
    ensures
        0 <= surfaced_at(items, j) < items.len(),
        items[surfaced_at(items, j)].classification == Classification::Surfaced,
        surfaced_count(items.take(surfaced_at(items, j))) == j,
    decreases items.len(),
{
    let front = items.drop_last();
    if j < surfaced_count(front) {
        lemma_asked_item(front, j);
        assert(front.take(surfaced_at(front, j)) =~= items.take(surfaced_at(front, j)));
    } else {
        assert(items.take(items.len() - 1) =~= front);
    }
}

/// Every answer goes to the question that was asked: the question asked after
/// `answers` is about the very item, or the very project, that the next answer
/// is taken to decide on; and the report of a project comes with the first
/// question about it.
pub proof fn answers_go_to_their_questions(
    inputs: InteractiveFlowInputs,
    answers: Seq<Seq<char>>,
)
    requires
        question_bound(project_items(inputs.per_project_items@)) <= usize::MAX,
    ensures
        ({
            let projects = project_items(inputs.per_project_items@);
            match prompt_after(inputs, answers) {
                None => true,
                Some(Prompt::All(n)) => answers.len() == 0 && n == projects.len(),
                Some(Prompt::Item { project, item, report }) => {
                    &&& project < projects.len()
                    &&& item < projects[project as int].len()
                    &&& projects[project as int][item as int].classification
                        == Classification::Surfaced
                    &&& answers.len() == first_question(projects.take(project as int))
                        + surfaced_count(projects[project as int].take(item as int))
                    &&& report == (answers.len() == first_question(
                        projects.take(project as int),
                    ))
                },
                Some(Prompt::Project { project, report }) => {
                    &&& project < projects.len()
                    &&& answers.len() == first_question(projects.take(project as int))
                        + surfaced_count(projects[project as int])
                    &&& report == (answers.len() == first_question(
                        projects.take(project as int),
                    ))
                },
            }
        }),
{
    let projects = project_items(inputs.per_project_items@);
    let k = answers.len();
    if prompt_after(inputs, answers) is Some && k > 0 {
        lemma_project_of_question(projects, k);
        let p = project_of_question(projects, k);
        let j = k - first_question(projects.take(p));
        lemma_bound_grows(projects, p + 1);
        assert(projects.take(p + 1).drop_last() =~= projects.take(p));
        assert(projects.take(p + 1).last() == projects[p]);
        if j < surfaced_count(projects[p]) {
            lemma_asked_item(projects[p], j);
        }
    }
    lemma_bound_covers(projects);
}

proof fn lemma_bound_covers(projects: Seq<Seq<crate::clean::Item>>)
    ensures
        projects.len() < question_bound(projects),
    decreases projects.len(),
{
    if projects.len() > 0 {
        lemma_bound_covers(projects.drop_last());
    }
}

proof fn lemma_first_question_grows(projects: Seq<Seq<crate::clean::Item>>, n: int)
    requires
        0 <= n <= projects.len(),
    ensures
        first_question(projects.take(n)) <= first_question(projects),
    decreases projects.len(),
{
    if n < projects.len() {
        assert(projects.drop_last().take(n) =~= projects.take(n));
        lemma_first_question_grows(projects.drop_last(), n);
    } else {
        assert(projects.take(n) =~= projects);
    }
}

proof fn lemma_later_answers(
    items: Seq<crate::clean::Item>,
    answers: Seq<Seq<char>>,
    more: Seq<Seq<char>>,
    at: nat,
)
    requires
        at + surfaced_count(items) <= answers.len(),
    ensures
        agreed_paths(items, answers + more, at) == agreed_paths(items, answers, at),
    decreases items.len(),
{
    if items.len() > 0 {
        lemma_later_answers(items.drop_last(), answers, more, at);
    }
}

/// When there is nothing left to ask, the dialogue has all its answers: more
/// input would change nothing.
pub proof fn a_finished_dialogue_is_settled(
    inputs: InteractiveFlowInputs,
    answers: Seq<Seq<char>>,
    more: Seq<Seq<char>>,
    p: int,
)
    requires
        prompt_after(inputs, answers) is None,
        0 <= p < inputs.per_project_items@.len(),
    ensures
        outcome_at(inputs, answers + more, p) == outcome_at(inputs, answers, p),
{
    let projects = project_items(inputs.per_project_items@);
    if asks(inputs) {
        assert(projects.len() > 0);
        assert(answers.len() > 0);
        assert((answers + more)[0] == answers[0]);
        if is_yes(answers[0]) {
            lemma_first_question_grows(projects, p + 1);
            assert(projects.take(p + 1).drop_last() =~= projects.take(p));
            assert(projects.take(p + 1).last() == projects[p]);
            let at = first_question(projects.take(p));
            lemma_later_answers(projects[p], answers, more, at);
            let k = at + surfaced_count(projects[p]);
            assert((answers + more)[k as int] == answers[k as int]);
        }
    }
}

/// Whether a line is a `y`, in either case, with nothing but white space around it.
pub open spec fn is_a_lone_y(line: Seq<char>) -> bool {
    exists|k: int|
        {
            &&& 0 <= k < line.len()
            &&& (#[trigger] line[k] == 'y' || line[k] == 'Y')
            &&& forall|i: int| 0 <= i < line.len() && i != k ==> crate::text::is_white(
                #[trigger] line[i],
            )
        }
}

/// Nothing but a lone `y` is a yes.
pub proof fn only_a_lone_y_is_a_yes(line: Seq<char>)
    ensures
        is_yes(line) <==> is_a_lone_y(line),
{
    let r = crate::text::trimming_takes_off_white_ends(line);
    let t = crate::text::trimmed(line);
    assert(!crate::text::is_white('y') && !crate::text::is_white('Y'));
    if is_yes(line) {
        assert(t[0] == line[r.0]);
        assert(t.len() == 1);
        assert(line[r.0] == 'y' || line[r.0] == 'Y');
    }
    if is_a_lone_y(line) {
        let k = choose|k: int|
            {
                &&& 0 <= k < line.len()
                &&& (#[trigger] line[k] == 'y' || line[k] == 'Y')
                &&& forall|i: int| 0 <= i < line.len() && i != k ==> crate::text::is_white(
                    #[trigger] line[i],
                )
            };
        assert(r.0 <= k < r.1) by {
            assert(!crate::text::is_white(line[k]));
        }
        assert(!crate::text::is_white(line[r.0]));
        assert(!crate::text::is_white(line[r.1 - 1]));
        assert(r.0 == k && r.1 == k + 1);
        assert(t =~= seq![line[k]]);
    }
}

/// Whether an item is removed: a protected one never, a safe one always, a surfaced one
/// with force or, outside a dry run, where a path with the same components was agreed to.
pub open spec fn is_removed(
    item: crate::clean::Item,
    force: bool,
    dry_run: bool,
    agreed: Seq<Seq<char>>,
) -> bool {
    ||| item.classification == Classification::Safe
    ||| item.classification == Classification::Surfaced && (force || (!dry_run && exists|j: int|
        0 <= j < agreed.len() && crate::paths::parts(#[trigger] agreed[j]) == crate::paths::parts(
            item.rel_path,
        )))
}

proof fn lemma_is_removed(
    item: crate::clean::Item,
    force: bool,
    dry_run: bool,
    agreed: Seq<Seq<char>>,
)
    ensures
        would_go(item, force, dry_run, agreed) == is_removed(item, force, dry_run, agreed),
{
    if crate::paths::holds_path(agreed, item.rel_path) {
        let j = choose|j: int|
            0 <= j < agreed.len() && crate::paths::same_path(#[trigger] agreed[j], item.rel_path);
        assert(crate::paths::parts(agreed[j]) == crate::paths::parts(item.rel_path));
    }
    if exists|j: int|
        0 <= j < agreed.len() && crate::paths::parts(#[trigger] agreed[j]) == crate::paths::parts(
            item.rel_path,
        ) {
        let j = choose|j: int|
            0 <= j < agreed.len() && crate::paths::parts(#[trigger] agreed[j])
                == crate::paths::parts(item.rel_path);
        assert(crate::paths::same_path(agreed[j], item.rel_path));
    }
}

/// The paths to remove are those of the items that are removed, all of them, in order.
pub proof fn every_removed_item_is_among_the_paths(
    items: Seq<crate::clean::Item>,
    force: bool,
    dry_run: bool,
    agreed: Seq<Seq<char>>,
)
    ensures
        doomed_paths(items, force, dry_run, agreed) == items.filter(
            |i: crate::clean::Item| is_removed(i, force, dry_run, agreed),
        ).map_values(|i: crate::clean::Item| i.rel_path),
    decreases items.len(),
{
    reveal(Seq::filter);
    let keep = |i: crate::clean::Item| is_removed(i, force, dry_run, agreed);
    let path = |i: crate::clean::Item| i.rel_path;
    if items.len() > 0 {
        let front = items.drop_last();
        every_removed_item_is_among_the_paths(front, force, dry_run, agreed);
        lemma_is_removed(items.last(), force, dry_run, agreed);
        let before = front.filter(keep);
        if keep(items.last()) {
            assert(before.push(items.last()).map_values(path) =~= before.map_values(path).push(
                items.last().rel_path,
            ));
        }
    } else {
        assert(items.filter(keep).map_values(path) =~= Seq::<Seq<char>>::empty());
    }
}

/// The surfaced items, in order.
pub open spec fn surfaced_items(items: Seq<crate::clean::Item>) -> Seq<crate::clean::Item> {
    items.filter(|i: crate::clean::Item| i.classification == Classification::Surfaced)
}

/// There is one question for the whole run, and for each project one for every surfaced
/// item and one for the project.
pub proof fn questions_are_counted(
    projects: Seq<Seq<crate::clean::Item>>,
    items: Seq<crate::clean::Item>,
)
    ensures
        surfaced_count(items) == surfaced_items(items).len(),
        first_question(Seq::empty()) == 1,
        first_question(projects.push(items)) == first_question(projects) + surfaced_items(
            items,
        ).len() + 1,
    decreases items.len(),
{
    reveal(Seq::filter);
    if items.len() > 0 {
        questions_are_counted(projects, items.drop_last());
    }
    assert(projects.push(items).drop_last() =~= projects);
}

/// Whether question `k` got a lone `y`.
pub open spec fn got_a_yes(answers: Seq<Seq<char>>, k: nat) -> bool {
    k < answers.len() && is_a_lone_y(answers[k as int])
}

/// Whether some surfaced item at this path got a yes to its own question.
pub open spec fn is_agreed(
    items: Seq<crate::clean::Item>,
    answers: Seq<Seq<char>>,
    at: nat,
    path: Seq<char>,
) -> bool {
    exists|i: int|
        0 <= i < items.len() && (#[trigger] items[i]).classification == Classification::Surfaced
            && items[i].rel_path == path && got_a_yes(
            answers,
            at + surfaced_items(items.take(i)).len(),
        )
}

/// What was agreed to are the paths of the surfaced items whose own question got a yes,
/// and no others: the question of a surfaced item is the one behind those of the
/// surfaced items before it.
pub proof fn agreement_goes_by_each_items_own_question(
    items: Seq<crate::clean::Item>,
    answers: Seq<Seq<char>>,
    at: nat,
)
    ensures
        forall|i: int|
            0 <= i < items.len() && (#[trigger] items[i]).classification
                == Classification::Surfaced && got_a_yes(
                answers,
                at + surfaced_items(items.take(i)).len(),
            ) ==> agreed_paths(items, answers, at).contains(items[i].rel_path),
        forall|k: int|
            0 <= k < agreed_paths(items, answers, at).len() ==> is_agreed(
                items,
                answers,
                at,
                #[trigger] agreed_paths(items, answers, at)[k],
            ),
    decreases items.len(),
{
    let all = agreed_paths(items, answers, at);
    if items.len() > 0 {
        let front = items.drop_last();
        let last = items.len() - 1;
        agreement_goes_by_each_items_own_question(front, answers, at);
        let before = agreed_paths(front, answers, at);
        questions_are_counted(Seq::empty(), front);
        let q = at + surfaced_count(front);
        if q < answers.len() {
            only_a_lone_y_is_a_yes(answers[q as int]);
        }
        assert(items.take(last) =~= front);
        assert forall|i: int|
            0 <= i < items.len() && (#[trigger] items[i]).classification
                == Classification::Surfaced && got_a_yes(
                answers,
                at + surfaced_items(items.take(i)).len(),
            ) implies all.contains(items[i].rel_path) by {
            if i < last {
                assert(front[i] == items[i]);
                assert(front.take(i) =~= items.take(i));
                let k = choose|k: int| 0 <= k < before.len() && before[k] == items[i].rel_path;
                assert(all[k] == items[i].rel_path);
            } else {
                assert(all[all.len() - 1] == items[i].rel_path);
            }
        }
        assert forall|k: int| 0 <= k < all.len() implies is_agreed(
            items,
            answers,
            at,
            #[trigger] all[k],
        ) by {
            if k < before.len() {
                assert(all[k] == before[k]);
                let path = before[k];
                assert(is_agreed(front, answers, at, path));
                let i = choose|i: int|
                    0 <= i < front.len() && (#[trigger] front[i]).classification
                        == Classification::Surfaced && front[i].rel_path == path && got_a_yes(
                        answers,
                        at + surfaced_items(front.take(i)).len(),
                    );
                assert(front.take(i) =~= items.take(i));
                assert(items[i] == front[i]);
            } else {
                assert(items[last].rel_path == all[k]);
            }
        }
    }
}

/// Where the user is asked, a project is approved exactly when both the question about
/// the run and the project's own got a yes, and nothing surfaced is agreed to unless the
/// run was; with force or in a dry run nobody is asked and every project is approved.
pub proof fn approval_is_both_answers(
    inputs: InteractiveFlowInputs,
    answers: Seq<Seq<char>>,
    p: int,
)
    requires
        0 <= p < inputs.per_project_items@.len(),
    ensures
        ({
            let projects = project_items(inputs.per_project_items@);
            let out = outcome_at(inputs, answers, p);
            &&& out.path == inputs.per_project_items@[p].0@
            &&& out.items == crate::clean::item_views(inputs.per_project_items@[p].1@)
            &&& (inputs.force || inputs.dry_run) ==> out.project_approved
            &&& !inputs.force && !inputs.dry_run ==> (out.project_approved <==> got_a_yes(
                answers,
                0,
            ) && got_a_yes(
                answers,
                first_question(projects.take(p)) + surfaced_items(projects[p]).len(),
            ))
            &&& out.would_delete == projects[p].filter(
                |i: crate::clean::Item|
                    is_removed(i, inputs.force, inputs.dry_run, agreed_in(inputs, answers, p)),
            ).map_values(|i: crate::clean::Item| i.rel_path)
            &&& inputs.force || inputs.dry_run || !got_a_yes(answers, 0) ==> agreed_in(
                inputs,
                answers,
                p,
            ) == Seq::<Seq<char>>::empty()
            &&& !inputs.force && !inputs.dry_run && got_a_yes(answers, 0) ==> agreed_in(
                inputs,
                answers,
                p,
            ) == agreed_paths(projects[p], answers, first_question(projects.take(p)))
        }),
{
    let projects = project_items(inputs.per_project_items@);
    questions_are_counted(Seq::empty(), projects[p]);
    if answers.len() > 0 {
        only_a_lone_y_is_a_yes(answers[0]);
    }
    let q = first_question(projects.take(p)) + surfaced_count(projects[p]);
    if q < answers.len() {
        only_a_lone_y_is_a_yes(answers[q as int]);
    }
    every_removed_item_is_among_the_paths(
        projects[p],
        inputs.force,
        inputs.dry_run,
        agreed_in(inputs, answers, p),
    );
}

/// The status of a project is that of the first one at a path with the same components.
pub proof fn a_status_is_that_of_the_first_at_the_path(
    projects: Seq<(String, Status)>,
    path: Seq<char>,
    n: int,
)
    requires
        0 <= n < projects.len(),
        crate::paths::parts(projects[n].0@) == crate::paths::parts(path),
        forall|i: int|
            0 <= i < n ==> crate::paths::parts((#[trigger] projects[i]).0@) != crate::paths::parts(
                path,
            ),
    ensures
        status_at(projects, path) == projects[n].1,
    decreases projects.len(),
{
    if n > 0 {
        assert(projects[0].0@ == projects[0].0@);
        let rest = projects.skip(1);
        assert forall|i: int| 0 <= i < n - 1 implies crate::paths::parts(
            (#[trigger] rest[i]).0@,
        ) != crate::paths::parts(path) by {
            assert(rest[i] == projects[i + 1]);
        }
        a_status_is_that_of_the_first_at_the_path(rest, path, n - 1);
    }
}

/// Every surfaced item is asked about once, in order, with the answer that its question
/// got.
pub proof fn every_surfaced_item_is_asked_about(
    items: Seq<crate::clean::Item>,
    answers: Seq<Seq<char>>,
)
    ensures
        item_answers(items, answers).len() == surfaced_items(items).len(),
        forall|j: int|
            0 <= j < surfaced_items(items).len() ==> item_answers(items, answers)[j] == (
                (#[trigger] surfaced_items(items)[j]).rel_path,
                got_a_yes(answers, j as nat),
            ),
    decreases items.len(),
{
    reveal(Seq::filter);
    if items.len() > 0 {
        let front = items.drop_last();
        every_surfaced_item_is_asked_about(front, answers);
        questions_are_counted(Seq::empty(), front);
        let had = surfaced_items(front);
        let q = surfaced_count(front);
        if q < answers.len() {
            only_a_lone_y_is_a_yes(answers[q as int]);
        }
        let all = item_answers(items, answers);
        let now = surfaced_items(items);
        assert forall|j: int| 0 <= j < now.len() implies all[j] == (
            (#[trigger] now[j]).rel_path,
            got_a_yes(answers, j as nat),
        ) by {
            if j < had.len() {
                assert(now[j] == had[j]);
            }
        }
    }
}

/// The dialogue is over exactly when nothing is to be asked, the run was declined, or every
/// question has its answer.
pub proof fn the_dialogue_ends_when_all_is_answered(
    inputs: InteractiveFlowInputs,
    answers: Seq<Seq<char>>,
)
    ensures
        prompt_after(inputs, answers) is None <==> inputs.force || inputs.dry_run
            || inputs.per_project_items@.len() == 0 || (answers.len() > 0 && !is_a_lone_y(
            answers[0],
        )) || (answers.len() > 0 && answers.len() >= first_question(
            project_items(inputs.per_project_items@),
        )),
{
    if answers.len() > 0 {
        only_a_lone_y_is_a_yes(answers[0]);
    }
}

/// A report on a project has a line for every item, in order, that starts with its path
/// and ends with what will become of it.
pub proof fn reports_list_every_item(path: Seq<char>, items: Seq<crate::clean::Item>, i: int)
    requires
        0 <= i < items.len(),
    ensures
        project_report(path, items).len() == items.len() + 2,
        ({
            let line = project_report(path, items)[i + 2];
            let end = if items[i].classification == Classification::Protected {
                "(kept)"@
            } else if items[i].classification == Classification::Safe {
                "(will delete)"@
            } else {
                "(needs approval)"@
            };
            &&& ("  "@ + items[i].rel_path).is_prefix_of(line)
            &&& line.len() >= end.len() && line.skip(line.len() - end.len()) == end
        }),
{
    reveal_strlit("] (");
    reveal_strlit(")");
    reveal_strlit("kept");
    reveal_strlit("will delete");
    reveal_strlit("needs approval");
    reveal_strlit("(kept)");
    reveal_strlit("(will delete)");
    reveal_strlit("(needs approval)");
    let line = project_report(path, items)[i + 2];
    assert(line == report_line(items[i]));
    let start = "  "@ + items[i].rel_path;
    assert(start =~= line.subrange(0, start.len() as int));
    let end = if items[i].classification == Classification::Protected {
        "(kept)"@
    } else if items[i].classification == Classification::Safe {
        "(will delete)"@
    } else {
        "(needs approval)"@
    };
    assert(line.skip(line.len() - end.len()) =~= end);
}

/// Every status, and every class of item, has words of its own.
pub proof fn words_tell_statuses_and_classes_apart(
    a: Status,
    b: Status,
    c: Classification,
    d: Classification,
)
    ensures
        a != b ==> reason_of(a) != reason_of(b),
        a != b ==> crate::classify::label_of(a) != crate::classify::label_of(b),
        c != d ==> review_label(c) != review_label(d),
        c != d ==> prospect(c) != prospect(d),
        c != d ==> crate::json::classification_name(c) != crate::json::classification_name(d),
        refusal_reason(a, true) == reason_of(a),
        a != Status::Unpushed ==> refusal_reason(a, false) == reason_of(a),
        refusal_reason(Status::Unpushed, false) != reason_of(Status::Unpushed),
{
    reveal_strlit("not git-initialized");
    reveal_strlit("no remote configured");
    reveal_strlit("has unpushed commits");
    reveal_strlit("uncommitted work in progress");
    reveal_strlit("nothing committed yet");
    reveal_strlit("no-git");
    reveal_strlit("no-remote");
    reveal_strlit("unpushed");
    reveal_strlit("wip");
    reveal_strlit("cleanable");
    reveal_strlit("clean");
    reveal_strlit("protected");
    reveal_strlit("safe-to-delete");
    reveal_strlit("surfaced");
    reveal_strlit("safe");
    reveal_strlit("kept");
    reveal_strlit("will delete");
    reveal_strlit("needs approval");
    assert(reason_of(a) == reason_of(b) ==> reason_of(a).len() == reason_of(b).len()
        && reason_of(a)[0] == reason_of(b)[0]);
    let (x, y) = (crate::classify::label_of(a), crate::classify::label_of(b));
    assert(x == y ==> x.len() == y.len() && x[0] == y[0]);
    assert(review_label(c) == review_label(d) ==> review_label(c).len() == review_label(d).len());
    assert(prospect(c) == prospect(d) ==> prospect(c).len() == prospect(d).len());
    assert(refusal_reason(Status::Unpushed, false).len() != reason_of(Status::Unpushed).len());
    let (x, y) = (crate::json::classification_name(c), crate::json::classification_name(d));
    assert(x == y ==> x.len() == y.len());
}

/// A result stands for what it holds, and a list of results for all of them in order.
pub proof fn results_stand_for_what_they_hold(v: Seq<ProjectResult>, i: int)
    requires
        0 <= i < v.len(),
    ensures
        outcomes(v).len() == v.len(),
        outcomes(v)[i].path == v[i].path@,
        outcomes(v)[i].status == v[i].status,
        outcomes(v)[i].items == v[i].items@.map_values(|item: CleanItem| item@),
        outcomes(v)[i].would_delete == v[i].would_delete@.map_values(|s: String| s@),
        outcomes(v)[i].project_approved == v[i].project_approved,
{
}

} // verus!
