//! The survey of projects: sorted by severity, counted, sized, and listed.

use vstd::prelude::*;

use crate::classify::Status;
use crate::disk::format_size;
use crate::json::{ClassificationResult, Envelope, ListResult, ProjectRow};
use crate::output::{
    format_project_row, format_summary, home_dir, project_table_in, projects_word,
    stdout_color_enabled, stdout_terminal_ui_enabled, wrap_line, ProjectTableRow, Terminal,
};
use crate::text::{cat2, cat3, decimal_text, push_line, push_lines};

verus! {

/// A project that was classified and, if it is cleanable, sized.
pub struct SurveyRow {
    pub path: String,
    pub status: Status,
    /// What cleaning would free, where that was measured (see [`reclaimable`]).
    pub bytes: Option<u64>,
}

/// The value of a [`SurveyRow`].
pub struct Surveyed {
    pub path: Seq<char>,
    pub status: Status,
    pub bytes: Option<u64>,
}

impl View for SurveyRow {
    type V = Surveyed;

    open spec fn view(&self) -> Surveyed {
        Surveyed { path: self.path@, status: self.status, bytes: self.bytes }
    }
}

/// The values of a sequence of rows.
pub open spec fn row_views(v: Seq<SurveyRow>) -> Seq<Surveyed> {
    v.map_values(|r: SurveyRow| r@)
}

/// What cleaning a project would free, as far as it was measured. Only a
/// cleanable project is sized: whatever a row of another status carries does
/// not count.
pub open spec fn reclaimable(row: Surveyed) -> Option<u64> {
    if row.status == Status::Cleanable {
        row.bytes
    } else {
        None
    }
}

/// Whether a project with this status is sized.
pub fn is_sized(status: Status) -> (r: bool)
    ensures
        r == (status == Status::Cleanable),
{
    status == Status::Cleanable
}

fn reclaimable_of(row: &SurveyRow) -> (r: Option<u64>)
    ensures
        r == reclaimable(row@),
{
    if is_sized(row.status) {
        row.bytes
    } else {
        None
    }
}

/// The rows with this status, in order.
pub open spec fn of_status(rows: Seq<Surveyed>, status: Status) -> Seq<Surveyed>
    decreases rows.len(),
{
    if rows.len() == 0 {
        Seq::empty()
    } else {
        let before = of_status(rows.drop_last(), status);
        if rows.last().status == status {
            before.push(rows.last())
        } else {
            before
        }
    }
}

/// The rows sorted by severity, most severe first. Rows with the same status
/// keep their order.
pub open spec fn by_severity(rows: Seq<Surveyed>) -> Seq<Surveyed> {
    of_status(rows, Status::NoGit) + of_status(rows, Status::NoRemote) + of_status(
        rows,
        Status::Unpushed,
    ) + of_status(rows, Status::Wip) + of_status(rows, Status::Cleanable) + of_status(
        rows,
        Status::Clean,
    )
}

fn copy_row(row: &SurveyRow) -> (out: SurveyRow)
    ensures
        out@ == row@,
{
    SurveyRow { path: row.path.clone(), status: row.status, bytes: row.bytes }
}

fn push_status(out: &mut Vec<SurveyRow>, rows: &[SurveyRow], status: Status)
    ensures
        row_views(final(out)@) == row_views(old(out)@) + of_status(row_views(rows@), status),
{
    let ghost all = row_views(rows@);
    let ghost had = row_views(out@);
    let mut i: usize = 0;
    assert(had + of_status(all.take(0), status) =~= had);
    while i < rows.len()
        invariant
            i <= rows@.len(),
            all == row_views(rows@),
            row_views(out@) == had + of_status(all.take(i as int), status),
        decreases rows@.len() - i,
    {
        assert(all.take(i + 1).drop_last() =~= all.take(i as int));
        assert(all.take(i + 1).last() == rows@[i as int]@);
        if rows[i].status == status {
            let ghost before = row_views(out@);
            let row = copy_row(&rows[i]);
            let ghost r = row@;
            out.push(row);
            assert(row_views(out@) =~= before.push(r));
            assert(before.push(r) =~= had + of_status(all.take(i + 1), status));
        }
        i = i + 1;
    }
    assert(all.take(i as int) =~= all);
}

/// The rows sorted by severity, most severe first. Rows with the same status
/// keep their order.
pub fn sort_by_status(rows: &[SurveyRow]) -> (out: Vec<SurveyRow>)
    ensures
        row_views(out@) == by_severity(row_views(rows@)),
{
    let ghost all = row_views(rows@);
    let mut out: Vec<SurveyRow> = Vec::new();
    assert(row_views(out@) =~= Seq::<Surveyed>::empty());
    push_status(&mut out, rows, Status::NoGit);
    assert(row_views(out@) =~= of_status(all, Status::NoGit));
    push_status(&mut out, rows, Status::NoRemote);
    push_status(&mut out, rows, Status::Unpushed);
    push_status(&mut out, rows, Status::Wip);
    push_status(&mut out, rows, Status::Cleanable);
    push_status(&mut out, rows, Status::Clean);
    out
}

/// The statuses of rows.
pub open spec fn statuses_of(rows: Seq<Surveyed>) -> Seq<Status> {
    rows.map_values(|r: Surveyed| r.status)
}

/// The positions of a status among statuses, in order.
pub open spec fn positions_of(statuses: Seq<Status>, status: Status) -> Seq<int>
    decreases statuses.len(),
{
    if statuses.len() == 0 {
        Seq::empty()
    } else {
        let before = positions_of(statuses.drop_last(), status);
        if statuses.last() == status {
            before.push(statuses.len() - 1)
        } else {
            before
        }
    }
}

/// The positions of statuses, sorted by severity.
pub open spec fn severity_positions(statuses: Seq<Status>) -> Seq<int> {
    positions_of(statuses, Status::NoGit) + positions_of(statuses, Status::NoRemote) + positions_of(
        statuses,
        Status::Unpushed,
    ) + positions_of(statuses, Status::Wip) + positions_of(statuses, Status::Cleanable)
        + positions_of(statuses, Status::Clean)
}

/// Positions as whole numbers.
pub open spec fn as_ints(v: Seq<usize>) -> Seq<int> {
    v.map_values(|i: usize| i as int)
}

fn push_positions(out: &mut Vec<usize>, statuses: &[Status], status: Status)
    ensures
        as_ints(final(out)@) == as_ints(old(out)@) + positions_of(statuses@, status),
{
    let ghost had = as_ints(out@);
    let mut i: usize = 0;
    assert(had + positions_of(statuses@.take(0), status) =~= had);
    while i < statuses.len()
        invariant
            i <= statuses@.len(),
            as_ints(out@) == had + positions_of(statuses@.take(i as int), status),
        decreases statuses@.len() - i,
    {
        assert(statuses@.take(i + 1).drop_last() =~= statuses@.take(i as int));
        if statuses[i] == status {
            let ghost before = as_ints(out@);
            out.push(i);
            assert(as_ints(out@) =~= before.push(i as int));
            assert(before.push(i as int) =~= had + positions_of(statuses@.take(i + 1), status));
        }
        i = i + 1;
    }
    assert(statuses@.take(i as int) =~= statuses@);
}

/// The order in which projects with these statuses are reported: their
/// positions, sorted by severity.
pub fn severity_order(statuses: &[Status]) -> (out: Vec<usize>)
    ensures
        as_ints(out@) == severity_positions(statuses@),
{
    let mut out: Vec<usize> = Vec::new();
    assert(as_ints(out@) =~= Seq::<int>::empty());
    push_positions(&mut out, statuses, Status::NoGit);
    assert(as_ints(out@) =~= positions_of(statuses@, Status::NoGit));
    push_positions(&mut out, statuses, Status::NoRemote);
    push_positions(&mut out, statuses, Status::Unpushed);
    push_positions(&mut out, statuses, Status::Wip);
    push_positions(&mut out, statuses, Status::Cleanable);
    push_positions(&mut out, statuses, Status::Clean);
    out
}

/// How many rows are cleanable.
pub open spec fn cleanable(rows: Seq<Surveyed>) -> nat
    decreases rows.len(),
{
    if rows.len() == 0 {
        0
    } else {
        cleanable(rows.drop_last()) + if rows.last().status == Status::Cleanable {
            1nat
        } else {
            0nat
        }
    }
}

/// How many rows are cleanable.
pub fn cleanable_count(rows: &[SurveyRow]) -> (n: usize)
    ensures
        n == cleanable(row_views(rows@)),
        n <= rows@.len(),
{
    let ghost all = row_views(rows@);
    let mut n: usize = 0;
    let mut i: usize = 0;
    while i < rows.len()
        invariant
            i <= rows@.len(),
            all == row_views(rows@),
            n == cleanable(all.take(i as int)),
            n <= i,
        decreases rows@.len() - i,
    {
        assert(all.take(i + 1).drop_last() =~= all.take(i as int));
        assert(all.take(i + 1).last() == rows@[i as int]@);
        if rows[i].status == Status::Cleanable {
            n = n + 1;
        }
        i = i + 1;
    }
    assert(all.take(i as int) =~= all);
    n
}

/// What cleaning would free in all, as far as it was measured.
pub open spec fn bytes_in_all(rows: Seq<Surveyed>) -> nat
    decreases rows.len(),
{
    if rows.len() == 0 {
        0
    } else {
        bytes_in_all(rows.drop_last()) + match reclaimable(rows.last()) {
            Some(n) => n as nat,
            None => 0,
        }
    }
}

proof fn lemma_bytes_grow(rows: Seq<Surveyed>, n: int)
    requires
        0 <= n <= rows.len(),
    ensures
        bytes_in_all(rows.take(n)) <= bytes_in_all(rows),
    decreases rows.len(),
{
    if n < rows.len() {
        assert(rows.drop_last().take(n) =~= rows.take(n));
        lemma_bytes_grow(rows.drop_last(), n);
    } else {
        assert(rows.take(n) =~= rows);
    }
}

/// What cleaning would free in all; `None` where that is more than a `u64`
/// holds.
pub fn total_reclaimable(rows: &[SurveyRow]) -> (r: Option<u64>)
    ensures
        match r {
            Some(n) => n == bytes_in_all(row_views(rows@)),
            None => bytes_in_all(row_views(rows@)) > u64::MAX,
        },
{
    let ghost all = row_views(rows@);
    let mut total: u64 = 0;
    let mut i: usize = 0;
    while i < rows.len()
        invariant
            i <= rows@.len(),
            all == row_views(rows@),
            total == bytes_in_all(all.take(i as int)),
        decreases rows@.len() - i,
    {
        assert(all.take(i + 1).drop_last() =~= all.take(i as int));
        assert(all.take(i + 1).last() == rows@[i as int]@);
        if let Some(n) = reclaimable_of(&rows[i]) {
            if total > u64::MAX - n {
                proof {
                    lemma_bytes_grow(all, i + 1);
                }
                return None;
            }
            total = total + n;
        }
        i = i + 1;
    }
    assert(all.take(i as int) =~= all);
    Some(total)
}

/// A total in words; nothing is said of zero.
pub open spec fn total_words(total: nat) -> Option<Seq<char>> {
    if total > 0 {
        Some(crate::disk::size_text(total, 2))
    } else {
        None
    }
}

/// A total in words; nothing is said of zero.
pub fn total_text(total: u64) -> (r: Option<String>)
    ensures
        crate::text::opt_text(r) == total_words(total as nat),
{
    if total > 0 {
        Some(format_size(total))
    } else {
        None
    }
}

/// Whether a document row says what a surveyed row does.
pub open spec fn documents(doc: ProjectRow, row: Surveyed) -> bool {
    &&& doc.path@ == row.path
    &&& doc.status@ == crate::classify::label_of(row.status)
    &&& doc.rank == crate::classify::rank_of(row.status)
    &&& doc.reclaimable_bytes == reclaimable(row)
}

/// Whether document rows say what surveyed rows do, in their order.
pub open spec fn all_documented(docs: Seq<ProjectRow>, rows: Seq<Surveyed>) -> bool {
    docs.len() == rows.len() && forall|i: int|
        0 <= i < rows.len() ==> documents(#[trigger] docs[i], rows[i])
}

fn document_rows(rows: &[SurveyRow]) -> (out: Vec<ProjectRow>)
    ensures
        all_documented(out@, row_views(rows@)),
{
    let mut out: Vec<ProjectRow> = Vec::new();
    let ghost all = row_views(rows@);
    let mut i: usize = 0;
    while i < rows.len()
        invariant
            i <= rows@.len(),
            all == row_views(rows@),
            out@.len() == i,
            forall|k: int| 0 <= k < i ==> documents(#[trigger] out@[k], all[k]),
        decreases rows@.len() - i,
    {
        let row = &rows[i];
        out.push(
            ProjectRow {
                path: row.path.clone(),
                status: crate::json::status_label(row.status),
                rank: row.status.rank(),
                reclaimable_bytes: reclaimable_of(row),
            },
        );
        i = i + 1;
    }
    out
}

/// The document of `list`: every project by severity with its status and, if it
/// was sized, what cleaning it would free; and the totals.
pub fn json_listing(command: &'static str, rows: &[SurveyRow]) -> (e: Envelope<ListResult>)
    requires
        bytes_in_all(row_views(rows@)) <= u64::MAX,
    ensures
        e.version == crate::json::VERSION,
        e.command == command,
        e.ok,
        e.error is None,
        e.result is Some,
        ({
            let sorted = by_severity(row_views(rows@));
            let result = e.result->0;
            &&& all_documented(result.projects@, sorted)
            &&& result.cleanable_count == cleanable(sorted)
            &&& result.total_reclaimable_bytes == bytes_in_all(sorted)
        }),
{
    let sorted = sort_by_status(rows);
    proof {
        sorting_changes_no_totals(row_views(rows@));
    }
    let projects = document_rows(sorted.as_slice());
    let count: usize = cleanable_count(sorted.as_slice());
    let total: u64 = match total_reclaimable(sorted.as_slice()) {
        Some(n) => n,
        None => 0,
    };
    crate::json::ok(
        command,
        ListResult { projects, cleanable_count: count, total_reclaimable_bytes: total },
    )
}

/// The document of `classification`: every project by severity with its
/// status. Nothing is sized for it.
pub fn json_classification(command: &'static str, rows: &[SurveyRow]) -> (e: Envelope<
    ClassificationResult,
>)
    ensures
        e.version == crate::json::VERSION,
        e.command == command,
        e.ok,
        e.error is None,
        e.result is Some,
        all_documented(e.result->0.projects@, by_severity(unsized_rows(row_views(rows@)))),
{
    let bare = without_sizes(rows);
    let sorted = sort_by_status(bare.as_slice());
    let projects = document_rows(sorted.as_slice());
    crate::json::ok(command, ClassificationResult { projects })
}

/// The rows with nothing measured.
pub open spec fn unsized_rows(rows: Seq<Surveyed>) -> Seq<Surveyed> {
    rows.map_values(|r: Surveyed| Surveyed { bytes: None, ..r })
}

fn without_sizes(rows: &[SurveyRow]) -> (out: Vec<SurveyRow>)
    ensures
        row_views(out@) == unsized_rows(row_views(rows@)),
{
    let mut out: Vec<SurveyRow> = Vec::new();
    let ghost all = unsized_rows(row_views(rows@));
    let mut i: usize = 0;
    assert(row_views(out@) =~= all.take(0));
    while i < rows.len()
        invariant
            i <= rows@.len(),
            all == unsized_rows(row_views(rows@)),
            row_views(out@) == all.take(i as int),
        decreases rows@.len() - i,
    {
        let ghost before = row_views(out@);
        out.push(SurveyRow { path: rows[i].path.clone(), status: rows[i].status, bytes: None });
        assert(row_views(out@) =~= before.push(all[i as int]));
        i = i + 1;
        assert(before.push(all[i - 1]) =~= all.take(i as int));
    }
    assert(all.take(i as int) =~= all);
    out
}

/// The lines of `classification`.
pub open spec fn classification_lines(rows: Seq<Surveyed>) -> Seq<Seq<char>> {
    seq![
        "classification: "@ + crate::text::decimal(rows.len())
            + " project(s), sorted by severity"@,
    ] + rows.map_values(|r: Surveyed| classification_line(r))
}

/// The line of a project in `classification`.
pub open spec fn classification_line(r: Surveyed) -> Seq<char> {
    "  ["@ + crate::text::decimal(crate::classify::rank_of(r.status) as nat) + "] "@ + r.path
        + " -> "@ + crate::classify::label_of(r.status)
}

/// What `classification` prints. `found` is how many projects discovery found;
/// those whose rules could not be read have no row.
pub fn run_classification(found: usize, rows: &[SurveyRow]) -> (out: Vec<String>)
    ensures
        crate::text::texts(out@) == if found == 0 {
            seq!["classification: no projects found"@]
        } else {
            classification_lines(by_severity(row_views(rows@)))
        },
{
    let mut out: Vec<String> = Vec::new();
    if found == 0 {
        push_line(&mut out, "classification: no projects found".to_owned());
        assert(crate::text::texts(out@) =~= seq!["classification: no projects found"@]);
        return out;
    }
    let sorted = sort_by_status(rows);
    let ghost all = row_views(sorted@);
    let n = decimal_text(sorted.len() as u64);
    push_line(
        &mut out,
        cat3("classification: ", n.as_str(), " project(s), sorted by severity"),
    );
    let ghost head = seq![
        "classification: "@ + crate::text::decimal(all.len()) + " project(s), sorted by severity"@,
    ];
    let ghost lines = all.map_values(|r: Surveyed| classification_line(r));
    let mut i: usize = 0;
    assert(crate::text::texts(out@) =~= head + lines.take(0));
    while i < sorted.len()
        invariant
            i <= sorted@.len(),
            all == row_views(sorted@),
            lines == all.map_values(|r: Surveyed| classification_line(r)),
            crate::text::texts(out@) == head + lines.take(i as int),
        decreases sorted@.len() - i,
    {
        let row = &sorted[i];
        let rank = decimal_text(row.status.rank() as u64);
        let mut line = cat3("  [", rank.as_str(), "] ");
        line.append(row.path.as_str());
        line.append(" -> ");
        line.append(row.status.label());
        let ghost before = crate::text::texts(out@);
        assert(lines[i as int] == line@);
        push_line(&mut out, line);
        i = i + 1;
        assert(before.push(lines[i - 1]) =~= head + lines.take(i as int));
    }
    assert(lines.take(i as int) =~= lines);
    out
}

/// A size in words, where there is one.
pub open spec fn size_words(bytes: Option<u64>) -> Option<Seq<char>> {
    match bytes {
        Some(n) => Some(crate::disk::size_text(n as nat, 2)),
        None => None,
    }
}

fn size_of_row(row: &SurveyRow) -> (r: Option<String>)
    ensures
        crate::text::opt_text(r) == size_words(reclaimable(row@)),
{
    match reclaimable_of(row) {
        Some(n) => Some(format_size(n)),
        None => None,
    }
}

/// How many cleanable rows the summary speaks of: it is silent on none.
pub open spec fn count_words(rows: Seq<Surveyed>) -> Option<usize> {
    if cleanable(rows) > 0 {
        Some(cleanable(rows) as usize)
    } else {
        None
    }
}

/// The summary above plain rows.
pub open spec fn plain_summary(rows: Seq<Surveyed>, colors: bool) -> Seq<char> {
    crate::style::painted(
        crate::output::summary_text(
            rows.len(),
            count_words(rows),
            total_words(bytes_in_all(rows)),
        ),
        crate::style::TextStyle::Bold,
        colors,
    )
}

/// The summary above plain rows on this terminal.
pub fn summary_line(rows: &[SurveyRow], t: &Terminal) -> (out: String)
    requires
        bytes_in_all(row_views(rows@)) <= u64::MAX,
    ensures
        out@ == plain_summary(row_views(rows@), crate::output::rows_are_colored(*t)),
{
    let count: usize = cleanable_count(rows);
    let total: u64 = match total_reclaimable(rows) {
        Some(n) => n,
        None => 0,
    };
    let words = total_text(total);
    let size = match &words {
        Some(s) => Some(s.as_str()),
        None => None,
    };
    let shown: Option<usize> = if count > 0 {
        Some(count)
    } else {
        None
    };
    format_summary(rows.len(), None, shown, size, t)
}

/// The plain row of a surveyed project.
pub open spec fn plain_row(r: Surveyed, colors: bool) -> Seq<char> {
    crate::output::row_text(r.path, r.status, colors, size_words(reclaimable(r)))
}

/// The plain row of a surveyed project on this terminal.
pub fn row_line(row: &SurveyRow, t: &Terminal) -> (out: String)
    ensures
        out@ == plain_row(row@, crate::output::rows_are_colored(*t)),
{
    let words = size_of_row(row);
    let size = match &words {
        Some(s) => Some(s.as_str()),
        None => None,
    };
    format_project_row(row.path.as_str(), row.status, None, size, t)
}

/// The plain listing: the summary, and a row for each project.
pub open spec fn plain_listing(rows: Seq<Surveyed>, colors: bool) -> Seq<Seq<char>> {
    seq![plain_summary(rows, colors)] + rows.map_values(|r: Surveyed| plain_row(r, colors))
}

fn plain_lines(rows: &[SurveyRow], t: &Terminal) -> (out: Vec<String>)
    requires
        bytes_in_all(row_views(rows@)) <= u64::MAX,
    ensures
        crate::text::texts(out@) == plain_listing(
            row_views(rows@),
            crate::output::rows_are_colored(*t),
        ),
{
    let ghost all = row_views(rows@);
    let ghost colors = crate::output::rows_are_colored(*t);
    let ghost head = seq![plain_summary(all, colors)];
    let ghost lines = all.map_values(|r: Surveyed| plain_row(r, colors));
    let mut out: Vec<String> = Vec::new();
    push_line(&mut out, summary_line(rows, t));
    let mut i: usize = 0;
    assert(crate::text::texts(out@) =~= head + lines.take(0));
    while i < rows.len()
        invariant
            i <= rows@.len(),
            all == row_views(rows@),
            colors == crate::output::rows_are_colored(*t),
            lines == all.map_values(|r: Surveyed| plain_row(r, colors)),
            crate::text::texts(out@) == head + lines.take(i as int),
        decreases rows@.len() - i,
    {
        let ghost before = crate::text::texts(out@);
        let line = row_line(&rows[i], t);
        assert(lines[i as int] == line@);
        push_line(&mut out, line);
        i = i + 1;
        assert(before.push(lines[i - 1]) =~= head + lines.take(i as int));
    }
    assert(lines.take(i as int) =~= lines);
    out
}

/// The labels that git gives the rows of a table: the branch of each, and when
/// it last changed.
pub struct TableLabels {
    pub branches: Vec<String>,
    pub changed: Vec<String>,
}

/// The rows of the table.
pub open spec fn table_rows(
    rows: Seq<Surveyed>,
    branches: Seq<Seq<char>>,
    changed: Seq<Seq<char>>,
) -> Seq<crate::output::TableRow> {
    Seq::new(
        rows.len(),
        |i: int|
            crate::output::TableRow {
                path: rows[i].path,
                status: rows[i].status,
                size: size_words(reclaimable(rows[i])),
                branch: Some(branches[i]),
                changed: Some(changed[i]),
            },
    )
}

/// The line above the table. A run on one named project scanned nothing.
pub open spec fn table_title(count: nat, targeted: bool) -> Seq<char> {
    "⟩ "@ + if targeted {
        "inspected the requested project"@
    } else {
        "scanned configured workspaces"@
    } + " · "@ + crate::text::decimal(count) + " "@ + crate::output::projects_noun(count)
}

/// The table of surveyed projects, with its title.
pub open spec fn workspace_table(
    rows: Seq<Surveyed>,
    branches: Seq<Seq<char>>,
    changed: Seq<Seq<char>>,
    targeted: bool,
    w: nat,
    home: Option<Seq<char>>,
    colors: bool,
) -> Seq<Seq<char>> {
    crate::layout::wrapped(table_title(rows.len(), targeted), w) + crate::output::table_lines(
        table_rows(rows, branches, changed),
        cleanable(rows),
        total_words(bytes_in_all(rows)),
        w,
        home,
        colors,
    )
}

/// The table of surveyed projects, with its title, for a user with this home
/// directory.
pub fn workspace_table_in(
    rows: &[SurveyRow],
    labels: &TableLabels,
    targeted: bool,
    w: usize,
    home: Option<&str>,
    colors: bool,
) -> (out: Vec<String>)
    requires
        labels.branches@.len() == rows@.len(),
        labels.changed@.len() == rows@.len(),
        bytes_in_all(row_views(rows@)) <= u64::MAX,
    ensures
        crate::text::texts(out@) == workspace_table(
            row_views(rows@),
            crate::text::texts(labels.branches@),
            crate::text::texts(labels.changed@),
            targeted,
            w as nat,
            crate::text::str_text(home),
            colors,
        ),
{
    let ghost all = row_views(rows@);
    let ghost branches = crate::text::texts(labels.branches@);
    let ghost changed = crate::text::texts(labels.changed@);
    let mut title = cat2(
        "⟩ ",
        if targeted {
            "inspected the requested project"
        } else {
            "scanned configured workspaces"
        },
    );
    title.append(" · ");
    let n = decimal_text(rows.len() as u64);
    title.append(n.as_str());
    title.append(" ");
    title.append(projects_word(rows.len()));
    let mut out = wrap_line(title.as_str(), w);
    let mut sizes: Vec<Option<String>> = Vec::new();
    let mut i: usize = 0;
    while i < rows.len()
        invariant
            i <= rows@.len(),
            all == row_views(rows@),
            sizes@.len() == i,
            forall|k: int|
                0 <= k < i ==> crate::text::opt_text(#[trigger] sizes@[k]) == size_words(
                    reclaimable(all[k]),
                ),
        decreases rows@.len() - i,
    {
        sizes.push(size_of_row(&rows[i]));
        i = i + 1;
    }
    let ghost wanted = table_rows(all, branches, changed);
    let mut table: Vec<ProjectTableRow<'_>> = Vec::new();
    let mut j: usize = 0;
    assert(crate::output::table_views(table@) =~= wanted.take(0));
    while j < rows.len()
        invariant
            j <= rows@.len(),
            all == row_views(rows@),
            branches == crate::text::texts(labels.branches@),
            changed == crate::text::texts(labels.changed@),
            labels.branches@.len() == rows@.len(),
            labels.changed@.len() == rows@.len(),
            sizes@.len() == rows@.len(),
            forall|k: int|
                0 <= k < rows@.len() ==> crate::text::opt_text(#[trigger] sizes@[k])
                    == size_words(reclaimable(all[k])),
            wanted == table_rows(all, branches, changed),
            crate::output::table_views(table@) == wanted.take(j as int),
        decreases rows@.len() - j,
    {
        let ghost before = crate::output::table_views(table@);
        let size = match &sizes[j] {
            Some(s) => Some(s.as_str()),
            None => None,
        };
        assert(crate::text::str_text(size) == crate::text::opt_text(sizes@[j as int]));
        let row = ProjectTableRow {
            path: rows[j].path.as_str(),
            status: rows[j].status,
            size,
            branch: Some(labels.branches[j].as_str()),
            changed: Some(labels.changed[j].as_str()),
        };
        assert(row@ == wanted[j as int]);
        table.push(row);
        assert(crate::output::table_views(table@) =~= before.push(wanted[j as int]));
        j = j + 1;
        assert(before.push(wanted[j - 1]) =~= wanted.take(j as int));
    }
    assert(wanted.take(j as int) =~= wanted);
    let count: usize = cleanable_count(rows);
    let total: u64 = match total_reclaimable(rows) {
        Some(t) => t,
        None => 0,
    };
    let words = total_text(total);
    let size = match &words {
        Some(s) => Some(s.as_str()),
        None => None,
    };
    assert(crate::text::str_text(size) == crate::text::opt_text(words));
    push_lines(&mut out, project_table_in(table.as_slice(), count, size, w, home, colors));
    out
}

/// What `list` prints on this terminal for a user with this home directory.
pub open spec fn listing(
    rows: Seq<Surveyed>,
    branches: Seq<Seq<char>>,
    changed: Seq<Seq<char>>,
    t: Terminal,
    w: nat,
    home: Option<Seq<char>>,
) -> Seq<Seq<char>> {
    if crate::output::stdout_is_rich(t) {
        workspace_table(
            rows,
            branches,
            changed,
            false,
            w,
            home,
            crate::output::stdout_is_colored(t),
        )
    } else {
        plain_listing(rows, crate::output::rows_are_colored(t))
    }
}

/// What `list` prints for a user with this home directory: the table on a rich
/// terminal, else a summary and a row for each project, sorted by severity.
/// `found` is how many projects discovery found. `labels` are those of the
/// sorted rows; a plain listing has no use for them.
pub fn listing_in(
    found: usize,
    rows: &[SurveyRow],
    labels: &TableLabels,
    t: &Terminal,
    w: usize,
    home: Option<&str>,
) -> (out: Vec<String>)
    requires
        crate::output::stdout_is_rich(*t) ==> labels.branches@.len() == rows@.len()
            && labels.changed@.len() == rows@.len(),
        bytes_in_all(row_views(rows@)) <= u64::MAX,
    ensures
        crate::text::texts(out@) == if found == 0 {
            seq!["listing: no projects found"@]
        } else {
            listing(
                by_severity(row_views(rows@)),
                crate::text::texts(labels.branches@),
                crate::text::texts(labels.changed@),
                *t,
                w as nat,
                crate::text::str_text(home),
            )
        },
{
    if found == 0 {
        let mut out: Vec<String> = Vec::new();
        push_line(&mut out, "listing: no projects found".to_owned());
        assert(crate::text::texts(out@) =~= seq!["listing: no projects found"@]);
        return out;
    }
    let sorted = sort_by_status(rows);
    proof {
        sorting_changes_no_totals(row_views(rows@));
        assert(row_views(sorted@).len() == sorted@.len());
        assert(row_views(rows@).len() == rows@.len());
    }
    if stdout_terminal_ui_enabled(t) {
        workspace_table_in(sorted.as_slice(), labels, false, w, home, stdout_color_enabled(t))
    } else {
        plain_lines(sorted.as_slice(), t)
    }
}

/// What `list` prints (see [`listing_in`]) for the current user.
pub fn run_listing(
    found: usize,
    rows: &[SurveyRow],
    labels: &TableLabels,
    t: &Terminal,
    w: usize,
) -> (out: Vec<String>)
    requires
        crate::output::stdout_is_rich(*t) ==> labels.branches@.len() == rows@.len()
            && labels.changed@.len() == rows@.len(),
        bytes_in_all(row_views(rows@)) <= u64::MAX,
    ensures
        found == 0 ==> crate::text::texts(out@) == seq!["listing: no projects found"@],
        found > 0 ==> exists|home: Option<Seq<char>>|
            crate::text::texts(out@) == #[trigger] listing(
                by_severity(row_views(rows@)),
                crate::text::texts(labels.branches@),
                crate::text::texts(labels.changed@),
                *t,
                w as nat,
                home,
            ),
{
    let known = home_dir();
    let home = match &known {
        Some(h) => Some(h.as_str()),
        None => None,
    };
    listing_in(found, rows, labels, t, w, home)
}

/// Sorting changes neither how many rows there are, nor how many of them are
/// cleanable, nor what cleaning would free in all.
pub proof fn sorting_changes_no_totals(rows: Seq<Surveyed>)
    ensures
        by_severity(rows).len() == rows.len(),
        cleanable(by_severity(rows)) == cleanable(rows),
        bytes_in_all(by_severity(rows)) == bytes_in_all(rows),
    decreases rows.len(),
{
    let a = of_status(rows, Status::NoGit);
    let b = of_status(rows, Status::NoRemote);
    let c = of_status(rows, Status::Unpushed);
    let d = of_status(rows, Status::Wip);
    let e = of_status(rows, Status::Cleanable);
    let f = of_status(rows, Status::Clean);
    lemma_totals_concat(a + b + c + d + e, f);
    lemma_totals_concat(a + b + c + d, e);
    lemma_totals_concat(a + b + c, d);
    lemma_totals_concat(a + b, c);
    lemma_totals_concat(a, b);
    if rows.len() > 0 {
        let front = rows.drop_last();
        sorting_changes_no_totals(front);
        let fa = of_status(front, Status::NoGit);
        let fb = of_status(front, Status::NoRemote);
        let fc = of_status(front, Status::Unpushed);
        let fd = of_status(front, Status::Wip);
        let fe = of_status(front, Status::Cleanable);
        let ff = of_status(front, Status::Clean);
        lemma_totals_concat(fa + fb + fc + fd + fe, ff);
        lemma_totals_concat(fa + fb + fc + fd, fe);
        lemma_totals_concat(fa + fb + fc, fd);
        lemma_totals_concat(fa + fb, fc);
        lemma_totals_concat(fa, fb);
        lemma_totals_push(of_status(front, rows.last().status), rows.last());
    }
}

proof fn lemma_totals_push(rows: Seq<Surveyed>, row: Surveyed)
    ensures
        cleanable(rows.push(row)) == cleanable(rows) + if row.status == Status::Cleanable {
            1nat
        } else {
            0nat
        },
        bytes_in_all(rows.push(row)) == bytes_in_all(rows) + match reclaimable(row) {
            Some(n) => n as nat,
            None => 0,
        },
{
    assert(rows.push(row).drop_last() =~= rows);
}

proof fn lemma_totals_concat(a: Seq<Surveyed>, b: Seq<Surveyed>)
    ensures
        cleanable(a + b) == cleanable(a) + cleanable(b),
        bytes_in_all(a + b) == bytes_in_all(a) + bytes_in_all(b),
    decreases b.len(),
{
    if b.len() == 0 {
        assert(a + b =~= a);
    } else {
        lemma_totals_concat(a, b.drop_last());
        assert((a + b).drop_last() =~= a + b.drop_last());
    }
}

/// Reporting in the order of [`severity_order`] is reporting sorted by
/// severity.
pub proof fn severity_order_sorts(rows: Seq<Surveyed>)
    ensures
        by_severity(rows) == severity_positions(statuses_of(rows)).map_values(|i: int| rows[i]),
{
    let statuses = statuses_of(rows);
    lemma_positions(rows, Status::NoGit);
    lemma_positions(rows, Status::NoRemote);
    lemma_positions(rows, Status::Unpushed);
    lemma_positions(rows, Status::Wip);
    lemma_positions(rows, Status::Cleanable);
    lemma_positions(rows, Status::Clean);
    assert(by_severity(rows) =~= severity_positions(statuses).map_values(|i: int| rows[i]));
}

proof fn lemma_positions(rows: Seq<Surveyed>, status: Status)
    ensures
        of_status(rows, status) == positions_of(statuses_of(rows), status).map_values(
            |i: int| rows[i],
        ),
        forall|k: int|
            0 <= k < positions_of(statuses_of(rows), status).len() ==> 0 <= #[trigger] positions_of(
                statuses_of(rows),
                status,
            )[k] < rows.len(),
    decreases rows.len(),
{
    let statuses = statuses_of(rows);
    let at = positions_of(statuses, status);
    if rows.len() > 0 {
        let front = rows.drop_last();
        lemma_positions(front, status);
        assert(statuses_of(front) =~= statuses.drop_last());
        let before = positions_of(statuses.drop_last(), status);
        assert forall|k: int| 0 <= k < at.len() implies 0 <= #[trigger] at[k] < rows.len() by {
            if k < before.len() {
                assert(at[k] == before[k]);
            }
        }
        assert(of_status(rows, status) =~= at.map_values(|i: int| rows[i])) by {
            assert forall|k: int| 0 <= k < before.len() implies rows[before[k]]
                == #[trigger] front[before[k]] by {}
        }
    } else {
        assert(of_status(rows, status) =~= at.map_values(|i: int| rows[i]));
    }
}

/// Statuses that are told apart come out in the order of their severity, the
/// same rows come out that went in, and rows with the same status keep their
/// order.
pub proof fn by_severity_is_a_stable_sort(rows: Seq<Surveyed>)
    ensures
        by_severity(rows).to_multiset() == rows.to_multiset(),
        forall|i: int, j: int|
            0 <= i < j < by_severity(rows).len() ==> crate::classify::rank_of(
                #[trigger] by_severity(rows)[i].status,
            ) <= crate::classify::rank_of(#[trigger] by_severity(rows)[j].status),
        forall|s: Status| #[trigger] of_status(by_severity(rows), s) == of_status(rows, s),
{
    let a = of_status(rows, Status::NoGit);
    let b = of_status(rows, Status::NoRemote);
    let c = of_status(rows, Status::Unpushed);
    let d = of_status(rows, Status::Wip);
    let e = of_status(rows, Status::Cleanable);
    let f = of_status(rows, Status::Clean);
    lemma_all_of_status(rows, Status::NoGit);
    lemma_all_of_status(rows, Status::NoRemote);
    lemma_all_of_status(rows, Status::Unpushed);
    lemma_all_of_status(rows, Status::Wip);
    lemma_all_of_status(rows, Status::Cleanable);
    lemma_all_of_status(rows, Status::Clean);
    let all = by_severity(rows);
    assert forall|i: int, j: int| 0 <= i < j < all.len() implies crate::classify::rank_of(
        #[trigger] all[i].status,
    ) <= crate::classify::rank_of(#[trigger] all[j].status) by {
        lemma_rank_at(a, b, c, d, e, f, i);
        lemma_rank_at(a, b, c, d, e, f, j);
    }
    assert forall|s: Status| #[trigger] of_status(all, s) == of_status(rows, s) by {
        lemma_of_concat(a + b + c + d + e, f, s);
        lemma_of_concat(a + b + c + d, e, s);
        lemma_of_concat(a + b + c, d, s);
        lemma_of_concat(a + b, c, s);
        lemma_of_concat(a, b, s);
        lemma_of_uniform(a, Status::NoGit, s);
        lemma_of_uniform(b, Status::NoRemote, s);
        lemma_of_uniform(c, Status::Unpushed, s);
        lemma_of_uniform(d, Status::Wip, s);
        lemma_of_uniform(e, Status::Cleanable, s);
        lemma_of_uniform(f, Status::Clean, s);
        assert(of_status(all, s) =~= of_status(rows, s));
    }
    lemma_same_rows(rows);
}

/// Whether every row has this status.
pub open spec fn uniform(rows: Seq<Surveyed>, status: Status) -> bool {
    forall|i: int| 0 <= i < rows.len() ==> (#[trigger] rows[i]).status == status
}

proof fn lemma_all_of_status(rows: Seq<Surveyed>, status: Status)
    ensures
        uniform(of_status(rows, status), status),
    decreases rows.len(),
{
    if rows.len() > 0 {
        lemma_all_of_status(rows.drop_last(), status);
    }
}

proof fn lemma_rank_at(
    a: Seq<Surveyed>,
    b: Seq<Surveyed>,
    c: Seq<Surveyed>,
    d: Seq<Surveyed>,
    e: Seq<Surveyed>,
    f: Seq<Surveyed>,
    i: int,
)
    requires
        uniform(a, Status::NoGit),
        uniform(b, Status::NoRemote),
        uniform(c, Status::Unpushed),
        uniform(d, Status::Wip),
        uniform(e, Status::Cleanable),
        uniform(f, Status::Clean),
        0 <= i < (a + b + c + d + e + f).len(),
    ensures
        crate::classify::rank_of((a + b + c + d + e + f)[i].status) == if i < a.len() {
            crate::classify::rank_of(Status::NoGit)
        } else if i < a.len() + b.len() {
            crate::classify::rank_of(Status::NoRemote)
        } else if i < a.len() + b.len() + c.len() {
            crate::classify::rank_of(Status::Unpushed)
        } else if i < a.len() + b.len() + c.len() + d.len() {
            crate::classify::rank_of(Status::Wip)
        } else if i < a.len() + b.len() + c.len() + d.len() + e.len() {
            crate::classify::rank_of(Status::Cleanable)
        } else {
            crate::classify::rank_of(Status::Clean)
        },
{
    let all = a + b + c + d + e + f;
    if i < a.len() {
        assert(all[i] == a[i]);
    } else if i < a.len() + b.len() {
        assert(all[i] == b[i - a.len()]);
    } else if i < a.len() + b.len() + c.len() {
        assert(all[i] == c[i - a.len() - b.len()]);
    } else if i < a.len() + b.len() + c.len() + d.len() {
        assert(all[i] == d[i - a.len() - b.len() - c.len()]);
    } else if i < a.len() + b.len() + c.len() + d.len() + e.len() {
        assert(all[i] == e[i - a.len() - b.len() - c.len() - d.len()]);
    } else {
        assert(all[i] == f[i - a.len() - b.len() - c.len() - d.len() - e.len()]);
    }
}

proof fn lemma_of_concat(a: Seq<Surveyed>, b: Seq<Surveyed>, s: Status)
    ensures
        of_status(a + b, s) == of_status(a, s) + of_status(b, s),
    decreases b.len(),
{
    if b.len() == 0 {
        assert(a + b =~= a);
        assert(of_status(a, s) + of_status(b, s) =~= of_status(a, s));
    } else {
        lemma_of_concat(a, b.drop_last(), s);
        assert((a + b).drop_last() =~= a + b.drop_last());
        assert((a + b).last() == b.last());
        assert(of_status(a + b, s) =~= of_status(a, s) + of_status(b, s));
    }
}

proof fn lemma_of_uniform(rows: Seq<Surveyed>, have: Status, want: Status)
    requires
        uniform(rows, have),
    ensures
        of_status(rows, want) == if have == want {
            rows
        } else {
            Seq::<Surveyed>::empty()
        },
    decreases rows.len(),
{
    if rows.len() > 0 {
        let front = rows.drop_last();
        assert(uniform(front, have)) by {
            assert forall|i: int| 0 <= i < front.len() implies (#[trigger] front[i]).status
                == have by {
                assert(rows[i].status == have);
            }
        }
        lemma_of_uniform(front, have, want);
        assert(rows[rows.len() - 1].status == have);
        assert(front.push(rows.last()) =~= rows);
    } else {
        assert(of_status(rows, want) =~= rows);
    }
}

/// The last row goes behind the rows of its status.
proof fn lemma_last_row_is_inserted(rows: Seq<Surveyed>) -> (at: int)
    requires
        rows.len() > 0,
    ensures
        0 <= at <= by_severity(rows.drop_last()).len(),
        by_severity(rows) == by_severity(rows.drop_last()).insert(at, rows.last()),
{
    let front = rows.drop_last();
    let row = rows.last();
    let sorted = by_severity(front);
    let a = of_status(front, Status::NoGit);
    let b = of_status(front, Status::NoRemote);
    let c = of_status(front, Status::Unpushed);
    let d = of_status(front, Status::Wip);
    let e = of_status(front, Status::Cleanable);
    let f = of_status(front, Status::Clean);
    match row.status {
        Status::NoGit => {
            let at = a.len() as int;
            assert(by_severity(rows) =~= sorted.insert(at, row));
            at
        },
        Status::NoRemote => {
            let at = (a + b).len() as int;
            assert(by_severity(rows) =~= sorted.insert(at, row));
            at
        },
        Status::Unpushed => {
            let at = (a + b + c).len() as int;
            assert(by_severity(rows) =~= sorted.insert(at, row));
            at
        },
        Status::Wip => {
            let at = (a + b + c + d).len() as int;
            assert(by_severity(rows) =~= sorted.insert(at, row));
            at
        },
        Status::Cleanable => {
            let at = (a + b + c + d + e).len() as int;
            assert(by_severity(rows) =~= sorted.insert(at, row));
            at
        },
        Status::Clean => {
            let at = sorted.len() as int;
            assert(by_severity(rows) =~= sorted.insert(at, row));
            at
        },
    }
}

proof fn lemma_same_rows(rows: Seq<Surveyed>)
    ensures
        by_severity(rows).to_multiset() == rows.to_multiset(),
    decreases rows.len(),
{
    if rows.len() == 0 {
        assert(by_severity(rows) =~= rows);
    } else {
        let front = rows.drop_last();
        let row = rows.last();
        lemma_same_rows(front);
        let at = lemma_last_row_is_inserted(rows);
        vstd::seq_lib::to_multiset_insert(by_severity(front), at, row);
        vstd::seq_lib::to_multiset_insert(front, front.len() as int, row);
        assert(rows =~= front.insert(front.len() as int, row));
    }
}

/// The cleanable projects are counted, and what cleaning frees is what the cleanable ones
/// with a known size free together: a row adds its size exactly if it is cleanable.
pub proof fn totals_count_the_cleanable_rows(rows: Seq<Surveyed>, row: Surveyed)
    ensures
        cleanable(rows) == rows.filter(|r: Surveyed| r.status == Status::Cleanable).len(),
        bytes_in_all(Seq::empty()) == 0,
        bytes_in_all(rows.push(row)) == bytes_in_all(rows) + if row.status == Status::Cleanable
            && row.bytes is Some {
            row.bytes->0 as nat
        } else {
            0
        },
        row.status == Status::Cleanable ==> reclaimable(row) == row.bytes,
        row.status != Status::Cleanable ==> reclaimable(row) is None,
    decreases rows.len(),
{
    reveal(Seq::filter);
    assert(rows.push(row).drop_last() =~= rows);
    if rows.len() > 0 {
        totals_count_the_cleanable_rows(rows.drop_last(), row);
    }
}

/// A document row carries the path, the label and the rank of its project, and its size
/// only if it is cleanable; no row is left out.
pub proof fn every_project_is_documented(docs: Seq<ProjectRow>, rows: Seq<Surveyed>, i: int)
    requires
        all_documented(docs, rows),
        0 <= i < rows.len(),
    ensures
        docs.len() == rows.len(),
        docs[i].path@ == rows[i].path,
        docs[i].status@ == crate::classify::label_of(rows[i].status),
        docs[i].rank == crate::classify::rank_of(rows[i].status),
        rows[i].status == Status::Cleanable ==> docs[i].reclaimable_bytes == rows[i].bytes,
        rows[i].status != Status::Cleanable ==> docs[i].reclaimable_bytes is None,
{
    assert(documents(docs[i], rows[i]));
}

/// The rows of a status are those rows that have it, all of them, in order.
pub proof fn rows_of_a_status_are_all_of_them(rows: Seq<Surveyed>, status: Status)
    ensures
        of_status(rows, status) == rows.filter(|r: Surveyed| r.status == status),
    decreases rows.len(),
{
    reveal(Seq::filter);
    if rows.len() > 0 {
        rows_of_a_status_are_all_of_them(rows.drop_last(), status);
    }
}

/// A listing has a row for every project, in order, behind its summary.
pub proof fn a_listing_has_a_row_for_every_project(rows: Seq<Surveyed>, colors: bool, i: int)
    requires
        0 <= i < rows.len(),
    ensures
        plain_listing(rows, colors).len() == rows.len() + 1,
        plain_listing(rows, colors)[i + 1] == crate::output::row_text(
            rows[i].path,
            rows[i].status,
            colors,
            if rows[i].status == Status::Cleanable && rows[i].bytes is Some {
                Some(crate::disk::size_text(rows[i].bytes->0 as nat, 2))
            } else {
                None
            },
        ),
        classification_lines(rows).len() == rows.len() + 1,
        classification_lines(rows)[i + 1] == "  ["@ + crate::text::decimal(
            crate::classify::rank_of(rows[i].status) as nat,
        ) + "] "@ + rows[i].path + " -> "@ + crate::classify::label_of(rows[i].status),
{
}

/// The table is made of a row for every project, in order, with its own branch and date;
/// a size stands only with a project that can be cleaned and whose size is known.
pub proof fn the_table_shows_each_project_as_surveyed(
    rows: Seq<Surveyed>,
    branches: Seq<Seq<char>>,
    changed: Seq<Seq<char>>,
    i: int,
)
    requires
        0 <= i < rows.len(),
    ensures
        table_rows(rows, branches, changed).len() == rows.len(),
        ({
            let row = table_rows(rows, branches, changed)[i];
            &&& row.path == rows[i].path
            &&& row.status == rows[i].status
            &&& row.branch == Some(branches[i])
            &&& row.changed == Some(changed[i])
            &&& row.size == if rows[i].status == Status::Cleanable && rows[i].bytes is Some {
                Some(crate::disk::size_text(rows[i].bytes->0 as nat, 2))
            } else {
                None
            }
        }),
{
}

/// A list of classifications has a line for every project, in order, with its rank, its
/// path and its status.
pub proof fn every_classification_is_listed(rows: Seq<Surveyed>, i: int)
    requires
        0 <= i < rows.len(),
    ensures
        classification_lines(rows).len() == rows.len() + 1,
        classification_lines(rows)[i + 1] == "  ["@ + crate::text::decimal(
            crate::classify::rank_of(rows[i].status) as nat,
        ) + "] "@ + rows[i].path + " -> "@ + crate::classify::label_of(rows[i].status),
{
}

/// A summary tells what the cleanable rows come to: how many they are and, where that is
/// anything, their bytes in all.
pub proof fn summaries_tell_the_totals(rows: Seq<Surveyed>)
    requires
        rows.len() <= usize::MAX,
    ensures
        ({
            let n = rows.filter(|r: Surveyed| r.status == Status::Cleanable).len();
            let total = bytes_in_all(rows);
            &&& count_words(rows) is Some <==> n > 0
            &&& n > 0 ==> count_words(rows)->0 == n
            &&& total_words(total) is Some <==> total > 0
            &&& total > 0 ==> total_words(total)->0 == crate::disk::size_text(total, 2)
            &&& plain_summary(rows, false) == crate::output::summary_text(
                rows.len(),
                if n > 0 {
                    Some(n as usize)
                } else {
                    None
                },
                if total > 0 {
                    Some(crate::disk::size_text(total, 2))
                } else {
                    None
                },
            )
        }),
{
    totals_count_the_cleanable_rows(rows, arbitrary());
    lemma_filter_is_no_longer(rows);
}

proof fn lemma_filter_is_no_longer(rows: Seq<Surveyed>)
    ensures
        rows.filter(|r: Surveyed| r.status == Status::Cleanable).len() <= rows.len(),
    decreases rows.len(),
{
    reveal(Seq::filter);
    if rows.len() > 0 {
        lemma_filter_is_no_longer(rows.drop_last());
    }
}

/// A row stands for what it holds, and a list of rows for all of them in order.
pub proof fn rows_stand_for_what_they_hold(v: Seq<SurveyRow>, i: int)
    requires
        0 <= i < v.len(),
    ensures
        row_views(v).len() == v.len(),
        row_views(v)[i].path == v[i].path@,
        row_views(v)[i].status == v[i].status,
        row_views(v)[i].bytes == v[i].bytes,
{
}

/// Where standard output is no terminal, a listing is plain text without color: a summary
/// and a row for every project. On one that can be drawn on it is the table.
pub proof fn listings_to_files_are_plain(
    rows: Seq<Surveyed>,
    branches: Seq<Seq<char>>,
    changed: Seq<Seq<char>>,
    t: Terminal,
    w: nat,
    home: Option<Seq<char>>,
)
    ensures
        !t.stdout_is_tty ==> listing(rows, branches, changed, t, w, home) == plain_listing(
            rows,
            false,
        ),
        t.stdout_is_tty && !t.json_mode && crate::text::opt_text(t.term) != Some("dumb"@)
            ==> listing(rows, branches, changed, t, w, home) == workspace_table(
            rows,
            branches,
            changed,
            false,
            w,
            home,
            crate::output::stdout_is_colored(t),
        ),
{
}

/// The table stands below its title, which tells how many projects there are, and counts
/// the cleanable ones and their bytes.
pub proof fn the_table_stands_below_its_title(
    rows: Seq<Surveyed>,
    branches: Seq<Seq<char>>,
    changed: Seq<Seq<char>>,
    targeted: bool,
    w: nat,
    home: Option<Seq<char>>,
    colors: bool,
)
    ensures
        ({
            let title = crate::layout::wrapped(table_title(rows.len(), targeted), w);
            let all = workspace_table(rows, branches, changed, targeted, w, home, colors);
            &&& title.len() <= all.len()
            &&& all.take(title.len() as int) == title
            &&& all.skip(title.len() as int) == crate::output::table_lines(
                table_rows(rows, branches, changed),
                rows.filter(|r: Surveyed| r.status == Status::Cleanable).len(),
                if bytes_in_all(rows) > 0 {
                    Some(crate::disk::size_text(bytes_in_all(rows), 2))
                } else {
                    None
                },
                w,
                home,
                colors,
            )
        }),
{
    totals_count_the_cleanable_rows(rows, arbitrary());
    let title = crate::layout::wrapped(table_title(rows.len(), targeted), w);
    let all = workspace_table(rows, branches, changed, targeted, w, home, colors);
    assert(all.take(title.len() as int) =~= title);
    assert(all.skip(title.len() as int) =~= crate::output::table_lines(
        table_rows(rows, branches, changed),
        cleanable(rows),
        total_words(bytes_in_all(rows)),
        w,
        home,
        colors,
    ));
}

} // verus!
