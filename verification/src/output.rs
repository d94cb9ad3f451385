//! What the reports look like: rows, summaries, tables and panels, and when
//! they are rich, colored or plain.

use vstd::prelude::*;

use crate::classify::Status;
use crate::clean::CleanItem;
use crate::columns::width;
use crate::interactive::{blocked_reason, review_label_text, status_reason};
use crate::layout::{
    cell, pack_columns, pad_or_truncate, pad_path, pad_start, prefix_budget, push_prefixed,
    styled_padded, truncate_cols, truncate_path_cols, word_cells, wrap_plain, wrap_styled,
};
use crate::paths::file_name;
use crate::style::{color_for_stream, TextStyle};
use crate::text::{
    cat2, cat3, chars_of, decimal_text, push_line, push_lines, same, starts_with, string_of,
};

verus! {

/// What is known of the terminal and of the user's wishes about it.
pub struct Terminal {
    /// Whether output is one JSON document.
    pub json_mode: bool,
    /// Whether standard output is a terminal.
    pub stdout_is_tty: bool,
    /// Whether standard error is a terminal.
    pub stderr_is_tty: bool,
    /// The value of `TERM`.
    pub term: Option<String>,
    /// Whether `NO_COLOR` is set, to anything.
    pub no_color: bool,
    /// The value of `CLICOLOR`.
    pub clicolor: Option<String>,
}

/// Whether a stream can show the rich presentation: it is a terminal, and not
/// a dumb one.
pub open spec fn can_be_rich(stream_is_tty: bool, term: Option<Seq<char>>) -> bool {
    stream_is_tty && term != Some("dumb"@)
}

/// Whether the user asks for plain output.
pub open spec fn wants_plain(t: Terminal) -> bool {
    t.no_color || crate::text::opt_text(t.clicolor) == Some("0"@)
}

/// Whether standard output gets the rich presentation.
pub open spec fn stdout_is_rich(t: Terminal) -> bool {
    !t.json_mode && can_be_rich(t.stdout_is_tty, crate::text::opt_text(t.term))
}

/// Whether standard error gets the rich presentation.
pub open spec fn stderr_is_rich(t: Terminal) -> bool {
    !t.json_mode && can_be_rich(t.stderr_is_tty, crate::text::opt_text(t.term))
}

/// Whether standard output is colored.
pub open spec fn stdout_is_colored(t: Terminal) -> bool {
    !t.json_mode && !wants_plain(t) && can_be_rich(t.stdout_is_tty, crate::text::opt_text(t.term))
}

/// Whether standard error is colored.
pub open spec fn stderr_is_colored(t: Terminal) -> bool {
    !t.json_mode && !wants_plain(t) && can_be_rich(t.stderr_is_tty, crate::text::opt_text(t.term))
}

/// Whether plain rows on standard output are colored.
pub open spec fn rows_are_colored(t: Terminal) -> bool {
    !wants_plain(t) && can_be_rich(t.stdout_is_tty, crate::text::opt_text(t.term))
}

/// Where there is color, the rich presentation is on; and where it is on, the
/// user's wish alone decides on color.
pub proof fn color_needs_the_rich_presentation(t: Terminal)
    ensures
        stdout_is_colored(t) == (stdout_is_rich(t) && !wants_plain(t)),
        stderr_is_colored(t) == (stderr_is_rich(t) && !wants_plain(t)),
{
}

/// In JSON mode neither stream is rich or colored, whatever the terminal.
pub proof fn json_mode_is_plain(t: Terminal)
    requires
        t.json_mode,
    ensures
        !stdout_is_rich(t),
        !stderr_is_rich(t),
        !stdout_is_colored(t),
        !stderr_is_colored(t),
{
}

/// Turns JSON mode on or off.
pub fn set_json_mode(t: &mut Terminal, enabled: bool)
    ensures
        *final(t) == (Terminal { json_mode: enabled, ..*old(t) }),
{
    t.json_mode = enabled;
}

/// Whether JSON mode is on.
pub fn json_mode(t: &Terminal) -> (r: bool)
    ensures
        r == t.json_mode,
{
    t.json_mode
}

/// Whether standard output is a terminal.
pub fn is_tty(t: &Terminal) -> (r: bool)
    ensures
        r == t.stdout_is_tty,
{
    t.stdout_is_tty
}

/// Whether standard error is a terminal.
pub fn stderr_is_tty(t: &Terminal) -> (r: bool)
    ensures
        r == t.stderr_is_tty,
{
    t.stderr_is_tty
}

/// Whether a stream can show the rich presentation under this `TERM`.
pub fn terminal_ui_enabled_with(stream_is_tty: bool, term: Option<&str>) -> (r: bool)
    ensures
        r == can_be_rich(
            stream_is_tty,
            match term {
                Some(s) => Some(s@),
                None => None,
            },
        ),
{
    match term {
        Some(s) => stream_is_tty && !same(s, "dumb"),
        None => stream_is_tty,
    }
}

fn term_of(t: &Terminal) -> (r: Option<&str>)
    ensures
        match r {
            Some(s) => Some(s@),
            None => None,
        } == crate::text::opt_text(t.term),
{
    match &t.term {
        Some(s) => Some(s.as_str()),
        None => None,
    }
}

/// Whether a stream can show the rich presentation on this terminal.
pub fn terminal_ui_enabled(t: &Terminal, stream_is_tty: bool) -> (r: bool)
    ensures
        r == can_be_rich(stream_is_tty, crate::text::opt_text(t.term)),
{
    terminal_ui_enabled_with(stream_is_tty, term_of(t))
}

/// Whether standard output gets the rich presentation.
pub fn stdout_terminal_ui_enabled(t: &Terminal) -> (r: bool)
    ensures
        r == stdout_is_rich(*t),
{
    !json_mode(t) && terminal_ui_enabled(t, is_tty(t))
}

/// Whether standard error gets the rich presentation.
pub fn stderr_terminal_ui_enabled(t: &Terminal) -> (r: bool)
    ensures
        r == stderr_is_rich(*t),
{
    !json_mode(t) && terminal_ui_enabled(t, stderr_is_tty(t))
}

/// Whether the user asks for plain output: `NO_COLOR` is set, or `CLICOLOR` is
/// `0`.
pub fn plain_requested(t: &Terminal) -> (r: bool)
    ensures
        r == wants_plain(*t),
{
    t.no_color || match &t.clicolor {
        Some(s) => same(s.as_str(), "0"),
        None => false,
    }
}

/// Whether a stream gets colors under this `TERM`.
pub fn color_enabled_with(stream_is_tty: bool, term: Option<&str>, plain_requested: bool) -> (r:
    bool)
    ensures
        r == (!plain_requested && can_be_rich(
            stream_is_tty,
            match term {
                Some(s) => Some(s@),
                None => None,
            },
        )),
{
    !plain_requested && terminal_ui_enabled_with(stream_is_tty, term)
}

/// Whether a stream gets colors on this terminal.
pub fn color_enabled_for(t: &Terminal, stream_is_tty: bool) -> (r: bool)
    ensures
        r == (!wants_plain(*t) && can_be_rich(stream_is_tty, crate::text::opt_text(t.term))),
{
    color_enabled_with(stream_is_tty, term_of(t), plain_requested(t))
}

/// Whether plain rows on standard output are colored.
pub fn color_enabled(t: &Terminal) -> (r: bool)
    ensures
        r == rows_are_colored(*t),
{
    color_enabled_for(t, is_tty(t))
}

/// Whether standard output is colored.
pub fn stdout_color_enabled(t: &Terminal) -> (r: bool)
    ensures
        r == stdout_is_colored(*t),
{
    !json_mode(t) && color_enabled(t)
}

/// Whether standard error is colored.
pub fn stderr_color_enabled(t: &Terminal) -> (r: bool)
    ensures
        r == stderr_is_colored(*t),
{
    !json_mode(t) && color_enabled_for(t, stderr_is_tty(t))
}

/// The width to lay out for; the rule is that of [`crate::progress`].
pub fn terminal_width(size: Option<u16>, columns: Option<&str>) -> (w: usize)
    ensures
        w == crate::progress::width_rule(
            size,
            match columns {
                Some(s) => Some(s@),
                None => None,
            },
        ),
{
    crate::progress::terminal_width(size, columns)
}

/// The noun for this many projects.
pub open spec fn projects_noun(count: nat) -> Seq<char> {
    if count == 1 {
        "project"@
    } else {
        "projects"@
    }
}

/// The noun for this many projects.
pub fn projects_word(count: usize) -> (s: &'static str)
    ensures
        s@ == projects_noun(count as nat),
{
    if count == 1 {
        "project"
    } else {
        "projects"
    }
}

/// Whether text is colored: as `emit_colors` says, or else as the terminal
/// allows.
pub open spec fn emits(emit_colors: Option<bool>, t: Terminal) -> bool {
    match emit_colors {
        Some(emit) => emit,
        None => rows_are_colored(t),
    }
}

/// `text` in `style`, as `emit_colors` says or else as the terminal allows.
pub fn color(text: &str, style: TextStyle, emit_colors: Option<bool>, t: &Terminal) -> (out: String)
    ensures
        out@ == crate::style::painted(text@, style, emits(emit_colors, *t)),
{
    let emit = match emit_colors {
        Some(emit) => emit,
        None => color_enabled(t),
    };
    color_for_stream(text, style, emit)
}

/// The style of a status: warm where something needs doing, cool where not.
pub open spec fn style_of(status: Status) -> TextStyle {
    match status {
        Status::NoGit => TextStyle::Red,
        Status::NoRemote => TextStyle::Yellow,
        Status::Unpushed => TextStyle::Yellow,
        Status::Wip => TextStyle::Yellow,
        Status::Cleanable => TextStyle::CyanBold,
        Status::Clean => TextStyle::Green,
    }
}

/// The style of a status, in bold.
pub open spec fn bold_style_of(status: Status) -> TextStyle {
    match status {
        Status::NoGit => TextStyle::RedBold,
        Status::NoRemote => TextStyle::YellowBold,
        Status::Unpushed => TextStyle::YellowBold,
        Status::Wip => TextStyle::YellowBold,
        Status::Cleanable => TextStyle::CyanBold,
        Status::Clean => TextStyle::GreenBold,
    }
}

fn status_style(status: Status) -> (s: TextStyle)
    ensures
        s == style_of(status),
{
    match status {
        Status::NoGit => TextStyle::Red,
        Status::NoRemote => TextStyle::Yellow,
        Status::Unpushed => TextStyle::Yellow,
        Status::Wip => TextStyle::Yellow,
        Status::Cleanable => TextStyle::CyanBold,
        Status::Clean => TextStyle::Green,
    }
}

fn bold_status_style(status: Status) -> (s: TextStyle)
    ensures
        s == bold_style_of(status),
{
    match status {
        Status::NoGit => TextStyle::RedBold,
        Status::NoRemote => TextStyle::YellowBold,
        Status::Unpushed => TextStyle::YellowBold,
        Status::Wip => TextStyle::YellowBold,
        Status::Cleanable => TextStyle::CyanBold,
        Status::Clean => TextStyle::GreenBold,
    }
}

/// The part of a row that gives the reason, where it says more than the label.
pub open spec fn reason_part(status: Status) -> Seq<char> {
    if crate::interactive::reason_of(status) != crate::classify::label_of(status) {
        " ("@ + crate::interactive::reason_of(status) + ")"@
    } else {
        Seq::empty()
    }
}

/// The part of a row that gives the size: only cleanable projects have one.
pub open spec fn size_part(status: Status, size: Option<Seq<char>>) -> Seq<char> {
    match size {
        Some(s) => if status == Status::Cleanable {
            " (~"@ + s + ")"@
        } else {
            Seq::empty()
        },
        None => Seq::empty(),
    }
}

/// The text of a row of the plain listing.
pub open spec fn row_text(
    path: Seq<char>,
    status: Status,
    emit_colors: bool,
    size: Option<Seq<char>>,
) -> Seq<char> {
    "  ["@ + crate::text::decimal(crate::classify::rank_of(status) as nat) + "] "@ + path + " — "@
        + crate::style::painted(
        crate::classify::label_of(status),
        style_of(status),
        emit_colors,
    ) + reason_part(status) + size_part(status, size)
}

/// One row of the plain listing: `[rank] path — label (reason) (~size)`. The
/// label is colored as `emit_colors` says, or else as the terminal allows.
pub fn format_project_row(
    path: &str,
    status: Status,
    emit_colors: Option<bool>,
    size: Option<&str>,
    t: &Terminal,
) -> (out: String)
    ensures
        out@ == row_text(path@, status, emits(emit_colors, *t), crate::text::str_text(size)),
{
    let mut row = cat3("  [", decimal_text(status.rank() as u64).as_str(), "] ");
    row.append(path);
    row.append(" — ");
    row.append(color(status.label(), status_style(status), emit_colors, t).as_str());
    let ghost head = row@;
    if !same(status_reason(status), status.label()) {
        row.append(cat3(" (", status_reason(status), ")").as_str());
    }
    assert(row@ =~= head + reason_part(status));
    let ghost with_reason = row@;
    if let Some(s) = size {
        if status == Status::Cleanable {
            row.append(cat3(" (~", s, ")").as_str());
        }
    }
    assert(row@ =~= with_reason + size_part(status, crate::text::str_text(size)));
    row
}

/// The text of the listing's summary.
pub open spec fn summary_text(
    count: nat,
    cleanable: Option<usize>,
    size: Option<Seq<char>>,
) -> Seq<char> {
    let header = "listing: "@ + crate::text::decimal(count) + " project(s)"@;
    match (cleanable, size) {
        (Some(n), Some(s)) => header + ", "@ + crate::text::decimal(n as nat) + " cleanable, ~"@
            + s + " reclaimable"@,
        (Some(n), None) => header + ", "@ + crate::text::decimal(n as nat) + " cleanable"@,
        (None, _) => header + ", sorted by status"@,
    }
}

/// The summary of the plain listing, bold as `emit_colors` says or else as the
/// terminal allows.
pub fn format_summary(
    count: usize,
    emit_colors: Option<bool>,
    cleanable: Option<usize>,
    size: Option<&str>,
    t: &Terminal,
) -> (out: String)
    ensures
        out@ == crate::style::painted(
            summary_text(count as nat, cleanable, crate::text::str_text(size)),
            TextStyle::Bold,
            emits(emit_colors, *t),
        ),
{
    let mut header = cat3("listing: ", decimal_text(count as u64).as_str(), " project(s)");
    match (cleanable, size) {
        (Some(n), Some(s)) => {
            header.append(", ");
            header.append(decimal_text(n as u64).as_str());
            header.append(" cleanable, ~");
            header.append(s);
            header.append(" reclaimable");
        },
        (Some(n), None) => {
            header.append(", ");
            header.append(decimal_text(n as u64).as_str());
            header.append(" cleanable");
        },
        (None, _) => {
            header.append(", sorted by status");
        },
    }
    color(header.as_str(), TextStyle::Bold, emit_colors, t)
}

/// The columns of the wide table beside the project's.
pub const STATUS_W: usize = 12;

pub const RECLAIM_W: usize = 10;

pub const BRANCH_W: usize = 16;

pub const CHANGED_W: usize = 10;

/// The width from which on the table has columns.
pub const TABLE_MIN_W: usize = 84;

/// One project in the table.
#[derive(Debug, Clone, Copy)]
pub struct ProjectTableRow<'a> {
    pub path: &'a str,
    pub status: Status,
    pub size: Option<&'a str>,
    pub branch: Option<&'a str>,
    pub changed: Option<&'a str>,
}

/// The value of a [`ProjectTableRow`].
pub struct TableRow {
    pub path: Seq<char>,
    pub status: Status,
    pub size: Option<Seq<char>>,
    pub branch: Option<Seq<char>>,
    pub changed: Option<Seq<char>>,
}

impl<'a> View for ProjectTableRow<'a> {
    type V = TableRow;

    open spec fn view(&self) -> TableRow {
        TableRow {
            path: self.path@,
            status: self.status,
            size: crate::text::str_text(self.size),
            branch: crate::text::str_text(self.branch),
            changed: crate::text::str_text(self.changed),
        }
    }
}

/// The values of a sequence of table rows.
pub open spec fn table_views(v: Seq<ProjectTableRow>) -> Seq<TableRow> {
    v.map_values(|r: ProjectTableRow| r@)
}

/// A text, or a dash in its place.
pub open spec fn or_dash(o: Option<Seq<char>>) -> Seq<char> {
    match o {
        Some(s) => s,
        None => "-"@,
    }
}

fn or_dash_text<'a>(o: Option<&'a str>) -> (s: &'a str)
    ensures
        s@ == or_dash(crate::text::str_text(o)),
{
    match o {
        Some(s) => s,
        None => "-",
    }
}

/// The label of a project: its path, with the home directory as `~`.
pub open spec fn label_under(path: Seq<char>, home: Option<Seq<char>>) -> Seq<char> {
    match home {
        None => path,
        Some(h) => {
            let rest = path.skip(h.len() as int);
            if h.len() == 0 || !h.is_prefix_of(path) {
                path
            } else if rest.len() == 0 {
                "~"@
            } else if rest[0] == '/' {
                "~"@ + rest
            } else {
                path
            }
        },
    }
}

fn project_label(path: &str, home: Option<&str>) -> (out: String)
    ensures
        out@ == label_under(path@, crate::text::str_text(home)),
{
    let h = match home {
        Some(h) => h,
        None => {
            return path.to_owned();
        },
    };
    let chars = chars_of(path);
    if h.is_empty() || !starts_with(&chars, h) {
        return path.to_owned();
    }
    let n = h.unicode_len();
    if n == chars.len() {
        return "~".to_owned();
    }
    assert(path@.skip(n as int)[0] == path@[n as int]);
    if chars[n] == '/' {
        let rest = string_of(&chars, n, chars.len());
        assert(rest@ =~= path@.skip(n as int));
        return cat2("~", rest.as_str());
    }
    path.to_owned()
}

/// The width of the table's project column.
pub open spec fn project_column(w: nat) -> nat {
    let left = crate::layout::less(w, 62);
    if left > 18 {
        left
    } else {
        18
    }
}

/// The gap between columns.
pub open spec fn gap() -> Seq<char> {
    "  "@
}

/// One line of the wide table.
pub open spec fn table_line(
    row: TableRow,
    w: nat,
    home: Option<Seq<char>>,
    emit_colors: bool,
) -> Seq<char> {
    crate::layout::padded_path(label_under(row.path, home), project_column(w)) + gap()
        + crate::layout::padded_in_style(
        crate::classify::label_of(row.status),
        STATUS_W as nat,
        style_of(row.status),
        emit_colors,
    ) + gap() + crate::layout::padded_start(or_dash(row.size), RECLAIM_W as nat) + gap()
        + crate::layout::padded(or_dash(row.branch), BRANCH_W as nat) + gap()
        + crate::layout::padded_start(or_dash(row.changed), CHANGED_W as nat)
}

/// The header of the wide table.
pub open spec fn table_header(w: nat) -> Seq<char> {
    crate::layout::padded("PROJECT"@, project_column(w)) + gap() + crate::layout::padded(
        "STATUS"@,
        STATUS_W as nat,
    ) + gap() + crate::layout::padded_start("RECLAIM"@, RECLAIM_W as nat) + gap()
        + crate::layout::padded("BRANCH"@, BRANCH_W as nat) + gap() + crate::layout::padded_start(
        "CHANGED"@,
        CHANGED_W as nat,
    )
}

/// The details of a project below its name, in the narrow table.
pub open spec fn detail_cells(row: TableRow, w: nat, emit_colors: bool) -> Seq<
    crate::layout::Cell,
> {
    let label = crate::layout::truncated(crate::classify::label_of(row.status), w);
    seq![
        crate::layout::Cell {
            columns: crate::columns::columns(label),
            text: crate::style::painted(label, style_of(row.status), emit_colors),
        },
        crate::layout::plain_cell(
            crate::layout::truncated("reclaim "@ + or_dash(row.size), w),
        ),
        crate::layout::plain_cell(
            crate::layout::truncated("branch "@ + or_dash(row.branch), w),
        ),
        crate::layout::plain_cell(
            crate::layout::truncated("changed "@ + or_dash(row.changed), w),
        ),
    ]
}

/// The lines of one project in the narrow table.
pub open spec fn stacked_lines(
    row: TableRow,
    w: nat,
    home: Option<Seq<char>>,
    emit_colors: bool,
) -> Seq<Seq<char>> {
    let inner = crate::layout::budget_after("  "@, w);
    seq![
        crate::style::painted(
            crate::layout::clipped("● "@, w),
            style_of(row.status),
            emit_colors,
        ) + crate::layout::truncated_path(
            label_under(row.path, home),
            crate::layout::budget_after("● "@, w),
        ),
    ] + crate::layout::prefixed(
        crate::layout::clipped("  "@, w),
        crate::layout::packed(detail_cells(row, inner, emit_colors), inner, " · "@),
    )
}

/// The lines of the projects in the narrow table.
pub open spec fn all_stacked_lines(
    rows: Seq<TableRow>,
    w: nat,
    home: Option<Seq<char>>,
    emit_colors: bool,
) -> Seq<Seq<char>>
    decreases rows.len(),
{
    if rows.len() == 0 {
        Seq::empty()
    } else {
        all_stacked_lines(rows.drop_last(), w, home, emit_colors) + stacked_lines(
            rows.last(),
            w,
            home,
            emit_colors,
        )
    }
}

/// The lines of the table above its summary.
pub open spec fn table_body(
    rows: Seq<TableRow>,
    w: nat,
    home: Option<Seq<char>>,
    emit_colors: bool,
) -> Seq<Seq<char>> {
    if w >= TABLE_MIN_W {
        seq![table_header(w)] + rows.map_values(
            |r: TableRow| table_line(r, w, home, emit_colors),
        )
    } else {
        all_stacked_lines(rows, w, home, emit_colors)
    }
}

/// The two halves of the table's summary.
pub open spec fn summary_segments(
    count: nat,
    cleanable_count: nat,
    total_reclaimable: Option<Seq<char>>,
) -> Seq<Seq<char>> {
    seq![
        "✓ "@ + crate::text::decimal(count) + " "@ + projects_noun(count),
        match total_reclaimable {
            Some(size) => if cleanable_count > 0 {
                "~"@ + size + " reclaimable across "@ + crate::text::decimal(cleanable_count)
                    + " cleanable"@
            } else {
                crate::text::decimal(cleanable_count) + " cleanable"@
            },
            None => crate::text::decimal(cleanable_count) + " cleanable"@,
        },
    ]
}

/// An entry in a style.
pub open spec fn styled_cell(text: Seq<char>, style: TextStyle, emit_colors: bool) ->
    crate::layout::Cell {
    crate::layout::Cell {
        columns: crate::columns::columns(text),
        text: crate::style::painted(text, style, emit_colors),
    }
}

/// What to do next, below the table.
pub open spec fn hint_cells(emit_colors: bool) -> Seq<crate::layout::Cell> {
    seq![
        crate::layout::Cell {
            columns: crate::columns::columns("run offcut clean to reclaim all,"@),
            text: "run "@ + crate::style::painted("offcut clean"@, TextStyle::Bold, emit_colors)
                + " to reclaim all,"@,
        },
        crate::layout::Cell {
            columns: crate::columns::columns("or offcut clean <project> to inspect one"@),
            text: "or "@ + crate::style::painted(
                "offcut clean <project>"@,
                TextStyle::Bold,
                emit_colors,
            ) + " to inspect one"@,
        },
    ]
}

/// One entry of the legend.
pub open spec fn legend_cell(status: Status, text: Seq<char>, emit_colors: bool) ->
    crate::layout::Cell {
    crate::layout::Cell {
        columns: crate::columns::columns("● "@ + text),
        text: crate::style::painted("●"@, style_of(status), emit_colors) + " "@ + text,
    }
}

/// The legend below the table.
pub open spec fn legend_cells(emit_colors: bool) -> Seq<crate::layout::Cell> {
    seq![
        legend_cell(Status::Cleanable, "cleanable - safe to remove"@, emit_colors),
        legend_cell(Status::Clean, "clean - nothing to trim"@, emit_colors),
        legend_cell(Status::Wip, "wip - uncommitted work"@, emit_colors),
        legend_cell(Status::NoRemote, "no-remote/unpushed - not pushed"@, emit_colors),
        legend_cell(Status::NoGit, "no-git - not a repo"@, emit_colors),
    ]
}

/// The lines below the projects: summary, hint and legend.
pub open spec fn table_footer(
    count: nat,
    cleanable_count: nat,
    total_reclaimable: Option<Seq<char>>,
    w: nat,
    emit_colors: bool,
) -> Seq<Seq<char>> {
    seq![Seq::<char>::empty()] + crate::layout::packed(
        summary_segments(count, cleanable_count, total_reclaimable).map_values(
            |s: Seq<char>| styled_cell(s, TextStyle::GreenBold, emit_colors),
        ),
        w,
        " · "@,
    ) + crate::layout::packed(hint_cells(emit_colors), w, " "@) + seq![Seq::<char>::empty()]
        + crate::layout::packed(legend_cells(emit_colors), w, "  "@)
}

/// The whole table, for a user with this home directory.
pub open spec fn table_lines(
    rows: Seq<TableRow>,
    cleanable_count: nat,
    total_reclaimable: Option<Seq<char>>,
    w: nat,
    home: Option<Seq<char>>,
    emit_colors: bool,
) -> Seq<Seq<char>> {
    table_body(rows, w, home, emit_colors) + table_footer(
        rows.len(),
        cleanable_count,
        total_reclaimable,
        w,
        emit_colors,
    )
}

fn push_gap(out: &mut String)
    ensures
        final(out)@ == old(out)@ + gap(),
{
    out.append("  ");
}

fn wide_line(row: &ProjectTableRow, w: usize, home: Option<&str>, emit_colors: bool) -> (out:
    String)
    ensures
        out@ == table_line(row@, w as nat, crate::text::str_text(home), emit_colors),
{
    let label = project_label(row.path, home);
    let mut out = pad_path(label.as_str(), column_width(w));
    push_gap(&mut out);
    out.append(
        styled_padded(
            row.status.label(),
            STATUS_W,
            status_style(row.status),
            emit_colors,
        ).as_str(),
    );
    push_gap(&mut out);
    out.append(pad_start(or_dash_text(row.size), RECLAIM_W).as_str());
    push_gap(&mut out);
    out.append(pad_or_truncate(or_dash_text(row.branch), BRANCH_W).as_str());
    push_gap(&mut out);
    out.append(pad_start(or_dash_text(row.changed), CHANGED_W).as_str());
    out
}

fn column_width(w: usize) -> (r: usize)
    ensures
        r == project_column(w as nat),
{
    let left: usize = if w >= 62 {
        w - 62
    } else {
        0
    };
    if left > 18 {
        left
    } else {
        18
    }
}

fn header_line(w: usize) -> (out: String)
    ensures
        out@ == table_header(w as nat),
{
    let mut out = pad_or_truncate("PROJECT", column_width(w));
    push_gap(&mut out);
    out.append(pad_or_truncate("STATUS", STATUS_W).as_str());
    push_gap(&mut out);
    out.append(pad_start("RECLAIM", RECLAIM_W).as_str());
    push_gap(&mut out);
    out.append(pad_or_truncate("BRANCH", BRANCH_W).as_str());
    push_gap(&mut out);
    out.append(pad_start("CHANGED", CHANGED_W).as_str());
    out
}

fn push_stacked(
    out: &mut Vec<String>,
    row: &ProjectTableRow,
    w: usize,
    home: Option<&str>,
    emit_colors: bool,
)
    ensures
        crate::text::texts(final(out)@) == crate::text::texts(old(out)@) + stacked_lines(
            row@,
            w as nat,
            crate::text::str_text(home),
            emit_colors,
        ),
{
    let ghost had = crate::text::texts(out@);
    let (marker, label_width) = prefix_budget("● ", w);
    let mut first = color_for_stream(marker.as_str(), status_style(row.status), emit_colors);
    let label = project_label(row.path, home);
    first.append(truncate_path_cols(label.as_str(), label_width).as_str());
    let ghost first_text = first@;
    push_line(out, first);
    let (indent, inner) = prefix_budget("  ", w);
    let label = truncate_cols(row.status.label(), inner);
    let mut detail: Vec<(usize, String)> = Vec::new();
    detail.push(
        (
            width(label.as_str()),
            color_for_stream(label.as_str(), status_style(row.status), emit_colors),
        ),
    );
    detail.push(
        cell(truncate_cols(cat2("reclaim ", or_dash_text(row.size)).as_str(), inner).as_str()),
    );
    detail.push(
        cell(truncate_cols(cat2("branch ", or_dash_text(row.branch)).as_str(), inner).as_str()),
    );
    detail.push(
        cell(truncate_cols(cat2("changed ", or_dash_text(row.changed)).as_str(), inner).as_str()),
    );
    assert(crate::layout::cells(detail@) =~= detail_cells(row@, inner as nat, emit_colors));
    let lines = pack_columns(detail.as_slice(), inner, " · ");
    push_prefixed(out, indent.as_str(), lines.as_slice());
    assert(crate::text::texts(out@) =~= had + stacked_lines(
        row@,
        w as nat,
        crate::text::str_text(home),
        emit_colors,
    ));
}

fn legend_entry(status: Status, text: &str, emit_colors: bool) -> (r: (usize, String))
    ensures
        (crate::layout::Cell { columns: r.0 as nat, text: r.1@ }) == legend_cell(
            status,
            text@,
            emit_colors,
        ),
{
    let mut out = color_for_stream("●", status_style(status), emit_colors);
    out.append(" ");
    out.append(text);
    (width(cat2("● ", text).as_str()), out)
}

fn push_footer(
    out: &mut Vec<String>,
    count: usize,
    cleanable_count: usize,
    total_reclaimable: Option<&str>,
    w: usize,
    emit_colors: bool,
)
    ensures
        crate::text::texts(final(out)@) == crate::text::texts(old(out)@) + table_footer(
            count as nat,
            cleanable_count as nat,
            crate::text::str_text(total_reclaimable),
            w as nat,
            emit_colors,
        ),
{
    let ghost had = crate::text::texts(out@);
    push_line(out, String::new());
    let mut counted = cat3("✓ ", decimal_text(count as u64).as_str(), " ");
    counted.append(projects_word(count));
    let second = match total_reclaimable {
        Some(size) if cleanable_count > 0 => {
            let mut s = cat3("~", size, " reclaimable across ");
            s.append(decimal_text(cleanable_count as u64).as_str());
            s.append(" cleanable");
            s
        },
        _ => cat2(decimal_text(cleanable_count as u64).as_str(), " cleanable"),
    };
    let ghost segments = summary_segments(
        count as nat,
        cleanable_count as nat,
        crate::text::str_text(total_reclaimable),
    );
    assert(segments[0] == counted@);
    assert(segments[1] == second@);
    let mut summary: Vec<(usize, String)> = Vec::new();
    summary.push(
        (
            width(counted.as_str()),
            color_for_stream(counted.as_str(), TextStyle::GreenBold, emit_colors),
        ),
    );
    summary.push(
        (
            width(second.as_str()),
            color_for_stream(second.as_str(), TextStyle::GreenBold, emit_colors),
        ),
    );
    assert(crate::layout::cells(summary@) =~= segments.map_values(
        |s: Seq<char>| styled_cell(s, TextStyle::GreenBold, emit_colors),
    ));
    push_lines(out, pack_columns(summary.as_slice(), w, " · "));
    let mut hint: Vec<(usize, String)> = Vec::new();
    hint.push(
        (
            width("run offcut clean to reclaim all,"),
            cat3(
                "run ",
                color_for_stream("offcut clean", TextStyle::Bold, emit_colors).as_str(),
                " to reclaim all,",
            ),
        ),
    );
    hint.push(
        (
            width("or offcut clean <project> to inspect one"),
            cat3(
                "or ",
                color_for_stream("offcut clean <project>", TextStyle::Bold, emit_colors).as_str(),
                " to inspect one",
            ),
        ),
    );
    assert(crate::layout::cells(hint@) =~= hint_cells(emit_colors));
    push_lines(out, pack_columns(hint.as_slice(), w, " "));
    push_line(out, String::new());
    let mut legend: Vec<(usize, String)> = Vec::new();
    legend.push(legend_entry(Status::Cleanable, "cleanable - safe to remove", emit_colors));
    legend.push(legend_entry(Status::Clean, "clean - nothing to trim", emit_colors));
    legend.push(legend_entry(Status::Wip, "wip - uncommitted work", emit_colors));
    legend.push(legend_entry(Status::NoRemote, "no-remote/unpushed - not pushed", emit_colors));
    legend.push(legend_entry(Status::NoGit, "no-git - not a repo", emit_colors));
    assert(crate::layout::cells(legend@) =~= legend_cells(emit_colors));
    push_lines(out, pack_columns(legend.as_slice(), w, "  "));
    assert(crate::text::texts(out@) =~= had + table_footer(
        count as nat,
        cleanable_count as nat,
        crate::text::str_text(total_reclaimable),
        w as nat,
        emit_colors,
    ));
}

/// `dirs::home_dir`: the user's home directory, as the environment gives it.
/// Nothing is claimed of the result.
#[verifier::external_body]
pub(crate) fn home_dir() -> (home: Option<String>) {
    dirs::home_dir().map(|h| h.display().to_string())
}

/// The table of surveyed projects for a user with this home directory. A wide
/// terminal gets columns; a narrow one gets each project's details stacked
/// below its path.
pub fn project_table_in(
    rows: &[ProjectTableRow<'_>],
    cleanable_count: usize,
    total_reclaimable: Option<&str>,
    w: usize,
    home: Option<&str>,
    emit_colors: bool,
) -> (out: Vec<String>)
    ensures
        crate::text::texts(out@) == table_lines(
            table_views(rows@),
            cleanable_count as nat,
            crate::text::str_text(total_reclaimable),
            w as nat,
            crate::text::str_text(home),
            emit_colors,
        ),
{
    let mut out: Vec<String> = Vec::new();
    let ghost all = table_views(rows@);
    let ghost at_home = crate::text::str_text(home);
    assert(crate::text::texts(out@) =~= Seq::<Seq<char>>::empty());
    if w >= TABLE_MIN_W {
        push_line(&mut out, header_line(w));
        let ghost head = seq![table_header(w as nat)];
        let ghost lines = all.map_values(
            |r: TableRow| table_line(r, w as nat, at_home, emit_colors),
        );
        let mut i: usize = 0;
        assert(crate::text::texts(out@) =~= head + lines.take(0));
        while i < rows.len()
            invariant
                i <= rows@.len(),
                all == table_views(rows@),
                at_home == crate::text::str_text(home),
                lines == all.map_values(
                    |r: TableRow| table_line(r, w as nat, at_home, emit_colors),
                ),
                crate::text::texts(out@) == head + lines.take(i as int),
            decreases rows@.len() - i,
        {
            let ghost before = crate::text::texts(out@);
            assert(lines[i as int] == table_line(rows@[i as int]@, w as nat, at_home, emit_colors));
            push_line(&mut out, wide_line(&rows[i], w, home, emit_colors));
            i = i + 1;
            assert(before.push(lines[i - 1]) =~= head + lines.take(i as int));
        }
        assert(lines.take(i as int) =~= lines);
    } else {
        let mut i: usize = 0;
        assert(all.take(0) =~= Seq::<TableRow>::empty());
        while i < rows.len()
            invariant
                i <= rows@.len(),
                all == table_views(rows@),
                at_home == crate::text::str_text(home),
                crate::text::texts(out@) == all_stacked_lines(
                    all.take(i as int),
                    w as nat,
                    at_home,
                    emit_colors,
                ),
            decreases rows@.len() - i,
        {
            assert(all.take(i + 1).drop_last() =~= all.take(i as int));
            assert(all.take(i + 1).last() == rows@[i as int]@);
            push_stacked(&mut out, &rows[i], w, home, emit_colors);
            i = i + 1;
        }
        assert(all.take(i as int) =~= all);
    }
    push_footer(&mut out, rows.len(), cleanable_count, total_reclaimable, w, emit_colors);
    out
}

/// The table of surveyed projects (see [`project_table_in`]) for the current
/// user.
pub fn format_project_table(
    rows: &[ProjectTableRow<'_>],
    cleanable_count: usize,
    total_reclaimable: Option<&str>,
    w: usize,
    emit_colors: bool,
) -> (out: Vec<String>)
    ensures
        exists|home: Option<Seq<char>>|
            crate::text::texts(out@) == #[trigger] table_lines(
                table_views(rows@),
                cleanable_count as nat,
                crate::text::str_text(total_reclaimable),
                w as nat,
                home,
                emit_colors,
            ),
{
    let found = home_dir();
    let home = match &found {
        Some(h) => Some(h.as_str()),
        None => None,
    };
    project_table_in(rows, cleanable_count, total_reclaimable, w, home, emit_colors)
}

/// The columns of the review's labels and fates.
pub const LABEL_W: usize = 14;

pub const FATE_W: usize = 14;

/// The width from which on the review has columns.
pub const REVIEW_COLUMNAR_MIN_W: usize = 46;

/// One reviewed path: what it is and what becomes of it.
#[derive(Debug, Clone, Copy)]
pub struct CleanReviewRow<'a> {
    pub rel_path: &'a str,
    pub is_dir: bool,
    pub label: &'a str,
    pub fate: &'a str,
}

/// The value of a [`CleanReviewRow`].
pub struct ReviewRow {
    pub rel_path: Seq<char>,
    pub is_dir: bool,
    pub label: Seq<char>,
    pub fate: Seq<char>,
}

impl<'a> View for CleanReviewRow<'a> {
    type V = ReviewRow;

    open spec fn view(&self) -> ReviewRow {
        ReviewRow {
            rel_path: self.rel_path@,
            is_dir: self.is_dir,
            label: self.label@,
            fate: self.fate@,
        }
    }
}

/// The values of a sequence of review rows.
pub open spec fn review_views(v: Seq<CleanReviewRow>) -> Seq<ReviewRow> {
    v.map_values(|r: CleanReviewRow| r@)
}

/// The review rows of a project's items, each with the fate that `fate_of`
/// gives it.
pub fn clean_review_rows<'a, F: Fn(&CleanItem) -> &'static str>(
    items: &'a [CleanItem],
    fate_of: F,
) -> (out: Vec<CleanReviewRow<'a>>)
    requires
        forall|i: int| 0 <= i < items@.len() ==> call_requires(fate_of, (&#[trigger] items@[i],)),
    ensures
        out@.len() == items@.len(),
        forall|i: int|
            #![trigger out@[i]]
            0 <= i < items@.len() ==> {
                &&& out@[i].rel_path@ == items@[i].rel_path@
                &&& out@[i].is_dir == items@[i].is_dir
                &&& out@[i].label@ == crate::interactive::review_label(items@[i].classification)
                &&& call_ensures(fate_of, (&items@[i],), out@[i].fate)
            },
{
    let mut out: Vec<CleanReviewRow<'a>> = Vec::new();
    let mut i: usize = 0;
    while i < items.len()
        invariant
            i <= items@.len(),
            out@.len() == i,
            forall|k: int| 0 <= k < items@.len() ==> call_requires(
                fate_of,
                (&#[trigger] items@[k],),
            ),
            forall|k: int|
                #![trigger out@[k]]
                0 <= k < i ==> {
                    &&& out@[k].rel_path@ == items@[k].rel_path@
                    &&& out@[k].is_dir == items@[k].is_dir
                    &&& out@[k].label@ == crate::interactive::review_label(
                        items@[k].classification,
                    )
                    &&& call_ensures(fate_of, (&items@[k],), out@[k].fate)
                },
        decreases items@.len() - i,
    {
        let item = &items[i];
        assert(call_requires(fate_of, (&items@[i as int],)));
        let fate = fate_of(item);
        out.push(
            CleanReviewRow {
                rel_path: item.rel_path.as_str(),
                is_dir: item.is_dir,
                label: review_label_text(item.classification),
                fate,
            },
        );
        i = i + 1;
    }
    out
}

/// The name of a project: the last component of its path, or the whole path
/// where that has no name.
pub open spec fn short_name(path: Seq<char>) -> Seq<char> {
    match crate::paths::name_of(path) {
        Some(n) => if n.len() > 0 {
            n
        } else {
            path
        },
        None => path,
    }
}

/// The name of a project.
pub fn project_name(path: &str) -> (out: String)
    ensures
        out@ == short_name(path@),
{
    match file_name(path) {
        Some(n) => if n.as_str().is_empty() {
            path.to_owned()
        } else {
            n
        },
        None => path.to_owned(),
    }
}

/// The first line of a project's panel: its name, then as much of its path as
/// there is room for.
pub open spec fn review_header(path: Seq<char>, w: nat, emit_colors: bool) -> Seq<char> {
    let prefix = crate::layout::truncated("⟩ analyzing "@, w);
    let budget = crate::layout::less(w, crate::columns::columns(prefix));
    let name = crate::layout::truncated_path(short_name(path), budget);
    let left = crate::layout::less(
        crate::layout::less(budget, crate::columns::columns(name)),
        crate::columns::columns(" · "@),
    );
    prefix + crate::style::painted(name, TextStyle::Bold, emit_colors) + if left > 0 {
        " · "@ + crate::style::painted(
            crate::layout::truncated_path(path, left),
            TextStyle::Dimmed,
            emit_colors,
        )
    } else {
        Seq::empty()
    }
}

fn minus(a: usize, b: usize) -> (r: usize)
    ensures
        r == crate::layout::less(a as nat, b as nat),
{
    if a >= b {
        a - b
    } else {
        0
    }
}

fn dim(text: &str, emit_colors: bool) -> (out: String)
    ensures
        out@ == crate::style::painted(text@, TextStyle::Dimmed, emit_colors),
{
    color_for_stream(text, TextStyle::Dimmed, emit_colors)
}

fn format_review_header(path: &str, w: usize, emit_colors: bool) -> (out: String)
    ensures
        out@ == review_header(path@, w as nat, emit_colors),
{
    let prefix = truncate_cols("⟩ analyzing ", w);
    let budget = minus(w, width(prefix.as_str()));
    let name = truncate_path_cols(project_name(path).as_str(), budget);
    let left = minus(minus(budget, width(name.as_str())), width(" · "));
    let mut line = cat2(
        prefix.as_str(),
        color_for_stream(name.as_str(), TextStyle::Bold, emit_colors).as_str(),
    );
    let ghost head = line@;
    if left > 0 {
        let tail = cat2(" · ", dim(truncate_path_cols(path, left).as_str(), emit_colors).as_str());
        line.append(tail.as_str());
    }
    assert(left == 0 ==> head =~= head + Seq::<char>::empty());
    line
}

/// The lines that every project panel starts with.
pub open spec fn head_lines(
    path: Seq<char>,
    status: Status,
    branch_line: Seq<char>,
    w: nat,
    emit_colors: bool,
) -> Seq<Seq<char>> {
    seq![
        review_header(path, w, emit_colors),
        crate::layout::clipped("status   "@, w) + crate::style::painted(
            crate::layout::truncated(
                crate::classify::label_of(status),
                crate::layout::budget_after("status   "@, w),
            ),
            style_of(status),
            emit_colors,
        ),
        crate::layout::clipped("branch   "@, w) + crate::layout::truncated(
            branch_line,
            crate::layout::budget_after("branch   "@, w),
        ),
        Seq::<char>::empty(),
    ]
}

fn panel_head(path: &str, status: Status, branch_line: &str, w: usize, emit_colors: bool) -> (out:
    Vec<String>)
    ensures
        crate::text::texts(out@) == head_lines(path@, status, branch_line@, w as nat, emit_colors),
{
    let (status_key, status_width) = prefix_budget("status   ", w);
    let (branch_key, branch_width) = prefix_budget("branch   ", w);
    let mut out: Vec<String> = Vec::new();
    out.push(format_review_header(path, w, emit_colors));
    let label = truncate_cols(status.label(), status_width);
    out.push(
        cat2(
            status_key.as_str(),
            color_for_stream(label.as_str(), status_style(status), emit_colors).as_str(),
        ),
    );
    out.push(cat2(branch_key.as_str(), truncate_cols(branch_line, branch_width).as_str()));
    out.push(String::new());
    assert(crate::text::texts(out@) =~= head_lines(
        path@,
        status,
        branch_line@,
        w as nat,
        emit_colors,
    ));
    out
}

/// A reviewed path as it is shown.
pub open spec fn shown_path(row: ReviewRow) -> Seq<char> {
    row.rel_path + if row.is_dir {
        "/"@
    } else {
        ""@
    }
}

/// The width of the review's path column.
pub open spec fn item_column(w: nat) -> nat {
    crate::layout::less(w, 34)
}

/// The lines of one reviewed path: one with columns where there is room, else
/// its label and fate below it.
pub open spec fn review_row_lines(row: ReviewRow, w: nat, emit_colors: bool) -> Seq<
    Seq<char>,
> {
    if w >= REVIEW_COLUMNAR_MIN_W {
        seq![
            "  ▸ "@ + crate::layout::padded_path(shown_path(row), item_column(w)) + " "@
                + crate::layout::padded_in_style(
                row.label,
                LABEL_W as nat,
                TextStyle::Dimmed,
                emit_colors,
            ) + " "@ + crate::style::painted(row.fate, TextStyle::Dimmed, emit_colors),
        ]
    } else {
        let inner = crate::layout::budget_after("    "@, w);
        seq![
            crate::layout::clipped("  ▸ "@, w) + crate::layout::truncated_path(
                shown_path(row),
                crate::layout::budget_after("  ▸ "@, w),
            ),
        ] + crate::layout::prefixed(
            crate::layout::clipped("    "@, w),
            crate::layout::packed(
                seq![
                    styled_cell(
                        crate::layout::truncated(row.label, inner),
                        TextStyle::Dimmed,
                        emit_colors,
                    ),
                    styled_cell(
                        crate::layout::truncated(row.fate, inner),
                        TextStyle::Dimmed,
                        emit_colors,
                    ),
                ],
                inner,
                " · "@,
            ),
        )
    }
}

/// The lines of the reviewed paths.
pub open spec fn review_rows_lines(rows: Seq<ReviewRow>, w: nat, emit_colors: bool) -> Seq<
    Seq<char>,
>
    decreases rows.len(),
{
    if rows.len() == 0 {
        Seq::empty()
    } else {
        review_rows_lines(rows.drop_last(), w, emit_colors) + review_row_lines(
            rows.last(),
            w,
            emit_colors,
        )
    }
}

/// The total below a review.
pub open spec fn review_total(count: nat, total_size: Option<Seq<char>>) -> Seq<char> {
    "total · "@ + crate::text::decimal(count) + " item(s)"@ + match total_size {
        Some(s) => " · ~"@ + s,
        None => Seq::empty(),
    }
}

/// The review of a project: its branch state, and every untracked path with
/// its label and fate.
pub open spec fn review_lines(
    path: Seq<char>,
    branch_line: Seq<char>,
    rows: Seq<ReviewRow>,
    total_size: Option<Seq<char>>,
    w: nat,
    emit_colors: bool,
) -> Seq<Seq<char>> {
    head_lines(path, Status::Cleanable, branch_line, w, emit_colors).push(
        crate::style::painted(
            crate::layout::truncated("GITIGNORED REVIEW"@, w),
            TextStyle::Dimmed,
            emit_colors,
        ),
    ) + review_rows_lines(rows, w, emit_colors) + crate::layout::wrapped(
        review_total(rows.len(), total_size),
        w,
    )
}

fn push_review_row(out: &mut Vec<String>, row: &CleanReviewRow<'_>, w: usize, emit_colors: bool)
    ensures
        crate::text::texts(final(out)@) == crate::text::texts(old(out)@) + review_row_lines(
            row@,
            w as nat,
            emit_colors,
        ),
{
    let ghost had = crate::text::texts(out@);
    let item = cat2(
        row.rel_path,
        if row.is_dir {
            "/"
        } else {
            ""
        },
    );
    if w >= REVIEW_COLUMNAR_MIN_W {
        let mut line = cat3("  ▸ ", pad_path(item.as_str(), minus(w, 34)).as_str(), " ");
        line.append(
            styled_padded(row.label, LABEL_W, TextStyle::Dimmed, emit_colors).as_str(),
        );
        line.append(" ");
        line.append(dim(row.fate, emit_colors).as_str());
        push_line(out, line);
        assert(crate::text::texts(out@) =~= had + review_row_lines(row@, w as nat, emit_colors));
        return;
    }
    let (bullet, item_budget) = prefix_budget("  ▸ ", w);
    push_line(
        out,
        cat2(bullet.as_str(), truncate_path_cols(item.as_str(), item_budget).as_str()),
    );
    let (indent, inner) = prefix_budget("    ", w);
    let label = truncate_cols(row.label, inner);
    let fate = truncate_cols(row.fate, inner);
    let mut detail: Vec<(usize, String)> = Vec::new();
    detail.push((width(label.as_str()), dim(label.as_str(), emit_colors)));
    detail.push((width(fate.as_str()), dim(fate.as_str(), emit_colors)));
    assert(crate::layout::cells(detail@) =~= seq![
        styled_cell(label@, TextStyle::Dimmed, emit_colors),
        styled_cell(fate@, TextStyle::Dimmed, emit_colors),
    ]);
    let lines = pack_columns(detail.as_slice(), inner, " · ");
    push_prefixed(out, indent.as_str(), lines.as_slice());
    assert(crate::text::texts(out@) =~= had + review_row_lines(row@, w as nat, emit_colors));
}

/// The review of a project: its branch state, and every untracked path with
/// its label and fate. It asks nothing.
pub fn format_clean_review(
    path: &str,
    branch_line: &str,
    rows: &[CleanReviewRow<'_>],
    total_size: Option<&str>,
    w: usize,
    emit_colors: bool,
) -> (out: Vec<String>)
    ensures
        crate::text::texts(out@) == review_lines(
            path@,
            branch_line@,
            review_views(rows@),
            crate::text::str_text(total_size),
            w as nat,
            emit_colors,
        ),
{
    let mut out = panel_head(path, Status::Cleanable, branch_line, w, emit_colors);
    push_line(&mut out, dim(truncate_cols("GITIGNORED REVIEW", w).as_str(), emit_colors));
    let ghost head = crate::text::texts(out@);
    let ghost all = review_views(rows@);
    let mut i: usize = 0;
    assert(all.take(0) =~= Seq::<ReviewRow>::empty());
    assert(head =~= head + review_rows_lines(all.take(0), w as nat, emit_colors));
    while i < rows.len()
        invariant
            i <= rows@.len(),
            all == review_views(rows@),
            crate::text::texts(out@) == head + review_rows_lines(
                all.take(i as int),
                w as nat,
                emit_colors,
            ),
        decreases rows@.len() - i,
    {
        assert(all.take(i + 1).drop_last() =~= all.take(i as int));
        assert(all.take(i + 1).last() == rows@[i as int]@);
        push_review_row(&mut out, &rows[i], w, emit_colors);
        i = i + 1;
        assert(crate::text::texts(out@) =~= head + review_rows_lines(
            all.take(i as int),
            w as nat,
            emit_colors,
        ));
    }
    assert(all.take(i as int) =~= all);
    let mut total = cat3("total · ", decimal_text(rows.len() as u64).as_str(), " item(s)");
    let ghost start = total@;
    if let Some(s) = total_size {
        total.append(cat2(" · ~", s).as_str());
    }
    assert(total@ =~= review_total(rows@.len(), crate::text::str_text(total_size)));
    push_lines(&mut out, wrap_plain(total.as_str(), w));
    out
}

/// The prose of the refusal.
pub open spec fn only_clean_trees() -> Seq<char> {
    "offcut only cleans projects with a clean, pushed tree, so nothing in progress is ever lost."@
}

/// The command that the refusal ends with.
pub open spec fn rerun_command(path: Seq<char>, w: nat) -> Seq<char> {
    crate::layout::clipped("offcut clean "@, w) + crate::layout::truncated_path(
        path,
        crate::layout::budget_after("offcut clean "@, w),
    )
}

/// The last sentence of the refusal: what to do and what to run then.
pub open spec fn rerun_cells(path: Seq<char>, w: nat, emit_colors: bool) -> Seq<
    crate::layout::Cell,
> {
    crate::layout::word_cell_views(
        "→ commit, push, or initialize as needed, then run"@,
        w,
    ).push(styled_cell(rerun_command(path, w), TextStyle::Bold, emit_colors))
        + crate::layout::word_cell_views("again"@, w)
}

/// The panel of a project that cannot be cleaned as it is.
pub open spec fn blocked_lines(
    path: Seq<char>,
    status: Status,
    committed: bool,
    branch_line: Seq<char>,
    details: Seq<Seq<char>>,
    possible_reclaim: Option<Seq<char>>,
    w: nat,
    emit_colors: bool,
) -> Seq<Seq<char>> {
    let indent = crate::layout::clipped("   "@, w);
    let inner = crate::layout::budget_after("   "@, w);
    head_lines(path, status, branch_line, w, emit_colors) + crate::layout::painted_lines(
        crate::layout::wrapped(
            "✗ refusing to clean - "@ + crate::interactive::refusal_reason(status, committed),
            w,
        ),
        bold_style_of(status),
        emit_colors,
    ) + crate::layout::wrapped(only_clean_trees(), w) + details.map_values(
        |d: Seq<char>|
            indent + crate::style::painted(
                crate::layout::truncated(d, inner),
                TextStyle::Dimmed,
                emit_colors,
            ),
    ) + crate::layout::packed(rerun_cells(path, w, emit_colors), w, " "@)
        + match possible_reclaim {
        Some(size) => crate::layout::prefixed(
            indent,
            crate::layout::painted_lines(
                crate::layout::wrapped(
                    "~"@ + size + " would become reclaimable once the project is cleanable."@,
                    inner,
                ),
                TextStyle::Dimmed,
                emit_colors,
            ),
        ),
        None => Seq::empty(),
    }
}

/// The panel of a project whose state blocks cleaning: what is wrong, the
/// details git gives, and what to run once it is mended.
pub fn format_blocked_project(
    path: &str,
    status: Status,
    committed: bool,
    branch_line: &str,
    details: &[String],
    possible_reclaim: Option<&str>,
    w: usize,
    emit_colors: bool,
) -> (out: Vec<String>)
    ensures
        crate::text::texts(out@) == blocked_lines(
            path@,
            status,
            committed,
            branch_line@,
            crate::text::texts(details@),
            crate::text::str_text(possible_reclaim),
            w as nat,
            emit_colors,
        ),
{
    let mut out = panel_head(path, status, branch_line, w, emit_colors);
    push_lines(
        &mut out,
        wrap_styled(
            cat2("✗ refusing to clean - ", blocked_reason(status, committed)).as_str(),
            w,
            bold_status_style(status),
            emit_colors,
        ),
    );
    push_lines(
        &mut out,
        wrap_plain(
            "offcut only cleans projects with a clean, pushed tree, so nothing in progress is ever lost.",
            w,
        ),
    );
    let (indent, inner) = prefix_budget("   ", w);
    let ghost head = crate::text::texts(out@);
    let ghost all = crate::text::texts(details@);
    let ghost shown = all.map_values(
        |d: Seq<char>|
            indent@ + crate::style::painted(
                crate::layout::truncated(d, inner as nat),
                TextStyle::Dimmed,
                emit_colors,
            ),
    );
    let mut i: usize = 0;
    assert(head =~= head + shown.take(0));
    while i < details.len()
        invariant
            i <= details@.len(),
            all == crate::text::texts(details@),
            shown == all.map_values(
                |d: Seq<char>|
                    indent@ + crate::style::painted(
                        crate::layout::truncated(d, inner as nat),
                        TextStyle::Dimmed,
                        emit_colors,
                    ),
            ),
            crate::text::texts(out@) == head + shown.take(i as int),
        decreases details@.len() - i,
    {
        let ghost before = crate::text::texts(out@);
        assert(all[i as int] == details@[i as int]@);
        push_line(
            &mut out,
            cat2(
                indent.as_str(),
                dim(truncate_cols(details[i].as_str(), inner).as_str(), emit_colors).as_str(),
            ),
        );
        i = i + 1;
        assert(before.push(shown[i - 1]) =~= head + shown.take(i as int));
    }
    assert(shown.take(i as int) =~= shown);
    let (verb, path_budget) = prefix_budget("offcut clean ", w);
    let command = cat2(verb.as_str(), truncate_path_cols(path, path_budget).as_str());
    let mut hint = word_cells("→ commit, push, or initialize as needed, then run", w);
    let ghost first = crate::layout::cells(hint@);
    hint.push(
        (
            width(command.as_str()),
            color_for_stream(command.as_str(), TextStyle::Bold, emit_colors),
        ),
    );
    let mut again = word_cells("again", w);
    let ghost last = crate::layout::cells(again@);
    hint.append(&mut again);
    assert(crate::layout::cells(hint@) =~= rerun_cells(path@, w as nat, emit_colors));
    push_lines(&mut out, pack_columns(hint.as_slice(), w, " "));
    let ghost most = crate::text::texts(out@);
    if let Some(size) = possible_reclaim {
        let lines = wrap_styled(
            cat3(
                "~",
                size,
                " would become reclaimable once the project is cleanable.",
            ).as_str(),
            inner,
            TextStyle::Dimmed,
            emit_colors,
        );
        push_prefixed(&mut out, indent.as_str(), lines.as_slice());
    }
    assert(possible_reclaim is None ==> most =~= most + Seq::<Seq<char>>::empty());
    out
}

/// The prose of the panel for a tidy project.
pub open spec fn tidy_prose() -> Seq<char> {
    "committed and pushed, with no unprotected gitignored paths left - anything still here is protected by .offcutignore."@
}

/// The panel of a project that has nothing to clean.
pub open spec fn nothing_lines(
    path: Seq<char>,
    branch_line: Seq<char>,
    w: nat,
    emit_colors: bool,
) -> Seq<Seq<char>> {
    head_lines(path, Status::Clean, branch_line, w, emit_colors) + crate::layout::painted_lines(
        crate::layout::wrapped(
            "✓ nothing to reclaim - "@ + short_name(path) + " is already tidy"@,
            w,
        ),
        TextStyle::GreenBold,
        emit_colors,
    ) + crate::layout::wrapped(tidy_prose(), w)
}

/// The panel of a project that has nothing to clean. It refuses nothing and
/// does not deny what ignore rules protect.
pub fn format_nothing_to_reclaim(path: &str, branch_line: &str, w: usize, emit_colors: bool) -> (out:
    Vec<String>)
    ensures
        crate::text::texts(out@) == nothing_lines(path@, branch_line@, w as nat, emit_colors),
{
    let mut out = panel_head(path, Status::Clean, branch_line, w, emit_colors);
    push_lines(
        &mut out,
        wrap_styled(
            cat3(
                "✓ nothing to reclaim - ",
                project_name(path).as_str(),
                " is already tidy",
            ).as_str(),
            w,
            TextStyle::GreenBold,
            emit_colors,
        ),
    );
    push_lines(
        &mut out,
        wrap_plain(
            "committed and pushed, with no unprotected gitignored paths left - anything still here is protected by .offcutignore.",
            w,
        ),
    );
    out
}

/// Whether a status blocks cleaning until the user acts.
pub open spec fn is_blocking(status: Status) -> bool {
    match status {
        Status::NoGit | Status::NoRemote | Status::Unpushed | Status::Wip => true,
        Status::Cleanable | Status::Clean => false,
    }
}

/// Whether a status blocks cleaning until the user acts. A clean project does
/// not: there is nothing to do.
pub fn blocks_cleaning(status: Status) -> (r: bool)
    ensures
        r == is_blocking(status),
{
    match status {
        Status::NoGit | Status::NoRemote | Status::Unpushed | Status::Wip => true,
        Status::Cleanable | Status::Clean => false,
    }
}

/// The first sentence of the success panel.
pub open spec fn success_text(
    path: Seq<char>,
    deleted_count: nat,
    reclaimed: Option<Seq<char>>,
) -> Seq<char> {
    "✓ "@ + match reclaimed {
        Some(s) => "reclaimed ~"@ + s + " - "@,
        None => Seq::empty(),
    } + "removed "@ + crate::text::decimal(deleted_count) + " item(s) from "@ + short_name(path)
}

/// The panel that closes a clean run.
pub open spec fn success_lines(
    path: Seq<char>,
    deleted_count: nat,
    reclaimed: Option<Seq<char>>,
    w: nat,
    emit_colors: bool,
) -> Seq<Seq<char>> {
    crate::layout::painted_lines(
        crate::layout::wrapped(success_text(path, deleted_count, reclaimed), w),
        TextStyle::GreenBold,
        emit_colors,
    ) + crate::layout::wrapped("gitignored paths only - tracked files untouched."@, w)
}

/// The panel that closes a clean run: what was removed, and that nothing else
/// was touched.
pub fn format_clean_success(
    path: &str,
    deleted_count: usize,
    reclaimed: Option<&str>,
    w: usize,
    emit_colors: bool,
) -> (out: Vec<String>)
    ensures
        crate::text::texts(out@) == success_lines(
            path@,
            deleted_count as nat,
            crate::text::str_text(reclaimed),
            w as nat,
            emit_colors,
        ),
{
    let mut text = "✓ ".to_owned();
    if let Some(s) = reclaimed {
        text.append(cat3("reclaimed ~", s, " - ").as_str());
    } else {
        assert(text@ =~= "✓ "@ + Seq::<char>::empty());
    }
    text.append("removed ");
    text.append(decimal_text(deleted_count as u64).as_str());
    text.append(" item(s) from ");
    text.append(project_name(path).as_str());
    assert(text@ == success_text(
        path@,
        deleted_count as nat,
        crate::text::str_text(reclaimed),
    ));
    let mut out = wrap_styled(text.as_str(), w, TextStyle::GreenBold, emit_colors);
    push_lines(&mut out, wrap_plain("gitignored paths only - tracked files untouched.", w));
    out
}

/// A line of a lead and a path, in `w` columns.
pub open spec fn path_line(lead: Seq<char>, path: Seq<char>, w: nat) -> Seq<char> {
    crate::layout::clipped(lead, w) + crate::layout::truncated_path(
        path,
        crate::layout::budget_after(lead, w),
    )
}

/// A line of a lead and a path. The lead keeps its columns; the path gets what
/// is left and keeps its end.
pub fn format_path_line(lead: &str, path: &str, w: usize) -> (out: String)
    ensures
        out@ == path_line(lead@, path@, w as nat),
{
    let (lead, budget) = prefix_budget(lead, w);
    cat2(lead.as_str(), truncate_path_cols(path, budget).as_str())
}

/// Wraps a line of its own at words into lines of at most `width` columns.
pub fn wrap_line(text: &str, w: usize) -> (out: Vec<String>)
    ensures
        crate::text::texts(out@) == crate::layout::wrapped(text@, w as nat),
{
    wrap_plain(text, w)
}

/// A stream is drawn on only if it is a terminal and not a dumb one; color takes that and
/// a user who asked for nothing plain; in JSON mode standard output has neither.
pub proof fn color_and_drawing_need_a_terminal(t: Terminal)
    ensures
        !t.stdout_is_tty ==> !stdout_is_rich(t) && !stdout_is_colored(t) && !rows_are_colored(t),
        !t.stderr_is_tty ==> !stderr_is_rich(t) && !stderr_is_colored(t),
        crate::text::opt_text(t.term) == Some("dumb"@) ==> !stdout_is_rich(t) && !stderr_is_rich(t)
            && !rows_are_colored(t),
        t.no_color ==> !stdout_is_colored(t) && !stderr_is_colored(t) && !rows_are_colored(t),
        crate::text::opt_text(t.clicolor) == Some("0"@) ==> !stdout_is_colored(t)
            && !stderr_is_colored(t) && !rows_are_colored(t),
        t.stdout_is_tty && crate::text::opt_text(t.term) != Some("dumb"@) ==> stdout_is_rich(t)
            == !t.json_mode,
        t.stderr_is_tty && crate::text::opt_text(t.term) != Some("dumb"@) ==> stderr_is_rich(t)
            == !t.json_mode,
        t.stdout_is_tty && crate::text::opt_text(t.term) != Some("dumb"@) && !t.no_color
            && crate::text::opt_text(t.clicolor) != Some("0"@) ==> rows_are_colored(t)
            && stdout_is_colored(t) == !t.json_mode,
        emits(Some(true), t),
        !emits(Some(false), t),
        emits(None, t) == rows_are_colored(t),
{
}

/// A project is called by its path, with `~` for the home directory where the path is that
/// directory or lies below it; a directory whose name merely starts alike is not.
pub proof fn only_what_lies_at_home_is_shortened(home: Seq<char>, rest: Seq<char>, path: Seq<char>)
    requires
        home.len() > 0,
    ensures
        label_under(home, Some(home)) == "~"@,
        label_under(home + seq!['/'] + rest, Some(home)) == "~"@ + seq!['/'] + rest,
        path != home && !(home + seq!['/']).is_prefix_of(path) ==> label_under(path, Some(home))
            == path,
        label_under(path, None) == path,
{
    let below = home + seq!['/'] + rest;
    assert(home.is_prefix_of(home)) by {
        assert(home =~= home.subrange(0, home.len() as int));
    }
    assert(home.skip(home.len() as int) =~= Seq::<char>::empty());
    assert(home.is_prefix_of(below)) by {
        assert(home =~= below.subrange(0, home.len() as int));
    }
    assert(below.skip(home.len() as int) =~= seq!['/'] + rest);
    assert("~"@ + (seq!['/'] + rest) =~= "~"@ + seq!['/'] + rest);
    if home.is_prefix_of(path) && path != home {
        let tail = path.skip(home.len() as int);
        assert(path =~= home + tail);
        if tail.len() == 0 {
            assert(path =~= home);
        } else if tail[0] == '/' {
            assert((home + seq!['/']) =~= path.subrange(0, home.len() as int + 1));
        }
    }
}

/// Cleaning is blocked for every project that is not committed and pushed to a remote, and
/// for no other.
pub proof fn unsettled_projects_are_blocked(status: Status)
    ensures
        is_blocking(status) <==> status == Status::NoGit || status == Status::NoRemote || status
            == Status::Unpushed || status == Status::Wip,
{
}

/// A review has the lines of every item, in order, and so has the narrow table of every
/// project.
pub proof fn every_row_is_shown(
    rows: Seq<ReviewRow>,
    projects: Seq<TableRow>,
    w: nat,
    home: Option<Seq<char>>,
    emit_colors: bool,
)
    ensures
        review_rows_lines(rows, w, emit_colors) == Seq::new(
            rows.len(),
            |i: int| review_row_lines(rows[i], w, emit_colors),
        ).flatten_alt(),
        all_stacked_lines(projects, w, home, emit_colors) == Seq::new(
            projects.len(),
            |i: int| stacked_lines(projects[i], w, home, emit_colors),
        ).flatten_alt(),
{
    lemma_review_rows(rows, w, emit_colors);
    lemma_stacked_rows(projects, w, home, emit_colors);
}

proof fn lemma_review_rows(rows: Seq<ReviewRow>, w: nat, emit_colors: bool)
    ensures
        review_rows_lines(rows, w, emit_colors) == Seq::new(
            rows.len(),
            |i: int| review_row_lines(rows[i], w, emit_colors),
        ).flatten_alt(),
    decreases rows.len(),
{
    let blocks = Seq::new(rows.len(), |i: int| review_row_lines(rows[i], w, emit_colors));
    if rows.len() > 0 {
        let front = rows.drop_last();
        lemma_review_rows(front, w, emit_colors);
        assert(blocks.drop_last() =~= Seq::new(
            front.len(),
            |i: int| review_row_lines(front[i], w, emit_colors),
        ));
    } else {
        assert(blocks.flatten_alt() =~= Seq::<Seq<char>>::empty());
    }
}

proof fn lemma_stacked_rows(
    rows: Seq<TableRow>,
    w: nat,
    home: Option<Seq<char>>,
    emit_colors: bool,
)
    ensures
        all_stacked_lines(rows, w, home, emit_colors) == Seq::new(
            rows.len(),
            |i: int| stacked_lines(rows[i], w, home, emit_colors),
        ).flatten_alt(),
    decreases rows.len(),
{
    let blocks = Seq::new(rows.len(), |i: int| stacked_lines(rows[i], w, home, emit_colors));
    if rows.len() > 0 {
        let front = rows.drop_last();
        lemma_stacked_rows(front, w, home, emit_colors);
        assert(blocks.drop_last() =~= Seq::new(
            front.len(),
            |i: int| stacked_lines(front[i], w, home, emit_colors),
        ));
    } else {
        assert(blocks.flatten_alt() =~= Seq::<Seq<char>>::empty());
    }
}

/// On a wide enough terminal a reviewed path has one line, which starts with its marker
/// and ends with its fate; a directory is shown with a slash.
pub proof fn a_reviewed_path_ends_with_its_fate(row: ReviewRow, w: nat)
    requires
        w >= REVIEW_COLUMNAR_MIN_W,
    ensures
        review_row_lines(row, w, false).len() == 1,
        ({
            let line = review_row_lines(row, w, false)[0];
            &&& line.len() >= row.fate.len()
            &&& line.skip(line.len() - row.fate.len()) == row.fate
            &&& "  ▸ "@.is_prefix_of(line)
        }),
        row.is_dir ==> shown_path(row) == row.rel_path + seq!['/'],
        !row.is_dir ==> shown_path(row) == row.rel_path,
{
    reveal_strlit("/");
    reveal_strlit("");
    let line = review_row_lines(row, w, false)[0];
    assert(line.skip(line.len() - row.fate.len()) =~= row.fate);
    assert("  ▸ "@ =~= line.subrange(0, "  ▸ "@.len() as int));
    assert("/"@ =~= seq!['/']);
    assert(row.rel_path + ""@ =~= row.rel_path);
}

/// The wide table has a header and one line for every project, in order.
pub proof fn the_wide_table_has_a_line_for_every_project(
    rows: Seq<TableRow>,
    w: nat,
    home: Option<Seq<char>>,
    emit_colors: bool,
    i: int,
)
    requires
        w >= 84,
        0 <= i < rows.len(),
    ensures
        table_body(rows, w, home, emit_colors).len() == rows.len() + 1,
        table_body(rows, w, home, emit_colors)[i + 1] == table_line(rows[i], w, home, emit_colors),
        crate::layout::padded_path(label_under(rows[i].path, home), (w - 62) as nat).is_prefix_of(
            table_line(rows[i], w, home, emit_colors),
        ),
{
    let line = table_line(rows[i], w, home, emit_colors);
    let head = crate::layout::padded_path(label_under(rows[i].path, home), (w - 62) as nat);
    assert(head =~= line.subrange(0, head.len() as int));
}

/// Without color a row starts with the rank, the path and the status. A size ends it only
/// where the project can be cleaned; what is wrong with another stands in brackets.
pub proof fn rows_tell_rank_path_and_status(
    path: Seq<char>,
    status: Status,
    size: Option<Seq<char>>,
)
    ensures
        ({
            let row = row_text(path, status, false, size);
            let start = "  ["@ + crate::text::decimal(crate::classify::rank_of(status) as nat)
                + "] "@ + path + " — "@ + crate::classify::label_of(status);
            &&& start.is_prefix_of(row)
            &&& status == Status::Cleanable && size is Some ==> row == start + " (~"@ + size->0
                + ")"@
            &&& status == Status::Clean || (status == Status::Cleanable && size is None) ==> row
                == start
            &&& is_blocking(status) ==> row == start + " ("@ + crate::interactive::reason_of(status)
                + ")"@
        }),
{
    let row = row_text(path, status, false, size);
    let start = "  ["@ + crate::text::decimal(crate::classify::rank_of(status) as nat) + "] "@
        + path + " — "@ + crate::classify::label_of(status);
    assert(start =~= row.subrange(0, start.len() as int));
    reveal_strlit("no-git");
    reveal_strlit("not git-initialized");
    reveal_strlit("no-remote");
    reveal_strlit("no remote configured");
    reveal_strlit("unpushed");
    reveal_strlit("has unpushed commits");
    reveal_strlit("wip");
    reveal_strlit("uncommitted work in progress");
    if status == Status::Cleanable && size is Some {
        assert(row =~= start + " (~"@ + size->0 + ")"@);
    } else if is_blocking(status) {
        assert(row =~= start + " ("@ + crate::interactive::reason_of(status) + ")"@);
    } else {
        assert(row =~= start);
    }
}

/// A refusal shows every detail it was given, in order, in a line of its own, cut to what
/// fits.
pub proof fn a_refusal_shows_every_detail(
    path: Seq<char>,
    status: Status,
    committed: bool,
    branch_line: Seq<char>,
    details: Seq<Seq<char>>,
    possible_reclaim: Option<Seq<char>>,
    w: nat,
) -> (at: int)
    requires
        w >= 3,
    ensures
        0 <= at,
        ({
            let lines = blocked_lines(
                path,
                status,
                committed,
                branch_line,
                details,
                possible_reclaim,
                w,
                false,
            );
            &&& at + details.len() <= lines.len()
            &&& forall|i: int|
                0 <= i < details.len() ==> lines[at + i] == "   "@ + crate::layout::truncated(
                    #[trigger] details[i],
                    (w - 3) as nat,
                )
        }),
{
    reveal_strlit("   ");
    crate::columns::narrow_text("   "@);
    let head = head_lines(path, status, branch_line, w, false) + crate::layout::painted_lines(
        crate::layout::wrapped(
            "✗ refusing to clean - "@ + crate::interactive::refusal_reason(status, committed),
            w,
        ),
        bold_style_of(status),
        false,
    ) + crate::layout::wrapped(only_clean_trees(), w);
    crate::layout::cutting_keeps_one_end("   "@, w);
    head.len() as int
}

/// The wide review and the panels start with the header, the status and the branch.
pub proof fn panels_tell_status_and_branch(
    path: Seq<char>,
    status: Status,
    branch_line: Seq<char>,
    w: nat,
)
    requires
        w >= 9,
    ensures
        head_lines(path, status, branch_line, w, false)[1] == "status   "@
            + crate::layout::truncated(crate::classify::label_of(status), (w - 9) as nat),
        head_lines(path, status, branch_line, w, false)[2] == "branch   "@
            + crate::layout::truncated(branch_line, (w - 9) as nat),
{
    reveal_strlit("status   ");
    reveal_strlit("branch   ");
    crate::columns::narrow_text("status   "@);
    crate::columns::narrow_text("branch   "@);
}

/// A success tells how many items went and from which project, and what that reclaimed
/// where it is known.
pub proof fn a_success_tells_what_went(
    path: Seq<char>,
    deleted_count: nat,
    size: Seq<char>,
)
    ensures
        success_text(path, deleted_count, None) == "✓ removed "@ + crate::text::decimal(
            deleted_count,
        ) + " item(s) from "@ + short_name(path),
        success_text(path, deleted_count, Some(size)) == "✓ reclaimed ~"@ + size + " - removed "@
            + crate::text::decimal(deleted_count) + " item(s) from "@ + short_name(path),
        crate::paths::name_of(path) matches Some(n) && n.len() > 0 ==> short_name(path)
            == crate::paths::name_of(path)->0,
{
    reveal_strlit("✓ ");
    reveal_strlit("removed ");
    reveal_strlit("✓ removed ");
    reveal_strlit("reclaimed ~");
    reveal_strlit("✓ reclaimed ~");
    reveal_strlit(" - ");
    reveal_strlit(" - removed ");
    let end = crate::text::decimal(deleted_count) + " item(s) from "@ + short_name(path);
    assert(success_text(path, deleted_count, None) =~= "✓ removed "@ + end);
    assert("✓ removed "@ + end =~= "✓ removed "@ + crate::text::decimal(deleted_count)
        + " item(s) from "@ + short_name(path));
    assert(success_text(path, deleted_count, Some(size)) =~= "✓ reclaimed ~"@ + size
        + " - removed "@ + crate::text::decimal(deleted_count) + " item(s) from "@ + short_name(
        path,
    ));
}

/// A summary tells how many projects there are, how many of them can be cleaned, and what
/// that would reclaim, as far as each is known.
pub proof fn a_summary_tells_what_is_known(
    count: nat,
    cleanable: Option<usize>,
    size: Option<Seq<char>>,
)
    ensures
        ({
            let text = summary_text(count, cleanable, size);
            let head = "listing: "@ + crate::text::decimal(count) + " project(s), "@;
            &&& cleanable is None ==> text == head + "sorted by status"@
            &&& cleanable is Some && size is None ==> text == head + crate::text::decimal(
                cleanable->0 as nat,
            ) + " cleanable"@
            &&& cleanable is Some && size is Some ==> text == head + crate::text::decimal(
                cleanable->0 as nat,
            ) + " cleanable, ~"@ + size->0 + " reclaimable"@
        }),
{
    reveal_strlit(" project(s)");
    reveal_strlit(" project(s), ");
    reveal_strlit(", ");
    reveal_strlit(", sorted by status");
    reveal_strlit("sorted by status");
    let text = summary_text(count, cleanable, size);
    let head = "listing: "@ + crate::text::decimal(count) + " project(s), "@;
    let short = "listing: "@ + crate::text::decimal(count) + " project(s)"@;
    assert(short + ", "@ =~= head);
    if cleanable is None {
        assert(text =~= head + "sorted by status"@);
    }
}

/// A review ends with how many items it has and, where it is known, their size.
pub proof fn a_review_counts_its_items(count: nat, size: Seq<char>)
    ensures
        review_total(count, None) == "total · "@ + crate::text::decimal(count) + " item(s)"@,
        review_total(count, Some(size)) == review_total(count, None) + " · ~"@ + size,
{
    let short = "total · "@ + crate::text::decimal(count) + " item(s)"@;
    assert(review_total(count, None) =~= short);
    assert(review_total(count, Some(size)) =~= short + " · ~"@ + size);
}

/// The foot of the table counts the projects and, where that is anything, what the
/// cleanable ones would reclaim; it names no size where there is none to clean.
pub proof fn the_foot_counts_the_projects(count: nat, cleanable_count: nat, size: Seq<char>)
    ensures
        summary_segments(count, cleanable_count, None).len() == 2,
        summary_segments(count, cleanable_count, Some(size))[0] == summary_segments(
            count,
            cleanable_count,
            None,
        )[0],
        summary_segments(1, cleanable_count, None)[0] == "✓ 1 project"@,
        count != 1 ==> summary_segments(count, cleanable_count, None)[0] == "✓ "@
            + crate::text::decimal(count) + " projects"@,
        summary_segments(count, cleanable_count, None)[1] == crate::text::decimal(cleanable_count)
            + " cleanable"@,
        summary_segments(count, 0, Some(size)) == summary_segments(count, 0, None),
        cleanable_count > 0 ==> summary_segments(count, cleanable_count, Some(size))[1] == "~"@
            + size + " reclaimable across "@ + crate::text::decimal(cleanable_count)
            + " cleanable"@,
{
    reveal_strlit("✓ ");
    reveal_strlit(" ");
    reveal_strlit("project");
    reveal_strlit("projects");
    reveal_strlit(" projects");
    reveal_strlit("✓ 1 project");
    assert(" "@ + "projects"@ =~= " projects"@);
    assert(summary_segments(count, 0, Some(size)) =~= summary_segments(count, 0, None));
    let one = summary_segments(1, cleanable_count, None)[0];
    assert(crate::text::decimal(1) =~= seq!['1']);
    assert(one =~= "✓ 1 project"@);
    if count != 1 {
        assert(summary_segments(count, cleanable_count, None)[0] =~= "✓ "@ + crate::text::decimal(
            count,
        ) + " projects"@);
    }
}

} // verus!
