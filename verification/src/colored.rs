//! Laws of colored panels: what a terminal shows of them fits it.
//!
//! Escape sequences take no columns, so a colored line is measured by what is
//! shown of it (see [`crate::visible::shown`]). As in [`crate::fit`], the laws
//! are stated for text whose characters stand alone.

use vstd::prelude::*;

use crate::classify::Status;
use crate::output::{ReviewRow, TableRow};
use crate::style::TextStyle;

verus! {

/// Whether what is shown of a line fits into `w` columns.
pub open spec fn shown_line_fits(line: Seq<char>, w: nat) -> bool {
    !crate::visible::shown(line).inside && crate::fit::line_fits(
        crate::visible::shown(line).text,
        w,
    )
}

/// Whether what is shown of every line fits into `w` columns.
pub open spec fn shown_fits(lines: Seq<Seq<char>>, w: nat) -> bool {
    forall|i: int| 0 <= i < lines.len() ==> shown_line_fits(#[trigger] lines[i], w)
}

proof fn lemma_shown_fits_concat(a: Seq<Seq<char>>, b: Seq<Seq<char>>, w: nat)
    requires
        shown_fits(a, w),
        shown_fits(b, w),
    ensures
        shown_fits(a + b, w),
{
    assert forall|i: int| 0 <= i < (a + b).len() implies shown_line_fits(
        #[trigger] (a + b)[i],
        w,
    ) by {
        if i < a.len() {
            assert(shown_line_fits(a[i], w));
        } else {
            assert(shown_line_fits(b[i - a.len()], w));
        }
    }
}

/// Lines that fit together fit in parts.
proof fn lemma_fits_parts(a: Seq<Seq<char>>, b: Seq<Seq<char>>, w: nat)
    requires
        crate::fit::fits(a + b, w),
    ensures
        crate::fit::fits(a, w),
        crate::fit::fits(b, w),
{
    assert forall|i: int| 0 <= i < a.len() implies crate::fit::line_fits(#[trigger] a[i], w) by {
        assert((a + b)[i] == a[i]);
    }
    assert forall|i: int| 0 <= i < b.len() implies crate::fit::line_fits(#[trigger] b[i], w) by {
        assert((a + b)[a.len() + i] == b[i]);
    }
}

/// What shows lines that fit fits.
proof fn lemma_showing_fits(styled: Seq<Seq<char>>, plain: Seq<Seq<char>>, w: nat)
    requires
        crate::visible::lines_show(styled, plain),
        crate::fit::fits(plain, w),
    ensures
        shown_fits(styled, w),
{
    assert forall|i: int| 0 <= i < styled.len() implies shown_line_fits(
        #[trigger] styled[i],
        w,
    ) by {
        assert(crate::visible::shows(styled[i], plain[i]));
        assert(crate::fit::line_fits(plain[i], w));
    }
}

/// Text whose characters stand alone holds no escape character and is shown as
/// it is.
proof fn lemma_alone_is_shown(s: Seq<char>)
    requires
        crate::columns::all_alone(s),
    ensures
        crate::visible::no_escape(s),
        crate::visible::shows(s, s),
{
    assert forall|i: int| 0 <= i < s.len() implies #[trigger] s[i] != '\u{1b}' by {
        assert(crate::columns::stands_alone(s[i]));
    }
    crate::visible::plain_text_is_shown_as_it_is(s);
}

proof fn lemma_painted_is_shown(s: Seq<char>, style: TextStyle)
    requires
        crate::columns::all_alone(s),
    ensures
        crate::visible::shows(crate::style::painted(s, style, true), s),
{
    lemma_alone_is_shown(s);
    crate::visible::styled_text_is_shown_as_it_is(s, style, true);
}

proof fn lemma_lines_show_themselves(lines: Seq<Seq<char>>, w: nat)
    requires
        crate::fit::fits(lines, w),
    ensures
        crate::visible::lines_show(lines, lines),
        shown_fits(lines, w),
{
    assert forall|i: int| 0 <= i < lines.len() implies crate::visible::shows(
        #[trigger] lines[i],
        lines[i],
    ) by {
        assert(crate::fit::line_fits(lines[i], w));
        lemma_alone_is_shown(lines[i]);
    }
    lemma_showing_fits(lines, lines, w);
}

proof fn lemma_painted_lines_show(lines: Seq<Seq<char>>, style: TextStyle, w: nat)
    requires
        crate::fit::fits(crate::layout::painted_lines(lines, style, false), w),
    ensures
        crate::fit::fits(lines, w),
        crate::visible::lines_show(crate::layout::painted_lines(lines, style, true), lines),
        shown_fits(crate::layout::painted_lines(lines, style, true), w),
{
    assert(crate::layout::painted_lines(lines, style, false) =~= lines);
    let styled = crate::layout::painted_lines(lines, style, true);
    assert forall|i: int| 0 <= i < styled.len() implies crate::visible::shows(
        #[trigger] styled[i],
        lines[i],
    ) by {
        assert(crate::fit::line_fits(lines[i], w));
        lemma_painted_is_shown(lines[i], style);
    }
    lemma_showing_fits(styled, lines, w);
}

/// Whether an entry states the width of what is shown of it and fits into `w`
/// columns.
pub open spec fn shown_honest(entry: crate::layout::Cell, w: nat) -> bool {
    &&& shown_line_fits(entry.text, w)
    &&& entry.columns == crate::columns::columns(crate::visible::shown(entry.text).text)
}

/// Whether every entry states the width of what is shown of it and fits into
/// `w` columns.
pub open spec fn all_shown_honest(entries: Seq<crate::layout::Cell>, w: nat) -> bool {
    forall|i: int| 0 <= i < entries.len() ==> shown_honest(#[trigger] entries[i], w)
}

proof fn lemma_packing_shown_fits(entries: Seq<crate::layout::Cell>, w: nat, sep: Seq<char>)
    requires
        all_shown_honest(entries, w),
        crate::columns::all_alone(sep),
    ensures
        shown_fits(crate::layout::packing(entries, w, sep).lines, w),
        shown_line_fits(crate::layout::packing(entries, w, sep).line, w),
        crate::layout::packing(entries, w, sep).columns == crate::columns::columns(
            crate::visible::shown(crate::layout::packing(entries, w, sep).line).text,
        ),
    decreases entries.len(),
{
    if entries.len() > 0 {
        let front = entries.drop_last();
        assert(all_shown_honest(front, w)) by {
            assert forall|i: int| 0 <= i < front.len() implies shown_honest(
                #[trigger] front[i],
                w,
            ) by {
                assert(shown_honest(entries[i], w));
            }
        }
        lemma_packing_shown_fits(front, w, sep);
        let before = crate::layout::packing(front, w, sep);
        let entry = entries.last();
        assert(shown_honest(entries[entries.len() - 1], w));
        lemma_alone_is_shown(sep);
        crate::visible::lemma_shown_concat(before.line, sep);
        crate::visible::lemma_shown_concat(before.line + sep, entry.text);
        let shown_line = crate::visible::shown(before.line).text;
        let shown_entry = crate::visible::shown(entry.text).text;
        crate::columns::columns_of_concatenation(shown_line, sep);
        crate::columns::columns_of_concatenation(shown_line + sep, shown_entry);
        let after = crate::layout::packing(entries, w, sep);
        assert forall|i: int| 0 <= i < after.lines.len() implies shown_line_fits(
            #[trigger] after.lines[i],
            w,
        ) by {
            if i < before.lines.len() {
                assert(shown_line_fits(before.lines[i], w));
            }
        }
    }
}

/// What is shown of packed lines fits, where what is shown of each entry does.
pub proof fn packed_colors_fit(entries: Seq<crate::layout::Cell>, w: nat, sep: Seq<char>)
    requires
        all_shown_honest(entries, w),
        crate::columns::all_alone(sep),
    ensures
        shown_fits(crate::layout::packed(entries, w, sep), w),
{
    lemma_packing_shown_fits(entries, w, sep);
    let p = crate::layout::packing(entries, w, sep);
    let lines = crate::layout::packed(entries, w, sep);
    assert forall|i: int| 0 <= i < lines.len() implies shown_line_fits(#[trigger] lines[i], w) by {
        if i < p.lines.len() {
            assert(shown_line_fits(p.lines[i], w));
        }
    }
}

proof fn lemma_prefixed_shown_fits(prefix: Seq<char>, lines: Seq<Seq<char>>, w: nat)
    requires
        crate::columns::all_alone(prefix),
        shown_fits(lines, crate::layout::budget_after(prefix, w)),
    ensures
        shown_fits(crate::layout::prefixed(crate::layout::clipped(prefix, w), lines), w),
{
    let cut = crate::layout::clipped(prefix, w);
    crate::fit::clipped_text_fits(prefix, w);
    lemma_alone_is_shown(cut);
    let out = crate::layout::prefixed(cut, lines);
    assert forall|i: int| 0 <= i < out.len() implies shown_line_fits(#[trigger] out[i], w) by {
        assert(shown_line_fits(lines[i], crate::layout::budget_after(prefix, w)));
        crate::visible::lemma_shown_concat(cut, lines[i]);
        crate::columns::columns_of_concatenation(cut, crate::visible::shown(lines[i]).text);
    }
}

proof fn lemma_styled_cell_honest(text: Seq<char>, style: TextStyle, w: nat)
    requires
        crate::fit::line_fits(text, w),
    ensures
        shown_honest(crate::output::styled_cell(text, style, true), w),
        shown_honest(crate::layout::plain_cell(text), w),
{
    lemma_painted_is_shown(text, style);
    lemma_alone_is_shown(text);
}

proof fn lemma_header_shows(path: Seq<char>, w: nat)
    requires
        crate::columns::all_alone(path),
    ensures
        crate::visible::shows(
            crate::output::review_header(path, w, true),
            crate::output::review_header(path, w, false),
        ),
{
    reveal_strlit("⟩ analyzing ");
    reveal_strlit(" · ");
    crate::columns::narrow_text("⟩ analyzing "@);
    crate::columns::narrow_text(" · "@);
    let prefix = crate::layout::truncated("⟩ analyzing "@, w);
    crate::fit::truncated_text_fits("⟩ analyzing "@, w);
    lemma_alone_is_shown(prefix);
    let budget = crate::layout::less(w, crate::columns::columns(prefix));
    crate::fit::lemma_name_alone(path);
    let name = crate::layout::truncated_path(crate::output::short_name(path), budget);
    crate::fit::truncated_path_fits(crate::output::short_name(path), budget);
    let left = crate::layout::less(
        crate::layout::less(budget, crate::columns::columns(name)),
        crate::columns::columns(" · "@),
    );
    let bold = crate::style::painted(name, TextStyle::Bold, true);
    lemma_painted_is_shown(name, TextStyle::Bold);
    crate::visible::lemma_shows_concat(prefix, prefix, bold, name);
    if left > 0 {
        let tail = crate::layout::truncated_path(path, left);
        crate::fit::truncated_path_fits(path, left);
        let faint = crate::style::painted(tail, TextStyle::Dimmed, true);
        lemma_painted_is_shown(tail, TextStyle::Dimmed);
        lemma_alone_is_shown(" · "@);
        crate::visible::lemma_shows_concat(" · "@, " · "@, faint, tail);
        crate::visible::lemma_shows_concat(
            prefix + bold,
            prefix + name,
            " · "@ + faint,
            " · "@ + tail,
        );
    } else {
        assert(prefix + bold + Seq::<char>::empty() =~= prefix + bold);
        assert(prefix + name + Seq::<char>::empty() =~= prefix + name);
    }
}

proof fn lemma_head_shows(path: Seq<char>, status: Status, branch_line: Seq<char>, w: nat)
    requires
        crate::columns::all_alone(path),
        crate::columns::all_alone(branch_line),
    ensures
        crate::visible::lines_show(
            crate::output::head_lines(path, status, branch_line, w, true),
            crate::output::head_lines(path, status, branch_line, w, false),
        ),
{
    let styled = crate::output::head_lines(path, status, branch_line, w, true);
    let plain = crate::output::head_lines(path, status, branch_line, w, false);
    lemma_header_shows(path, w);
    reveal_strlit("status   ");
    reveal_strlit("branch   ");
    crate::columns::narrow_text("status   "@);
    crate::columns::narrow_text("branch   "@);
    let key = crate::layout::clipped("status   "@, w);
    crate::fit::clipped_text_fits("status   "@, w);
    lemma_alone_is_shown(key);
    let a = crate::layout::budget_after("status   "@, w);
    crate::fit::lemma_labels_alone(status);
    crate::columns::narrow_text(crate::classify::label_of(status));
    crate::fit::truncated_text_fits(crate::classify::label_of(status), a);
    let word = crate::layout::truncated(crate::classify::label_of(status), a);
    let style = crate::output::style_of(status);
    lemma_painted_is_shown(word, style);
    crate::visible::lemma_shows_concat(
        key,
        key,
        crate::style::painted(word, style, true),
        word,
    );
    crate::fit::clipped_text_fits("branch   "@, w);
    let b = crate::layout::budget_after("branch   "@, w);
    crate::fit::truncated_text_fits(branch_line, b);
    lemma_alone_is_shown(crate::layout::clipped("branch   "@, w));
    lemma_alone_is_shown(crate::layout::truncated(branch_line, b));
    crate::visible::lemma_shows_concat(
        crate::layout::clipped("branch   "@, w),
        crate::layout::clipped("branch   "@, w),
        crate::layout::truncated(branch_line, b),
        crate::layout::truncated(branch_line, b),
    );
    lemma_alone_is_shown(Seq::<char>::empty());
    assert forall|i: int| 0 <= i < styled.len() implies crate::visible::shows(
        #[trigger] styled[i],
        plain[i],
    ) by {
        assert(i == 0 || i == 1 || i == 2 || i == 3);
    }
}

proof fn lemma_review_row_shown_fits(row: ReviewRow, w: nat)
    requires
        crate::fit::plain_row(row),
        crate::fit::fits(crate::output::review_row_lines(row, w, false), w),
    ensures
        shown_fits(crate::output::review_row_lines(row, w, true), w),
{
    reveal_strlit("/");
    reveal_strlit("");
    reveal_strlit("  ▸ ");
    reveal_strlit(" ");
    reveal_strlit("    ");
    reveal_strlit(" · ");
    crate::columns::narrow_text("/"@);
    crate::columns::narrow_text(""@);
    crate::columns::narrow_text("  ▸ "@);
    crate::columns::narrow_text(" "@);
    crate::columns::narrow_text("    "@);
    crate::columns::narrow_text(" · "@);
    let path = crate::output::shown_path(row);
    crate::columns::columns_of_concatenation(
        row.rel_path,
        if row.is_dir {
            "/"@
        } else {
            ""@
        },
    );
    let styled = crate::output::review_row_lines(row, w, true);
    let plain = crate::output::review_row_lines(row, w, false);
    if w >= crate::output::REVIEW_COLUMNAR_MIN_W {
        let lw = crate::output::LABEL_W as nat;
        let a = "  ▸ "@;
        let b = crate::layout::padded_path(path, crate::output::item_column(w));
        let cut = crate::layout::truncated(row.label, lw);
        let fill = crate::layout::filler(cut, lw);
        crate::fit::padding_fills_the_column(path, crate::output::item_column(w));
        crate::fit::truncated_text_fits(row.label, lw);
        crate::columns::spaces_are_one_column_each(
            crate::layout::less(lw, crate::columns::columns(cut)),
        );
        let c = crate::layout::padded_in_style(row.label, lw, TextStyle::Dimmed, true);
        let d = crate::layout::padded_in_style(row.label, lw, TextStyle::Dimmed, false);
        let e = crate::style::painted(row.fate, TextStyle::Dimmed, true);
        lemma_alone_is_shown(a);
        lemma_alone_is_shown(b);
        lemma_alone_is_shown(" "@);
        lemma_alone_is_shown(fill);
        lemma_painted_is_shown(cut, TextStyle::Dimmed);
        lemma_painted_is_shown(row.fate, TextStyle::Dimmed);
        crate::visible::lemma_shows_concat(
            crate::style::painted(cut, TextStyle::Dimmed, true),
            cut,
            fill,
            fill,
        );
        crate::visible::lemma_shows_concat(a, a, b, b);
        crate::visible::lemma_shows_concat(a + b, a + b, " "@, " "@);
        crate::visible::lemma_shows_concat(a + b + " "@, a + b + " "@, c, d);
        crate::visible::lemma_shows_concat(a + b + " "@ + c, a + b + " "@ + d, " "@, " "@);
        crate::visible::lemma_shows_concat(
            a + b + " "@ + c + " "@,
            a + b + " "@ + d + " "@,
            e,
            row.fate,
        );
        assert(styled[0] == a + b + " "@ + c + " "@ + e);
        assert(plain[0] == a + b + " "@ + d + " "@ + row.fate);
        lemma_showing_fits(styled, plain, w);
    } else {
        let budget = crate::layout::budget_after("  ▸ "@, w);
        let first = crate::layout::clipped("  ▸ "@, w) + crate::layout::truncated_path(
            path,
            budget,
        );
        assert(plain[0] == first);
        assert(crate::fit::line_fits(plain[0], w));
        assert(crate::fit::fits(seq![first], w));
        lemma_lines_show_themselves(seq![first], w);
        let inner = crate::layout::budget_after("    "@, w);
        let label = crate::layout::truncated(row.label, inner);
        let fate = crate::layout::truncated(row.fate, inner);
        crate::fit::truncated_text_fits(row.label, inner);
        crate::fit::truncated_text_fits(row.fate, inner);
        lemma_styled_cell_honest(label, TextStyle::Dimmed, inner);
        lemma_styled_cell_honest(fate, TextStyle::Dimmed, inner);
        let entries = seq![
            crate::output::styled_cell(label, TextStyle::Dimmed, true),
            crate::output::styled_cell(fate, TextStyle::Dimmed, true),
        ];
        assert(all_shown_honest(entries, inner));
        packed_colors_fit(entries, inner, " · "@);
        let rest = crate::layout::packed(entries, inner, " · "@);
        lemma_prefixed_shown_fits("    "@, rest, w);
        lemma_shown_fits_concat(
            seq![first],
            crate::layout::prefixed(crate::layout::clipped("    "@, w), rest),
            w,
        );
    }
}

proof fn lemma_review_rows_shown_fit(rows: Seq<ReviewRow>, w: nat)
    requires
        forall|i: int| 0 <= i < rows.len() ==> crate::fit::plain_row(#[trigger] rows[i]),
        crate::fit::fits(crate::output::review_rows_lines(rows, w, false), w),
    ensures
        shown_fits(crate::output::review_rows_lines(rows, w, true), w),
    decreases rows.len(),
{
    if rows.len() > 0 {
        let front = rows.drop_last();
        assert forall|i: int| 0 <= i < front.len() implies crate::fit::plain_row(
            #[trigger] front[i],
        ) by {
            assert(crate::fit::plain_row(rows[i]));
        }
        assert(crate::fit::plain_row(rows[rows.len() - 1]));
        lemma_fits_parts(
            crate::output::review_rows_lines(front, w, false),
            crate::output::review_row_lines(rows.last(), w, false),
            w,
        );
        lemma_review_rows_shown_fit(front, w);
        lemma_review_row_shown_fits(rows.last(), w);
        lemma_shown_fits_concat(
            crate::output::review_rows_lines(front, w, true),
            crate::output::review_row_lines(rows.last(), w, true),
            w,
        );
    }
}

/// What is shown of a colored review fits at every width.
pub proof fn colored_review_fits(
    path: Seq<char>,
    branch_line: Seq<char>,
    rows: Seq<ReviewRow>,
    total_size: Option<Seq<char>>,
    w: nat,
)
    requires
        crate::columns::all_alone(path),
        crate::columns::all_alone(branch_line),
        forall|i: int| 0 <= i < rows.len() ==> crate::fit::plain_row(#[trigger] rows[i]),
        total_size matches Some(s) ==> crate::columns::all_alone(s),
    ensures
        shown_fits(crate::output::review_lines(path, branch_line, rows, total_size, w, true), w),
{
    crate::fit::review_lines_fit(path, branch_line, rows, total_size, w);
    let head_p = crate::output::head_lines(path, Status::Cleanable, branch_line, w, false);
    let head_c = crate::output::head_lines(path, Status::Cleanable, branch_line, w, true);
    let title = crate::layout::truncated("GITIGNORED REVIEW"@, w);
    let title_c = crate::style::painted(title, TextStyle::Dimmed, true);
    let rows_p = crate::output::review_rows_lines(rows, w, false);
    let rows_c = crate::output::review_rows_lines(rows, w, true);
    let total = crate::layout::wrapped(crate::output::review_total(rows.len(), total_size), w);
    lemma_fits_parts(head_p.push(title) + rows_p, total, w);
    lemma_fits_parts(head_p.push(title), rows_p, w);
    assert(head_p.push(title) =~= head_p + seq![title]);
    lemma_fits_parts(head_p, seq![title], w);
    assert(crate::fit::line_fits(seq![title][0], w));
    lemma_head_shows(path, Status::Cleanable, branch_line, w);
    lemma_showing_fits(head_c, head_p, w);
    lemma_painted_is_shown(title, TextStyle::Dimmed);
    assert(crate::visible::lines_show(seq![title_c], seq![title]));
    lemma_showing_fits(seq![title_c], seq![title], w);
    lemma_shown_fits_concat(head_c, seq![title_c], w);
    assert(head_c.push(title_c) =~= head_c + seq![title_c]);
    lemma_review_rows_shown_fit(rows, w);
    lemma_shown_fits_concat(head_c.push(title_c), rows_c, w);
    lemma_lines_show_themselves(total, w);
    lemma_shown_fits_concat(head_c.push(title_c) + rows_c, total, w);
}

/// What is shown of a colored panel for a tidy project fits at every width.
pub proof fn colored_tidy_panel_fits(path: Seq<char>, branch_line: Seq<char>, w: nat)
    requires
        crate::columns::all_alone(path),
        crate::columns::all_alone(branch_line),
    ensures
        shown_fits(crate::output::nothing_lines(path, branch_line, w, true), w),
{
    crate::fit::nothing_lines_fit(path, branch_line, w);
    let head_p = crate::output::head_lines(path, Status::Clean, branch_line, w, false);
    let head_c = crate::output::head_lines(path, Status::Clean, branch_line, w, true);
    let news = crate::layout::wrapped(
        "✓ nothing to reclaim - "@ + crate::output::short_name(path) + " is already tidy"@,
        w,
    );
    let news_p = crate::layout::painted_lines(news, TextStyle::GreenBold, false);
    let news_c = crate::layout::painted_lines(news, TextStyle::GreenBold, true);
    let prose = crate::layout::wrapped(crate::output::tidy_prose(), w);
    lemma_fits_parts(head_p + news_p, prose, w);
    lemma_fits_parts(head_p, news_p, w);
    lemma_head_shows(path, Status::Clean, branch_line, w);
    lemma_showing_fits(head_c, head_p, w);
    lemma_painted_lines_show(news, TextStyle::GreenBold, w);
    lemma_lines_show_themselves(prose, w);
    lemma_shown_fits_concat(head_c, news_c, w);
    lemma_shown_fits_concat(head_c + news_c, prose, w);
}

/// What is shown of a colored success panel fits at every width.
pub proof fn colored_success_fits(
    path: Seq<char>,
    deleted_count: nat,
    reclaimed: Option<Seq<char>>,
    w: nat,
)
    requires
        crate::columns::all_alone(path),
        reclaimed matches Some(s) ==> crate::columns::all_alone(s),
    ensures
        shown_fits(crate::output::success_lines(path, deleted_count, reclaimed, w, true), w),
{
    crate::fit::success_lines_fit(path, deleted_count, reclaimed, w);
    let news = crate::layout::wrapped(
        crate::output::success_text(path, deleted_count, reclaimed),
        w,
    );
    let prose = crate::layout::wrapped("gitignored paths only - tracked files untouched."@, w);
    lemma_fits_parts(
        crate::layout::painted_lines(news, TextStyle::GreenBold, false),
        prose,
        w,
    );
    lemma_painted_lines_show(news, TextStyle::GreenBold, w);
    lemma_lines_show_themselves(prose, w);
    lemma_shown_fits_concat(
        crate::layout::painted_lines(news, TextStyle::GreenBold, true),
        prose,
        w,
    );
}

proof fn lemma_rerun_shown_fits(path: Seq<char>, w: nat)
    requires
        crate::columns::all_alone(path),
    ensures
        shown_fits(crate::layout::packed(crate::output::rerun_cells(path, w, true), w, " "@), w),
{
    reveal_strlit("→ commit, push, or initialize as needed, then run");
    reveal_strlit("again");
    reveal_strlit("offcut clean ");
    reveal_strlit(" ");
    crate::columns::narrow_text("→ commit, push, or initialize as needed, then run"@);
    crate::columns::narrow_text("again"@);
    crate::columns::narrow_text("offcut clean "@);
    crate::columns::narrow_text(" "@);
    let a = crate::layout::word_cell_views("→ commit, push, or initialize as needed, then run"@, w);
    let b = crate::layout::word_cell_views("again"@, w);
    crate::fit::lemma_word_cells_honest("→ commit, push, or initialize as needed, then run"@, w);
    crate::fit::lemma_word_cells_honest("again"@, w);
    crate::fit::path_lines_fit("offcut clean "@, path, w);
    assert(crate::output::rerun_command(path, w) == crate::output::path_line(
        "offcut clean "@,
        path,
        w,
    ));
    lemma_styled_cell_honest(crate::output::rerun_command(path, w), TextStyle::Bold, w);
    let entries = crate::output::rerun_cells(path, w, true);
    assert forall|i: int| 0 <= i < entries.len() implies shown_honest(#[trigger] entries[i], w) by {
        if i < a.len() {
            assert(crate::fit::honest(a[i], w));
            lemma_alone_is_shown(a[i].text);
            assert(entries[i] == a[i]);
        } else if i > a.len() {
            assert(crate::fit::honest(b[i - a.len() - 1], w));
            lemma_alone_is_shown(b[i - a.len() - 1].text);
            assert(entries[i] == b[i - a.len() - 1]);
        }
    }
    packed_colors_fit(entries, w, " "@);
}

/// What is shown of a colored refusal fits at every width.
pub proof fn colored_refusal_fits(
    path: Seq<char>,
    status: Status,
    committed: bool,
    branch_line: Seq<char>,
    details: Seq<Seq<char>>,
    possible_reclaim: Option<Seq<char>>,
    w: nat,
)
    requires
        crate::columns::all_alone(path),
        crate::columns::all_alone(branch_line),
        forall|i: int| 0 <= i < details.len() ==> crate::columns::all_alone(#[trigger] details[i]),
        possible_reclaim matches Some(s) ==> crate::columns::all_alone(s),
    ensures
        shown_fits(
            crate::output::blocked_lines(
                path,
                status,
                committed,
                branch_line,
                details,
                possible_reclaim,
                w,
                true,
            ),
            w,
        ),
{
    crate::fit::blocked_lines_fit(
        path,
        status,
        committed,
        branch_line,
        details,
        possible_reclaim,
        w,
    );
    let indent = crate::layout::clipped("   "@, w);
    let inner = crate::layout::budget_after("   "@, w);
    let style = crate::output::bold_style_of(status);
    let head_p = crate::output::head_lines(path, status, branch_line, w, false);
    let head_c = crate::output::head_lines(path, status, branch_line, w, true);
    let refusal = crate::layout::wrapped(
        "✗ refusing to clean - "@ + crate::interactive::refusal_reason(status, committed),
        w,
    );
    let refusal_p = crate::layout::painted_lines(refusal, style, false);
    let refusal_c = crate::layout::painted_lines(refusal, style, true);
    let prose = crate::layout::wrapped(crate::output::only_clean_trees(), w);
    let details_p = details.map_values(
        |d: Seq<char>|
            indent + crate::style::painted(
                crate::layout::truncated(d, inner),
                TextStyle::Dimmed,
                false,
            ),
    );
    let details_c = details.map_values(
        |d: Seq<char>|
            indent + crate::style::painted(
                crate::layout::truncated(d, inner),
                TextStyle::Dimmed,
                true,
            ),
    );
    let hint_p = crate::layout::packed(crate::output::rerun_cells(path, w, false), w, " "@);
    let hint_c = crate::layout::packed(crate::output::rerun_cells(path, w, true), w, " "@);
    let promise_of = |size: Seq<char>|
        crate::layout::wrapped(
            "~"@ + size + " would become reclaimable once the project is cleanable."@,
            inner,
        );
    let promise_p = match possible_reclaim {
        Some(size) => crate::layout::prefixed(
            indent,
            crate::layout::painted_lines(promise_of(size), TextStyle::Dimmed, false),
        ),
        None => Seq::empty(),
    };
    let promise_c = match possible_reclaim {
        Some(size) => crate::layout::prefixed(
            indent,
            crate::layout::painted_lines(promise_of(size), TextStyle::Dimmed, true),
        ),
        None => Seq::empty(),
    };
    let top = head_p + refusal_p + prose + details_p + hint_p;
    lemma_fits_parts(top, promise_p, w);
    lemma_fits_parts(head_p + refusal_p + prose + details_p, hint_p, w);
    lemma_fits_parts(head_p + refusal_p + prose, details_p, w);
    lemma_fits_parts(head_p + refusal_p, prose, w);
    lemma_fits_parts(head_p, refusal_p, w);
    lemma_head_shows(path, status, branch_line, w);
    lemma_showing_fits(head_c, head_p, w);
    lemma_painted_lines_show(refusal, style, w);
    lemma_lines_show_themselves(prose, w);
    reveal_strlit("   ");
    crate::columns::narrow_text("   "@);
    crate::fit::clipped_text_fits("   "@, w);
    lemma_alone_is_shown(indent);
    assert(crate::visible::lines_show(details_c, details_p)) by {
        assert forall|i: int| 0 <= i < details_c.len() implies crate::visible::shows(
            #[trigger] details_c[i],
            details_p[i],
        ) by {
            assert(crate::columns::all_alone(details[i]));
            crate::fit::truncated_text_fits(details[i], inner);
            let cut = crate::layout::truncated(details[i], inner);
            lemma_painted_is_shown(cut, TextStyle::Dimmed);
            crate::visible::lemma_shows_concat(
                indent,
                indent,
                crate::style::painted(cut, TextStyle::Dimmed, true),
                cut,
            );
        }
    }
    lemma_showing_fits(details_c, details_p, w);
    lemma_rerun_shown_fits(path, w);
    match possible_reclaim {
        Some(size) => {
            reveal_strlit("~");
            reveal_strlit(" would become reclaimable once the project is cleanable.");
            crate::columns::narrow_text("~"@);
            crate::columns::narrow_text(
                " would become reclaimable once the project is cleanable."@,
            );
            let text = "~"@ + size + " would become reclaimable once the project is cleanable."@;
            crate::columns::columns_of_concatenation("~"@, size);
            crate::columns::columns_of_concatenation(
                "~"@ + size,
                " would become reclaimable once the project is cleanable."@,
            );
            crate::fit::wrapped_text_fits(text, inner);
            assert(crate::layout::painted_lines(promise_of(size), TextStyle::Dimmed, false)
                =~= promise_of(size));
            lemma_painted_lines_show(promise_of(size), TextStyle::Dimmed, inner);
            lemma_prefixed_shown_fits(
                "   "@,
                crate::layout::painted_lines(promise_of(size), TextStyle::Dimmed, true),
                w,
            );
        },
        None => {},
    }
    lemma_shown_fits_concat(head_c, refusal_c, w);
    lemma_shown_fits_concat(head_c + refusal_c, prose, w);
    lemma_shown_fits_concat(head_c + refusal_c + prose, details_c, w);
    lemma_shown_fits_concat(head_c + refusal_c + prose + details_c, hint_c, w);
    lemma_shown_fits_concat(
        head_c + refusal_c + prose + details_c + hint_c,
        promise_c,
        w,
    );
}

proof fn lemma_stacked_shown_fits(row: TableRow, w: nat, home: Option<Seq<char>>)
    requires
        crate::fit::plain_table_row(row, home),
    ensures
        shown_fits(crate::output::stacked_lines(row, w, home, true), w),
{
    reveal_strlit("● ");
    reveal_strlit("  ");
    reveal_strlit(" · ");
    reveal_strlit("reclaim ");
    reveal_strlit("branch ");
    reveal_strlit("changed ");
    crate::columns::narrow_text("● "@);
    crate::columns::narrow_text("  "@);
    crate::columns::narrow_text(" · "@);
    crate::columns::narrow_text("reclaim "@);
    crate::columns::narrow_text("branch "@);
    crate::columns::narrow_text("changed "@);
    let style = crate::output::style_of(row.status);
    let label = crate::output::label_under(row.path, home);
    crate::fit::path_lines_fit("● "@, label, w);
    let mark = crate::layout::clipped("● "@, w);
    crate::fit::clipped_text_fits("● "@, w);
    let budget = crate::layout::budget_after("● "@, w);
    let name = crate::layout::truncated_path(label, budget);
    crate::fit::truncated_path_fits(label, budget);
    lemma_painted_is_shown(mark, style);
    lemma_alone_is_shown(name);
    crate::visible::lemma_shows_concat(
        crate::style::painted(mark, style, true),
        mark,
        name,
        name,
    );
    let first = crate::style::painted(mark, style, true) + name;
    assert(shown_line_fits(first, w));
    let inner = crate::layout::budget_after("  "@, w);
    crate::fit::lemma_labels_alone(row.status);
    crate::columns::narrow_text(crate::classify::label_of(row.status));
    let size = "reclaim "@ + crate::output::or_dash(row.size);
    let branch = "branch "@ + crate::output::or_dash(row.branch);
    let changed = "changed "@ + crate::output::or_dash(row.changed);
    crate::columns::columns_of_concatenation("reclaim "@, crate::output::or_dash(row.size));
    crate::columns::columns_of_concatenation("branch "@, crate::output::or_dash(row.branch));
    crate::columns::columns_of_concatenation("changed "@, crate::output::or_dash(row.changed));
    let word = crate::layout::truncated(crate::classify::label_of(row.status), inner);
    crate::fit::truncated_text_fits(crate::classify::label_of(row.status), inner);
    crate::fit::truncated_text_fits(size, inner);
    crate::fit::truncated_text_fits(branch, inner);
    crate::fit::truncated_text_fits(changed, inner);
    lemma_styled_cell_honest(word, style, inner);
    lemma_styled_cell_honest(crate::layout::truncated(size, inner), style, inner);
    lemma_styled_cell_honest(crate::layout::truncated(branch, inner), style, inner);
    lemma_styled_cell_honest(crate::layout::truncated(changed, inner), style, inner);
    let entries = crate::output::detail_cells(row, inner, true);
    assert forall|i: int| 0 <= i < entries.len() implies shown_honest(
        #[trigger] entries[i],
        inner,
    ) by {
        assert(i == 0 || i == 1 || i == 2 || i == 3);
    }
    packed_colors_fit(entries, inner, " · "@);
    let rest = crate::layout::packed(entries, inner, " · "@);
    lemma_prefixed_shown_fits("  "@, rest, w);
    assert(shown_fits(seq![first], w));
    lemma_shown_fits_concat(
        seq![first],
        crate::layout::prefixed(crate::layout::clipped("  "@, w), rest),
        w,
    );
}

proof fn lemma_all_stacked_shown_fit(rows: Seq<TableRow>, w: nat, home: Option<Seq<char>>)
    requires
        forall|i: int| 0 <= i < rows.len() ==> crate::fit::plain_table_row(#[trigger] rows[i], home),
    ensures
        shown_fits(crate::output::all_stacked_lines(rows, w, home, true), w),
    decreases rows.len(),
{
    if rows.len() > 0 {
        let front = rows.drop_last();
        assert forall|i: int| 0 <= i < front.len() implies crate::fit::plain_table_row(
            #[trigger] front[i],
            home,
        ) by {
            assert(crate::fit::plain_table_row(rows[i], home));
        }
        lemma_all_stacked_shown_fit(front, w, home);
        assert(crate::fit::plain_table_row(rows[rows.len() - 1], home));
        lemma_stacked_shown_fits(rows.last(), w, home);
        lemma_shown_fits_concat(
            crate::output::all_stacked_lines(front, w, home, true),
            crate::output::stacked_lines(rows.last(), w, home, true),
            w,
        );
    }
}

proof fn lemma_unescaped_row(row: TableRow, home: Option<Seq<char>>)
    requires
        crate::fit::plain_table_row(row, home),
    ensures
        crate::visible::unescaped_row(row, home),
{
    lemma_alone_is_shown(crate::output::label_under(row.path, home));
    lemma_alone_is_shown(crate::output::or_dash(row.size));
    lemma_alone_is_shown(crate::output::or_dash(row.branch));
    lemma_alone_is_shown(crate::output::or_dash(row.changed));
}

/// What is shown of every colored project row of the table fits at every
/// width.
pub proof fn colored_table_rows_fit(rows: Seq<TableRow>, w: nat, home: Option<Seq<char>>)
    requires
        forall|i: int| 0 <= i < rows.len() ==> crate::fit::plain_table_row(#[trigger] rows[i], home),
    ensures
        shown_fits(crate::output::table_body(rows, w, home, true), w),
{
    if w >= crate::output::TABLE_MIN_W {
        crate::fit::table_rows_fit(rows, w, home);
        let head = seq![crate::output::table_header(w)];
        let plain = rows.map_values(|r: TableRow| crate::output::table_line(r, w, home, false));
        let styled = rows.map_values(|r: TableRow| crate::output::table_line(r, w, home, true));
        lemma_fits_parts(head, plain, w);
        lemma_lines_show_themselves(head, w);
        assert(crate::visible::lines_show(styled, plain)) by {
            assert forall|i: int| 0 <= i < styled.len() implies crate::visible::shows(
                #[trigger] styled[i],
                plain[i],
            ) by {
                assert(crate::fit::plain_table_row(rows[i], home));
                lemma_unescaped_row(rows[i], home);
                crate::visible::lemma_table_line_shows(rows[i], w, home);
            }
        }
        lemma_showing_fits(styled, plain, w);
        lemma_shown_fits_concat(head, styled, w);
    } else {
        lemma_all_stacked_shown_fit(rows, w, home);
    }
}

/// What is shown of the whole colored table fits, once the terminal has room
/// for its widest fixed entry and for each half of the summary.
pub proof fn colored_table_fits(
    rows: Seq<TableRow>,
    cleanable_count: nat,
    total_reclaimable: Option<Seq<char>>,
    w: nat,
    home: Option<Seq<char>>,
)
    requires
        forall|i: int| 0 <= i < rows.len() ==> crate::fit::plain_table_row(#[trigger] rows[i], home),
        w >= 40,
        crate::fit::fits(
            crate::output::summary_segments(rows.len(), cleanable_count, total_reclaimable),
            w,
        ),
    ensures
        shown_fits(
            crate::output::table_lines(rows, cleanable_count, total_reclaimable, w, home, true),
            w,
        ),
{
    let segments = crate::output::summary_segments(rows.len(), cleanable_count, total_reclaimable);
    assert forall|i: int| 0 <= i < rows.len() implies crate::visible::unescaped_row(
        #[trigger] rows[i],
        home,
    ) by {
        assert(crate::fit::plain_table_row(rows[i], home));
        lemma_unescaped_row(rows[i], home);
    }
    assert forall|i: int| 0 <= i < 2 implies crate::visible::no_escape(#[trigger] segments[i]) by {
        assert(crate::fit::line_fits(segments[i], w));
        lemma_alone_is_shown(segments[i]);
    }
    crate::fit::table_lines_fit(rows, cleanable_count, total_reclaimable, w, home);
    crate::visible::color_does_not_change_the_table(
        rows,
        cleanable_count,
        total_reclaimable,
        w,
        home,
    );
    lemma_showing_fits(
        crate::output::table_lines(rows, cleanable_count, total_reclaimable, w, home, true),
        crate::output::table_lines(rows, cleanable_count, total_reclaimable, w, home, false),
        w,
    );
}

} // verus!
