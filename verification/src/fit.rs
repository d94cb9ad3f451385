//! Laws of the layout: what is laid out for a width fits it.
//!
//! They are stated for text whose characters stand alone (see
//! [`crate::columns::stands_alone`]): cutting counts characters one by one,
//! and characters that combine can be wider together than apart.

use vstd::prelude::*;

use crate::classify::Status;
use crate::output::{ReviewRow, TableRow};
use crate::style::TextStyle;

verus! {

/// Whether a line fits into `w` columns.
pub open spec fn line_fits(line: Seq<char>, w: nat) -> bool {
    crate::columns::all_alone(line) && crate::columns::columns(line) <= w
}

/// Whether every line fits into `w` columns.
pub open spec fn fits(lines: Seq<Seq<char>>, w: nat) -> bool {
    forall|i: int| 0 <= i < lines.len() ==> line_fits(#[trigger] lines[i], w)
}

proof fn lemma_fits_concat(a: Seq<Seq<char>>, b: Seq<Seq<char>>, w: nat)
    requires
        fits(a, w),
        fits(b, w),
    ensures
        fits(a + b, w),
{
    assert forall|i: int| 0 <= i < (a + b).len() implies line_fits(#[trigger] (a + b)[i], w) by {
        if i < a.len() {
            assert(line_fits(a[i], w));
        } else {
            assert(line_fits(b[i - a.len()], w));
        }
    }
}

proof fn lemma_empty_line_fits(w: nat)
    ensures
        line_fits(Seq::<char>::empty(), w),
{
}

/// A text cut without a trace fits.
pub proof fn clipped_text_fits(text: Seq<char>, w: nat)
    requires
        crate::columns::all_alone(text),
    ensures
        line_fits(crate::layout::clipped(text, w), w),
{
    crate::columns::left_part_fits(text, w);
}

/// A text cut at its end fits.
pub proof fn truncated_text_fits(text: Seq<char>, w: nat)
    requires
        crate::columns::all_alone(text),
    ensures
        line_fits(crate::layout::truncated(text, w), w),
{
    crate::columns::ellipsis_is_one_column();
    if w > 1 {
        let part = crate::columns::left_part(text, (w - 1) as nat);
        crate::columns::left_part_fits(text, (w - 1) as nat);
        crate::columns::columns_of_concatenation(part, seq!['…']);
    }
}

/// A path cut at its start fits.
pub proof fn truncated_path_fits(text: Seq<char>, w: nat)
    requires
        crate::columns::all_alone(text),
    ensures
        line_fits(crate::layout::truncated_path(text, w), w),
{
    crate::columns::ellipsis_is_one_column();
    if w > 1 {
        let part = crate::columns::right_part(text, (w - 1) as nat);
        crate::columns::right_part_fits(text, (w - 1) as nat);
        crate::columns::columns_of_concatenation(seq!['…'], part);
    }
}

/// A padded text takes exactly its columns, whichever side it is on.
pub proof fn padding_fills_the_column(text: Seq<char>, w: nat)
    requires
        crate::columns::all_alone(text),
    ensures
        line_fits(crate::layout::padded(text, w), w),
        crate::columns::columns(crate::layout::padded(text, w)) == w,
        line_fits(crate::layout::padded_start(text, w), w),
        crate::columns::columns(crate::layout::padded_start(text, w)) == w,
        line_fits(crate::layout::padded_path(text, w), w),
        crate::columns::columns(crate::layout::padded_path(text, w)) == w,
{
    let cut = crate::layout::truncated(text, w);
    truncated_text_fits(text, w);
    let fill = crate::layout::filler(cut, w);
    crate::columns::spaces_are_one_column_each(
        crate::layout::less(w, crate::columns::columns(cut)),
    );
    crate::columns::columns_of_concatenation(cut, fill);
    crate::columns::columns_of_concatenation(fill, cut);
    let path = crate::layout::truncated_path(text, w);
    truncated_path_fits(text, w);
    let rest = crate::layout::filler(path, w);
    crate::columns::spaces_are_one_column_each(
        crate::layout::less(w, crate::columns::columns(path)),
    );
    crate::columns::columns_of_concatenation(path, rest);
}

/// A prefix and what is cut to the columns it leaves fit together.
proof fn lemma_prefix_and_body(prefix: Seq<char>, body: Seq<char>, w: nat)
    requires
        crate::columns::all_alone(prefix),
        line_fits(body, crate::layout::budget_after(prefix, w)),
    ensures
        line_fits(crate::layout::clipped(prefix, w) + body, w),
{
    clipped_text_fits(prefix, w);
    crate::columns::columns_of_concatenation(crate::layout::clipped(prefix, w), body);
}

proof fn lemma_prefixed_fits(prefix: Seq<char>, lines: Seq<Seq<char>>, w: nat)
    requires
        crate::columns::all_alone(prefix),
        fits(lines, crate::layout::budget_after(prefix, w)),
    ensures
        fits(crate::layout::prefixed(crate::layout::clipped(prefix, w), lines), w),
{
    let out = crate::layout::prefixed(crate::layout::clipped(prefix, w), lines);
    assert forall|i: int| 0 <= i < out.len() implies line_fits(#[trigger] out[i], w) by {
        assert(line_fits(lines[i], crate::layout::budget_after(prefix, w)));
        lemma_prefix_and_body(prefix, lines[i], w);
    }
}

/// Whether an entry states its own width and fits into `w` columns.
pub open spec fn honest(entry: crate::layout::Cell, w: nat) -> bool {
    line_fits(entry.text, w) && entry.columns == crate::columns::columns(entry.text)
}

/// Whether every entry states its own width and fits into `w` columns.
pub open spec fn all_honest(entries: Seq<crate::layout::Cell>, w: nat) -> bool {
    forall|i: int| 0 <= i < entries.len() ==> honest(#[trigger] entries[i], w)
}

proof fn lemma_packing_fits(entries: Seq<crate::layout::Cell>, w: nat, sep: Seq<char>)
    requires
        all_honest(entries, w),
        crate::columns::all_alone(sep),
    ensures
        fits(crate::layout::packing(entries, w, sep).lines, w),
        line_fits(crate::layout::packing(entries, w, sep).line, w),
        crate::layout::packing(entries, w, sep).columns == crate::columns::columns(
            crate::layout::packing(entries, w, sep).line,
        ),
    decreases entries.len(),
{
    if entries.len() > 0 {
        let front = entries.drop_last();
        assert(all_honest(front, w)) by {
            assert forall|i: int| 0 <= i < front.len() implies honest(#[trigger] front[i], w) by {
                assert(honest(entries[i], w));
            }
        }
        lemma_packing_fits(front, w, sep);
        let before = crate::layout::packing(front, w, sep);
        let entry = entries.last();
        assert(honest(entries[entries.len() - 1], w));
        crate::columns::columns_of_concatenation(before.line, sep);
        crate::columns::columns_of_concatenation(before.line + sep, entry.text);
        let after = crate::layout::packing(entries, w, sep);
        assert forall|i: int| 0 <= i < after.lines.len() implies line_fits(
            #[trigger] after.lines[i],
            w,
        ) by {
            if i < before.lines.len() {
                assert(line_fits(before.lines[i], w));
            }
        }
    }
}

/// Packed lines fit, where each entry fits by itself.
pub proof fn packed_lines_fit(entries: Seq<crate::layout::Cell>, w: nat, sep: Seq<char>)
    requires
        all_honest(entries, w),
        crate::columns::all_alone(sep),
    ensures
        fits(crate::layout::packed(entries, w, sep), w),
{
    lemma_packing_fits(entries, w, sep);
    let p = crate::layout::packing(entries, w, sep);
    let lines = crate::layout::packed(entries, w, sep);
    assert forall|i: int| 0 <= i < lines.len() implies line_fits(#[trigger] lines[i], w) by {
        if i < p.lines.len() {
            assert(line_fits(p.lines[i], w));
        }
    }
}

/// The texts of entries.
pub open spec fn entry_texts(entries: Seq<crate::layout::Cell>) -> Seq<Seq<char>> {
    entries.map_values(|e: crate::layout::Cell| e.text)
}

proof fn lemma_joined_push(lines: Seq<Seq<char>>, line: Seq<char>, sep: Seq<char>)
    requires
        lines.len() > 0,
    ensures
        crate::text::joined(lines.push(line), sep) == crate::text::joined(lines, sep) + sep + line,
{
    assert(lines.push(line).drop_last() =~= lines);
}

/// Packing loses nothing and splits nothing: the lines joined by the separator
/// are the entries joined by it.
pub proof fn packing_keeps_every_entry(entries: Seq<crate::layout::Cell>, w: nat, sep: Seq<char>)
    requires
        forall|i: int| 0 <= i < entries.len() ==> (#[trigger] entries[i]).text.len() > 0,
    ensures
        crate::text::joined(crate::layout::packed(entries, w, sep), sep) == crate::text::joined(
            entry_texts(entries),
            sep,
        ),
        entries.len() > 0 ==> crate::layout::packing(entries, w, sep).line.len() > 0,
    decreases entries.len(),
{
    let texts = entry_texts(entries);
    let lines = crate::layout::packed(entries, w, sep);
    if entries.len() == 0 {
        assert(texts =~= Seq::<Seq<char>>::empty());
        assert(lines =~= Seq::<Seq<char>>::empty());
    } else {
        let front = entries.drop_last();
        assert forall|i: int| 0 <= i < front.len() implies (#[trigger] front[i]).text.len()
            > 0 by {
            assert(entries[i].text.len() > 0);
        }
        packing_keeps_every_entry(front, w, sep);
        let before = crate::layout::packing(front, w, sep);
        let entry = entries.last();
        assert(entries[entries.len() - 1].text.len() > 0);
        assert(texts.drop_last() =~= entry_texts(front));
        assert(texts.last() == entry.text);
        if front.len() == 0 {
            assert(texts =~= seq![entry.text]);
            assert(lines =~= seq![entry.text]);
        } else {
            let had = before.lines.push(before.line);
            lemma_joined_push(entry_texts(front), entry.text, sep);
            assert(texts =~= entry_texts(front).push(entry.text));
            if before.columns + crate::columns::columns(sep) + entry.columns > w {
                assert(lines =~= had.push(entry.text));
                lemma_joined_push(had, entry.text, sep);
            } else {
                let longer = before.line + sep + entry.text;
                assert(lines =~= before.lines.push(longer));
                if before.lines.len() == 0 {
                    assert(lines =~= seq![longer]);
                    assert(had =~= seq![before.line]);
                } else {
                    lemma_joined_push(before.lines, longer, sep);
                    lemma_joined_push(before.lines, before.line, sep);
                    let j = crate::text::joined(before.lines, sep);
                    assert(j + sep + longer =~= j + sep + before.line + sep + entry.text);
                }
            }
        }
    }
}

proof fn lemma_pieces_alone(s: Seq<char>)
    requires
        crate::columns::all_alone(s),
    ensures
        crate::text::split_on_white(s).len() > 0,
        forall|i: int|
            0 <= i < crate::text::split_on_white(s).len() ==> crate::columns::all_alone(
                #[trigger] crate::text::split_on_white(s)[i],
            ),
    decreases s.len(),
{
    let pieces = crate::text::split_on_white(s);
    if s.len() == 0 {
        assert forall|i: int| 0 <= i < pieces.len() implies crate::columns::all_alone(
            #[trigger] pieces[i],
        ) by {}
    } else {
        let front = s.drop_last();
        assert(crate::columns::all_alone(front)) by {
            assert forall|i: int| 0 <= i < front.len() implies crate::columns::stands_alone(
                #[trigger] front[i],
            ) by {
                assert(crate::columns::stands_alone(s[i]));
            }
        }
        lemma_pieces_alone(front);
        let before = crate::text::split_on_white(front);
        assert forall|i: int| 0 <= i < pieces.len() implies crate::columns::all_alone(
            #[trigger] pieces[i],
        ) by {
            if i < before.len() - 1 || crate::text::is_white(s.last()) && i < before.len() {
                assert(pieces[i] == before[i]);
            } else if !crate::text::is_white(s.last()) {
                let piece = before.last().push(s.last());
                assert(crate::columns::all_alone(before[before.len() - 1]));
                assert(crate::columns::stands_alone(s[s.len() - 1]));
                assert(pieces[i] == piece);
            }
        }
    }
}

proof fn lemma_non_empty_members(parts: Seq<Seq<char>>, k: int)
    requires
        0 <= k < crate::text::non_empty(parts).len(),
    ensures
        crate::text::non_empty(parts)[k].len() > 0,
        exists|i: int|
            0 <= i < parts.len() && #[trigger] parts[i] == crate::text::non_empty(parts)[k],
    decreases parts.len(),
{
    let front = parts.drop_last();
    if k < crate::text::non_empty(front).len() {
        lemma_non_empty_members(front, k);
        let i = choose|i: int|
            0 <= i < front.len() && #[trigger] front[i] == crate::text::non_empty(front)[k];
        assert(parts[i] == crate::text::non_empty(parts)[k]);
    } else {
        assert(parts[parts.len() - 1] == crate::text::non_empty(parts)[k]);
    }
}

pub(crate) proof fn lemma_word_cells_honest(text: Seq<char>, w: nat)
    requires
        crate::columns::all_alone(text),
    ensures
        all_honest(crate::layout::word_cell_views(text, w), w),
{
    let entries = crate::layout::word_cell_views(text, w);
    let words = crate::text::words_of(text);
    lemma_pieces_alone(text);
    assert forall|i: int| 0 <= i < entries.len() implies honest(#[trigger] entries[i], w) by {
        lemma_non_empty_members(crate::text::split_on_white(text), i);
        let j = choose|j: int|
            0 <= j < crate::text::split_on_white(text).len() && #[trigger]
                crate::text::split_on_white(text)[j] == words[i];
        assert(crate::columns::all_alone(crate::text::split_on_white(text)[j]));
        truncated_text_fits(words[i], w);
    }
}

/// Wrapped text fits.
pub proof fn wrapped_text_fits(text: Seq<char>, w: nat)
    requires
        crate::columns::all_alone(text),
    ensures
        fits(crate::layout::wrapped(text, w), w),
{
    lemma_word_cells_honest(text, w);
    reveal_strlit(" ");
    crate::columns::narrow_text(" "@);
    packed_lines_fit(crate::layout::word_cell_views(text, w), w, " "@);
}

proof fn lemma_plain_lines(lines: Seq<Seq<char>>, style: TextStyle)
    ensures
        crate::layout::painted_lines(lines, style, false) == lines,
{
    assert(crate::layout::painted_lines(lines, style, false) =~= lines);
}

/// A line of a lead and a path fits at every width.
pub proof fn path_lines_fit(lead: Seq<char>, path: Seq<char>, w: nat)
    requires
        crate::columns::all_alone(lead),
        crate::columns::all_alone(path),
    ensures
        line_fits(crate::output::path_line(lead, path, w), w),
{
    let budget = crate::layout::budget_after(lead, w);
    truncated_path_fits(path, budget);
    lemma_prefix_and_body(lead, crate::layout::truncated_path(path, budget), w);
}

pub(crate) proof fn lemma_labels_alone(status: Status)
    ensures
        crate::columns::all_narrow(crate::classify::label_of(status)),
        crate::columns::all_narrow(crate::interactive::reason_of(status)),
{
    reveal_strlit("no-git");
    reveal_strlit("no-remote");
    reveal_strlit("unpushed");
    reveal_strlit("wip");
    reveal_strlit("cleanable");
    reveal_strlit("clean");
    reveal_strlit("not git-initialized");
    reveal_strlit("no remote configured");
    reveal_strlit("has unpushed commits");
    reveal_strlit("uncommitted work in progress");
}

pub(crate) proof fn lemma_name_alone(path: Seq<char>)
    requires
        crate::columns::all_alone(path),
    ensures
        crate::columns::all_alone(crate::output::short_name(path)),
{
    if crate::paths::name_of(path) is Some {
        let n = crate::paths::name_of(path)->0;
        crate::paths::lemma_name_is_part(path);
        let at = choose|at: int| crate::paths::stands_at(path, n, at);
        assert forall|i: int| 0 <= i < n.len() implies crate::columns::stands_alone(
            #[trigger] n[i],
        ) by {
            assert(n[i] == path[at + i]);
            assert(crate::columns::stands_alone(path[at + i]));
        }
    }
}

proof fn lemma_header_fits(path: Seq<char>, w: nat)
    requires
        crate::columns::all_alone(path),
    ensures
        line_fits(crate::output::review_header(path, w, false), w),
{
    reveal_strlit("⟩ analyzing ");
    reveal_strlit(" · ");
    crate::columns::narrow_text("⟩ analyzing "@);
    crate::columns::narrow_text(" · "@);
    let prefix = crate::layout::truncated("⟩ analyzing "@, w);
    truncated_text_fits("⟩ analyzing "@, w);
    let budget = crate::layout::less(w, crate::columns::columns(prefix));
    lemma_name_alone(path);
    let name = crate::layout::truncated_path(crate::output::short_name(path), budget);
    truncated_path_fits(crate::output::short_name(path), budget);
    crate::columns::columns_of_concatenation(prefix, name);
    let left = crate::layout::less(
        crate::layout::less(budget, crate::columns::columns(name)),
        crate::columns::columns(" · "@),
    );
    if left > 0 {
        let tail = crate::layout::truncated_path(path, left);
        truncated_path_fits(path, left);
        crate::columns::columns_of_concatenation(" · "@, tail);
        crate::columns::columns_of_concatenation(prefix + name, " · "@ + tail);
    } else {
        assert(prefix + name + Seq::<char>::empty() =~= prefix + name);
    }
}

proof fn lemma_head_fits(path: Seq<char>, status: Status, branch_line: Seq<char>, w: nat)
    requires
        crate::columns::all_alone(path),
        crate::columns::all_alone(branch_line),
    ensures
        fits(crate::output::head_lines(path, status, branch_line, w, false), w),
{
    let lines = crate::output::head_lines(path, status, branch_line, w, false);
    lemma_header_fits(path, w);
    reveal_strlit("status   ");
    reveal_strlit("branch   ");
    crate::columns::narrow_text("status   "@);
    crate::columns::narrow_text("branch   "@);
    lemma_labels_alone(status);
    crate::columns::narrow_text(crate::classify::label_of(status));
    let a = crate::layout::budget_after("status   "@, w);
    truncated_text_fits(crate::classify::label_of(status), a);
    lemma_prefix_and_body(
        "status   "@,
        crate::layout::truncated(crate::classify::label_of(status), a),
        w,
    );
    let b = crate::layout::budget_after("branch   "@, w);
    truncated_text_fits(branch_line, b);
    lemma_prefix_and_body("branch   "@, crate::layout::truncated(branch_line, b), w);
    lemma_empty_line_fits(w);
    assert forall|i: int| 0 <= i < lines.len() implies line_fits(#[trigger] lines[i], w) by {}
}

/// Whether a reviewed row is made of characters that stand alone, with a fate
/// that its column has room for.
pub open spec fn plain_row(row: ReviewRow) -> bool {
    &&& crate::columns::all_alone(row.rel_path)
    &&& crate::columns::all_alone(row.label)
    &&& crate::columns::all_alone(row.fate)
    &&& crate::columns::columns(row.fate) <= crate::output::FATE_W
}

proof fn lemma_review_row_fits(row: ReviewRow, w: nat)
    requires
        plain_row(row),
    ensures
        fits(crate::output::review_row_lines(row, w, false), w),
{
    reveal_strlit("/");
    reveal_strlit("");
    reveal_strlit("  ▸ ");
    reveal_strlit(" ");
    reveal_strlit("    ");
    reveal_strlit(" · ");
    crate::columns::narrow_text("/"@);
    crate::columns::narrow_text(""@);
    crate::columns::narrow_text("  ▸ "@);
    crate::columns::narrow_text(" "@);
    crate::columns::narrow_text("    "@);
    crate::columns::narrow_text(" · "@);
    let shown = crate::output::shown_path(row);
    crate::columns::columns_of_concatenation(
        row.rel_path,
        if row.is_dir {
            "/"@
        } else {
            ""@
        },
    );
    let lines = crate::output::review_row_lines(row, w, false);
    if w >= crate::output::REVIEW_COLUMNAR_MIN_W {
        let a = "  ▸ "@;
        let b = crate::layout::padded_path(shown, crate::output::item_column(w));
        let c = crate::layout::padded(row.label, crate::output::LABEL_W as nat);
        padding_fills_the_column(shown, crate::output::item_column(w));
        padding_fills_the_column(row.label, crate::output::LABEL_W as nat);
        crate::columns::columns_of_concatenation(a, b);
        crate::columns::columns_of_concatenation(a + b, " "@);
        crate::columns::columns_of_concatenation(a + b + " "@, c);
        crate::columns::columns_of_concatenation(a + b + " "@ + c, " "@);
        crate::columns::columns_of_concatenation(a + b + " "@ + c + " "@, row.fate);
        assert(lines[0] == a + b + " "@ + c + " "@ + row.fate);
        assert(line_fits(lines[0], w));
    } else {
        let budget = crate::layout::budget_after("  ▸ "@, w);
        truncated_path_fits(shown, budget);
        let first = crate::layout::clipped("  ▸ "@, w) + crate::layout::truncated_path(
            shown,
            budget,
        );
        lemma_prefix_and_body("  ▸ "@, crate::layout::truncated_path(shown, budget), w);
        let inner = crate::layout::budget_after("    "@, w);
        let entries = seq![
            crate::output::styled_cell(
                crate::layout::truncated(row.label, inner),
                TextStyle::Dimmed,
                false,
            ),
            crate::output::styled_cell(
                crate::layout::truncated(row.fate, inner),
                TextStyle::Dimmed,
                false,
            ),
        ];
        truncated_text_fits(row.label, inner);
        truncated_text_fits(row.fate, inner);
        assert(all_honest(entries, inner));
        packed_lines_fit(entries, inner, " · "@);
        let rest = crate::layout::packed(entries, inner, " · "@);
        lemma_prefixed_fits("    "@, rest, w);
        assert(fits(seq![first], w));
        lemma_fits_concat(
            seq![first],
            crate::layout::prefixed(crate::layout::clipped("    "@, w), rest),
            w,
        );
    }
}

proof fn lemma_review_rows_fit(rows: Seq<ReviewRow>, w: nat)
    requires
        forall|i: int| 0 <= i < rows.len() ==> plain_row(#[trigger] rows[i]),
    ensures
        fits(crate::output::review_rows_lines(rows, w, false), w),
    decreases rows.len(),
{
    if rows.len() > 0 {
        let front = rows.drop_last();
        assert forall|i: int| 0 <= i < front.len() implies plain_row(#[trigger] front[i]) by {
            assert(plain_row(rows[i]));
        }
        lemma_review_rows_fit(front, w);
        assert(plain_row(rows[rows.len() - 1]));
        lemma_review_row_fits(rows.last(), w);
        lemma_fits_concat(
            crate::output::review_rows_lines(front, w, false),
            crate::output::review_row_lines(rows.last(), w, false),
            w,
        );
    }
}

proof fn lemma_decimal_narrow(n: nat)
    ensures
        crate::columns::all_narrow(crate::text::decimal(n)),
    decreases n,
{
    let s = crate::text::decimal(n);
    assert forall|d: nat| d < 10 implies crate::columns::is_narrow(
        #[trigger] crate::text::digit(d),
    ) by {
        assert('0' as u32 + d < 0x7f);
    }
    if n < 10 {
        assert(s[0] == crate::text::digit(n));
    } else {
        let front = crate::text::decimal(n / 10);
        lemma_decimal_narrow(n / 10);
        assert forall|i: int| 0 <= i < s.len() implies crate::columns::is_narrow(
            #[trigger] s[i],
        ) by {
            if i < front.len() {
                assert(crate::columns::is_narrow(front[i]));
            } else {
                assert(crate::columns::is_narrow(crate::text::digit(n % 10)));
            }
        }
    }
}

/// Every line of a review fits at every width.
pub proof fn review_lines_fit(
    path: Seq<char>,
    branch_line: Seq<char>,
    rows: Seq<ReviewRow>,
    total_size: Option<Seq<char>>,
    w: nat,
)
    requires
        crate::columns::all_alone(path),
        crate::columns::all_alone(branch_line),
        forall|i: int| 0 <= i < rows.len() ==> plain_row(#[trigger] rows[i]),
        total_size matches Some(s) ==> crate::columns::all_alone(s),
    ensures
        fits(crate::output::review_lines(path, branch_line, rows, total_size, w, false), w),
{
    let head = crate::output::head_lines(path, Status::Cleanable, branch_line, w, false);
    lemma_head_fits(path, Status::Cleanable, branch_line, w);
    reveal_strlit("GITIGNORED REVIEW");
    crate::columns::narrow_text("GITIGNORED REVIEW"@);
    truncated_text_fits("GITIGNORED REVIEW"@, w);
    let title = crate::layout::truncated("GITIGNORED REVIEW"@, w);
    assert(fits(seq![title], w));
    lemma_fits_concat(head, seq![title], w);
    assert(head + seq![title] =~= head.push(title));
    lemma_review_rows_fit(rows, w);
    let body = crate::output::review_rows_lines(rows, w, false);
    lemma_fits_concat(head.push(title), body, w);
    reveal_strlit("total · ");
    reveal_strlit(" item(s)");
    reveal_strlit(" · ~");
    crate::columns::narrow_text("total · "@);
    crate::columns::narrow_text(" item(s)"@);
    crate::columns::narrow_text(" · ~"@);
    lemma_decimal_narrow(rows.len());
    crate::columns::narrow_text(crate::text::decimal(rows.len()));
    let a = "total · "@;
    let b = crate::text::decimal(rows.len());
    let c = " item(s)"@;
    crate::columns::columns_of_concatenation(a, b);
    crate::columns::columns_of_concatenation(a + b, c);
    match total_size {
        Some(s) => {
            crate::columns::columns_of_concatenation(" · ~"@, s);
            crate::columns::columns_of_concatenation(a + b + c, " · ~"@ + s);
        },
        None => {
            assert(a + b + c + Seq::<char>::empty() =~= a + b + c);
        },
    }
    let total = crate::output::review_total(rows.len(), total_size);
    wrapped_text_fits(total, w);
    lemma_fits_concat(head.push(title) + body, crate::layout::wrapped(total, w), w);
}

/// Every line of the refusal fits at every width.
pub proof fn blocked_lines_fit(
    path: Seq<char>,
    status: Status,
    committed: bool,
    branch_line: Seq<char>,
    details: Seq<Seq<char>>,
    possible_reclaim: Option<Seq<char>>,
    w: nat,
)
    requires
        crate::columns::all_alone(path),
        crate::columns::all_alone(branch_line),
        forall|i: int| 0 <= i < details.len() ==> crate::columns::all_alone(#[trigger] details[i]),
        possible_reclaim matches Some(s) ==> crate::columns::all_alone(s),
    ensures
        fits(
            crate::output::blocked_lines(
                path,
                status,
                committed,
                branch_line,
                details,
                possible_reclaim,
                w,
                false,
            ),
            w,
        ),
{
    let head = crate::output::head_lines(path, status, branch_line, w, false);
    lemma_head_fits(path, status, branch_line, w);
    // The refusal.
    reveal_strlit("✗ refusing to clean - ");
    reveal_strlit("nothing committed yet");
    crate::columns::narrow_text("✗ refusing to clean - "@);
    crate::columns::narrow_text("nothing committed yet"@);
    lemma_labels_alone(status);
    crate::columns::narrow_text(crate::interactive::reason_of(status));
    let reason = crate::interactive::refusal_reason(status, committed);
    crate::columns::columns_of_concatenation("✗ refusing to clean - "@, reason);
    let refusal = crate::layout::wrapped("✗ refusing to clean - "@ + reason, w);
    wrapped_text_fits("✗ refusing to clean - "@ + reason, w);
    lemma_plain_lines(refusal, crate::output::bold_style_of(status));
    lemma_fits_concat(head, refusal, w);
    // The prose.
    reveal_strlit(
        "offcut only cleans projects with a clean, pushed tree, so nothing in progress is ever lost.",
    );
    crate::columns::narrow_text(crate::output::only_clean_trees());
    let prose = crate::layout::wrapped(crate::output::only_clean_trees(), w);
    wrapped_text_fits(crate::output::only_clean_trees(), w);
    lemma_fits_concat(head + refusal, prose, w);
    // The details.
    reveal_strlit("   ");
    crate::columns::narrow_text("   "@);
    let indent = crate::layout::clipped("   "@, w);
    let inner = crate::layout::budget_after("   "@, w);
    let shown = details.map_values(
        |d: Seq<char>|
            indent + crate::style::painted(
                crate::layout::truncated(d, inner),
                TextStyle::Dimmed,
                false,
            ),
    );
    assert forall|i: int| 0 <= i < shown.len() implies line_fits(#[trigger] shown[i], w) by {
        assert(crate::columns::all_alone(details[i]));
        truncated_text_fits(details[i], inner);
        lemma_prefix_and_body("   "@, crate::layout::truncated(details[i], inner), w);
    }
    lemma_fits_concat(head + refusal + prose, shown, w);
    // The command.
    lemma_rerun_fits(path, w);
    let hint = crate::layout::packed(crate::output::rerun_cells(path, w, false), w, " "@);
    lemma_fits_concat(head + refusal + prose + shown, hint, w);
    let most = head + refusal + prose + shown + hint;
    // The promise.
    match possible_reclaim {
        Some(size) => {
            reveal_strlit("~");
            reveal_strlit(" would become reclaimable once the project is cleanable.");
            crate::columns::narrow_text("~"@);
            crate::columns::narrow_text(
                " would become reclaimable once the project is cleanable."@,
            );
            let text = "~"@ + size + " would become reclaimable once the project is cleanable."@;
            crate::columns::columns_of_concatenation("~"@, size);
            crate::columns::columns_of_concatenation(
                "~"@ + size,
                " would become reclaimable once the project is cleanable."@,
            );
            let lines = crate::layout::wrapped(text, inner);
            wrapped_text_fits(text, inner);
            lemma_plain_lines(lines, TextStyle::Dimmed);
            lemma_prefixed_fits("   "@, lines, w);
            lemma_fits_concat(most, crate::layout::prefixed(indent, lines), w);
        },
        None => {
            assert(most + Seq::<Seq<char>>::empty() =~= most);
        },
    }
}

proof fn lemma_rerun_fits(path: Seq<char>, w: nat)
    requires
        crate::columns::all_alone(path),
    ensures
        fits(crate::layout::packed(crate::output::rerun_cells(path, w, false), w, " "@), w),
{
    reveal_strlit("→ commit, push, or initialize as needed, then run");
    reveal_strlit("again");
    reveal_strlit("offcut clean ");
    reveal_strlit(" ");
    crate::columns::narrow_text("→ commit, push, or initialize as needed, then run"@);
    crate::columns::narrow_text("again"@);
    crate::columns::narrow_text("offcut clean "@);
    crate::columns::narrow_text(" "@);
    let a = crate::layout::word_cell_views("→ commit, push, or initialize as needed, then run"@, w);
    let b = crate::layout::word_cell_views("again"@, w);
    lemma_word_cells_honest("→ commit, push, or initialize as needed, then run"@, w);
    lemma_word_cells_honest("again"@, w);
    let budget = crate::layout::budget_after("offcut clean "@, w);
    truncated_path_fits(path, budget);
    lemma_prefix_and_body("offcut clean "@, crate::layout::truncated_path(path, budget), w);
    let entries = crate::output::rerun_cells(path, w, false);
    assert forall|i: int| 0 <= i < entries.len() implies honest(#[trigger] entries[i], w) by {
        if i < a.len() {
            assert(honest(a[i], w));
        } else if i > a.len() {
            assert(honest(b[i - a.len() - 1], w));
        }
    }
    packed_lines_fit(entries, w, " "@);
}

/// Every line of the panel for a tidy project fits at every width.
pub proof fn nothing_lines_fit(path: Seq<char>, branch_line: Seq<char>, w: nat)
    requires
        crate::columns::all_alone(path),
        crate::columns::all_alone(branch_line),
    ensures
        fits(crate::output::nothing_lines(path, branch_line, w, false), w),
{
    let head = crate::output::head_lines(path, Status::Clean, branch_line, w, false);
    lemma_head_fits(path, Status::Clean, branch_line, w);
    reveal_strlit("✓ nothing to reclaim - ");
    reveal_strlit(" is already tidy");
    reveal_strlit(
        "committed and pushed, with no unprotected gitignored paths left - anything still here is protected by .offcutignore.",
    );
    crate::columns::narrow_text("✓ nothing to reclaim - "@);
    crate::columns::narrow_text(" is already tidy"@);
    crate::columns::narrow_text(crate::output::tidy_prose());
    lemma_name_alone(path);
    let name = crate::output::short_name(path);
    let text = "✓ nothing to reclaim - "@ + name + " is already tidy"@;
    crate::columns::columns_of_concatenation("✓ nothing to reclaim - "@, name);
    crate::columns::columns_of_concatenation(
        "✓ nothing to reclaim - "@ + name,
        " is already tidy"@,
    );
    wrapped_text_fits(text, w);
    lemma_plain_lines(crate::layout::wrapped(text, w), TextStyle::GreenBold);
    lemma_fits_concat(head, crate::layout::wrapped(text, w), w);
    wrapped_text_fits(crate::output::tidy_prose(), w);
    lemma_fits_concat(
        head + crate::layout::wrapped(text, w),
        crate::layout::wrapped(crate::output::tidy_prose(), w),
        w,
    );
}

/// Every line of the success panel fits at every width.
pub proof fn success_lines_fit(
    path: Seq<char>,
    deleted_count: nat,
    reclaimed: Option<Seq<char>>,
    w: nat,
)
    requires
        crate::columns::all_alone(path),
        reclaimed matches Some(s) ==> crate::columns::all_alone(s),
    ensures
        fits(crate::output::success_lines(path, deleted_count, reclaimed, w, false), w),
{
    reveal_strlit("✓ ");
    reveal_strlit("reclaimed ~");
    reveal_strlit(" - ");
    reveal_strlit("removed ");
    reveal_strlit(" item(s) from ");
    reveal_strlit("gitignored paths only - tracked files untouched.");
    crate::columns::narrow_text("✓ "@);
    crate::columns::narrow_text("reclaimed ~"@);
    crate::columns::narrow_text(" - "@);
    crate::columns::narrow_text("removed "@);
    crate::columns::narrow_text(" item(s) from "@);
    crate::columns::narrow_text("gitignored paths only - tracked files untouched."@);
    lemma_decimal_narrow(deleted_count);
    crate::columns::narrow_text(crate::text::decimal(deleted_count));
    lemma_name_alone(path);
    let a = "✓ "@;
    let b = match reclaimed {
        Some(s) => "reclaimed ~"@ + s + " - "@,
        None => Seq::empty(),
    };
    match reclaimed {
        Some(s) => {
            crate::columns::columns_of_concatenation("reclaimed ~"@, s);
            crate::columns::columns_of_concatenation("reclaimed ~"@ + s, " - "@);
        },
        None => {},
    }
    let c = "removed "@;
    let d = crate::text::decimal(deleted_count);
    let e = " item(s) from "@;
    let f = crate::output::short_name(path);
    crate::columns::columns_of_concatenation(a, b);
    crate::columns::columns_of_concatenation(a + b, c);
    crate::columns::columns_of_concatenation(a + b + c, d);
    crate::columns::columns_of_concatenation(a + b + c + d, e);
    crate::columns::columns_of_concatenation(a + b + c + d + e, f);
    let text = crate::output::success_text(path, deleted_count, reclaimed);
    assert(text == a + b + c + d + e + f);
    wrapped_text_fits(text, w);
    lemma_plain_lines(crate::layout::wrapped(text, w), TextStyle::GreenBold);
    wrapped_text_fits("gitignored paths only - tracked files untouched."@, w);
    lemma_fits_concat(
        crate::layout::wrapped(text, w),
        crate::layout::wrapped("gitignored paths only - tracked files untouched."@, w),
        w,
    );
}

/// Whether the texts of a table row are made of characters that stand alone.
pub open spec fn plain_table_row(row: TableRow, home: Option<Seq<char>>) -> bool {
    &&& crate::columns::all_alone(crate::output::label_under(row.path, home))
    &&& crate::columns::all_alone(crate::output::or_dash(row.size))
    &&& crate::columns::all_alone(crate::output::or_dash(row.branch))
    &&& crate::columns::all_alone(crate::output::or_dash(row.changed))
}

proof fn lemma_five_columns(
    a: Seq<char>,
    b: Seq<char>,
    c: Seq<char>,
    d: Seq<char>,
    e: Seq<char>,
)
    requires
        crate::columns::all_alone(a),
        crate::columns::all_alone(b),
        crate::columns::all_alone(c),
        crate::columns::all_alone(d),
        crate::columns::all_alone(e),
    ensures
        ({
            let g = crate::output::gap();
            let line = a + g + b + g + c + g + d + g + e;
            crate::columns::all_alone(line) && crate::columns::columns(line)
                == crate::columns::columns(a) + crate::columns::columns(b)
                + crate::columns::columns(c) + crate::columns::columns(d)
                + crate::columns::columns(e) + 8
        }),
{
    let g = crate::output::gap();
    reveal_strlit("  ");
    crate::columns::narrow_text(g);
    crate::columns::columns_of_concatenation(a, g);
    crate::columns::columns_of_concatenation(a + g, b);
    crate::columns::columns_of_concatenation(a + g + b, g);
    crate::columns::columns_of_concatenation(a + g + b + g, c);
    crate::columns::columns_of_concatenation(a + g + b + g + c, g);
    crate::columns::columns_of_concatenation(a + g + b + g + c + g, d);
    crate::columns::columns_of_concatenation(a + g + b + g + c + g + d, g);
    crate::columns::columns_of_concatenation(a + g + b + g + c + g + d + g, e);
}

proof fn lemma_table_line_fits(row: TableRow, w: nat, home: Option<Seq<char>>)
    requires
        plain_table_row(row, home),
        w >= crate::output::TABLE_MIN_W,
    ensures
        line_fits(crate::output::table_line(row, w, home, false), w),
{
    let label = crate::output::label_under(row.path, home);
    let status = crate::classify::label_of(row.status);
    lemma_labels_alone(row.status);
    crate::columns::narrow_text(status);
    padding_fills_the_column(label, crate::output::project_column(w));
    padding_fills_the_column(status, crate::output::STATUS_W as nat);
    padding_fills_the_column(crate::output::or_dash(row.size), crate::output::RECLAIM_W as nat);
    padding_fills_the_column(crate::output::or_dash(row.branch), crate::output::BRANCH_W as nat);
    padding_fills_the_column(crate::output::or_dash(row.changed), crate::output::CHANGED_W as nat);
    lemma_five_columns(
        crate::layout::padded_path(label, crate::output::project_column(w)),
        crate::layout::padded(status, crate::output::STATUS_W as nat),
        crate::layout::padded_start(
            crate::output::or_dash(row.size),
            crate::output::RECLAIM_W as nat,
        ),
        crate::layout::padded(
            crate::output::or_dash(row.branch),
            crate::output::BRANCH_W as nat,
        ),
        crate::layout::padded_start(
            crate::output::or_dash(row.changed),
            crate::output::CHANGED_W as nat,
        ),
    );
}

proof fn lemma_table_header_fits(w: nat)
    requires
        w >= crate::output::TABLE_MIN_W,
    ensures
        line_fits(crate::output::table_header(w), w),
{
    reveal_strlit("PROJECT");
    reveal_strlit("STATUS");
    reveal_strlit("RECLAIM");
    reveal_strlit("BRANCH");
    reveal_strlit("CHANGED");
    crate::columns::narrow_text("PROJECT"@);
    crate::columns::narrow_text("STATUS"@);
    crate::columns::narrow_text("RECLAIM"@);
    crate::columns::narrow_text("BRANCH"@);
    crate::columns::narrow_text("CHANGED"@);
    padding_fills_the_column("PROJECT"@, crate::output::project_column(w));
    padding_fills_the_column("STATUS"@, crate::output::STATUS_W as nat);
    padding_fills_the_column("RECLAIM"@, crate::output::RECLAIM_W as nat);
    padding_fills_the_column("BRANCH"@, crate::output::BRANCH_W as nat);
    padding_fills_the_column("CHANGED"@, crate::output::CHANGED_W as nat);
    lemma_five_columns(
        crate::layout::padded("PROJECT"@, crate::output::project_column(w)),
        crate::layout::padded("STATUS"@, crate::output::STATUS_W as nat),
        crate::layout::padded_start("RECLAIM"@, crate::output::RECLAIM_W as nat),
        crate::layout::padded("BRANCH"@, crate::output::BRANCH_W as nat),
        crate::layout::padded_start("CHANGED"@, crate::output::CHANGED_W as nat),
    );
}

proof fn lemma_stacked_fits(row: TableRow, w: nat, home: Option<Seq<char>>)
    requires
        plain_table_row(row, home),
    ensures
        fits(crate::output::stacked_lines(row, w, home, false), w),
{
    reveal_strlit("● ");
    reveal_strlit("  ");
    reveal_strlit(" · ");
    reveal_strlit("reclaim ");
    reveal_strlit("branch ");
    reveal_strlit("changed ");
    crate::columns::narrow_text("● "@);
    crate::columns::narrow_text("  "@);
    crate::columns::narrow_text(" · "@);
    crate::columns::narrow_text("reclaim "@);
    crate::columns::narrow_text("branch "@);
    crate::columns::narrow_text("changed "@);
    let label = crate::output::label_under(row.path, home);
    let budget = crate::layout::budget_after("● "@, w);
    truncated_path_fits(label, budget);
    let first = crate::layout::clipped("● "@, w) + crate::layout::truncated_path(label, budget);
    lemma_prefix_and_body("● "@, crate::layout::truncated_path(label, budget), w);
    let inner = crate::layout::budget_after("  "@, w);
    lemma_labels_alone(row.status);
    crate::columns::narrow_text(crate::classify::label_of(row.status));
    let size = "reclaim "@ + crate::output::or_dash(row.size);
    let branch = "branch "@ + crate::output::or_dash(row.branch);
    let changed = "changed "@ + crate::output::or_dash(row.changed);
    crate::columns::columns_of_concatenation("reclaim "@, crate::output::or_dash(row.size));
    crate::columns::columns_of_concatenation("branch "@, crate::output::or_dash(row.branch));
    crate::columns::columns_of_concatenation("changed "@, crate::output::or_dash(row.changed));
    truncated_text_fits(crate::classify::label_of(row.status), inner);
    truncated_text_fits(size, inner);
    truncated_text_fits(branch, inner);
    truncated_text_fits(changed, inner);
    let entries = crate::output::detail_cells(row, inner, false);
    assert(all_honest(entries, inner));
    packed_lines_fit(entries, inner, " · "@);
    let rest = crate::layout::packed(entries, inner, " · "@);
    lemma_prefixed_fits("  "@, rest, w);
    assert(fits(seq![first], w));
    lemma_fits_concat(
        seq![first],
        crate::layout::prefixed(crate::layout::clipped("  "@, w), rest),
        w,
    );
}

proof fn lemma_all_stacked_fit(rows: Seq<TableRow>, w: nat, home: Option<Seq<char>>)
    requires
        forall|i: int| 0 <= i < rows.len() ==> plain_table_row(#[trigger] rows[i], home),
    ensures
        fits(crate::output::all_stacked_lines(rows, w, home, false), w),
    decreases rows.len(),
{
    if rows.len() > 0 {
        let front = rows.drop_last();
        assert forall|i: int| 0 <= i < front.len() implies plain_table_row(
            #[trigger] front[i],
            home,
        ) by {
            assert(plain_table_row(rows[i], home));
        }
        lemma_all_stacked_fit(front, w, home);
        assert(plain_table_row(rows[rows.len() - 1], home));
        lemma_stacked_fits(rows.last(), w, home);
        lemma_fits_concat(
            crate::output::all_stacked_lines(front, w, home, false),
            crate::output::stacked_lines(rows.last(), w, home, false),
            w,
        );
    }
}

/// Every project row of the table fits at every width.
pub proof fn table_rows_fit(rows: Seq<TableRow>, w: nat, home: Option<Seq<char>>)
    requires
        forall|i: int| 0 <= i < rows.len() ==> plain_table_row(#[trigger] rows[i], home),
    ensures
        fits(crate::output::table_body(rows, w, home, false), w),
{
    if w >= crate::output::TABLE_MIN_W {
        lemma_table_header_fits(w);
        let lines = rows.map_values(
            |r: TableRow| crate::output::table_line(r, w, home, false),
        );
        assert forall|i: int| 0 <= i < lines.len() implies line_fits(#[trigger] lines[i], w) by {
            assert(plain_table_row(rows[i], home));
            lemma_table_line_fits(rows[i], w, home);
        }
        let head = seq![crate::output::table_header(w)];
        assert(fits(head, w));
        lemma_fits_concat(head, lines, w);
    } else {
        lemma_all_stacked_fit(rows, w, home);
    }
}

/// Every line of the whole table fits once the terminal has room for its
/// widest fixed entry and for each half of the summary.
pub proof fn table_lines_fit(
    rows: Seq<TableRow>,
    cleanable_count: nat,
    total_reclaimable: Option<Seq<char>>,
    w: nat,
    home: Option<Seq<char>>,
)
    requires
        forall|i: int| 0 <= i < rows.len() ==> plain_table_row(#[trigger] rows[i], home),
        w >= 40,
        fits(
            crate::output::summary_segments(rows.len(), cleanable_count, total_reclaimable),
            w,
        ),
    ensures
        fits(
            crate::output::table_lines(rows, cleanable_count, total_reclaimable, w, home, false),
            w,
        ),
{
    table_rows_fit(rows, w, home);
    reveal_strlit(" · ");
    reveal_strlit(" ");
    reveal_strlit("  ");
    crate::columns::narrow_text(" · "@);
    crate::columns::narrow_text(" "@);
    crate::columns::narrow_text("  "@);
    let segments = crate::output::summary_segments(
        rows.len(),
        cleanable_count,
        total_reclaimable,
    );
    let summary = segments.map_values(
        |s: Seq<char>| crate::output::styled_cell(s, TextStyle::GreenBold, false),
    );
    assert forall|i: int| 0 <= i < summary.len() implies honest(#[trigger] summary[i], w) by {
        assert(line_fits(segments[i], w));
    }
    packed_lines_fit(summary, w, " · "@);
    lemma_hint_honest(w);
    packed_lines_fit(crate::output::hint_cells(false), w, " "@);
    lemma_legend_honest(w);
    packed_lines_fit(crate::output::legend_cells(false), w, "  "@);
    lemma_empty_line_fits(w);
    let blank = seq![Seq::<char>::empty()];
    assert(fits(blank, w));
    let a = crate::layout::packed(summary, w, " · "@);
    let b = crate::layout::packed(crate::output::hint_cells(false), w, " "@);
    let c = crate::layout::packed(crate::output::legend_cells(false), w, "  "@);
    lemma_fits_concat(blank, a, w);
    lemma_fits_concat(blank + a, b, w);
    lemma_fits_concat(blank + a + b, blank, w);
    lemma_fits_concat(blank + a + b + blank, c, w);
    lemma_fits_concat(
        crate::output::table_body(rows, w, home, false),
        blank + a + b + blank + c,
        w,
    );
}

proof fn lemma_hint_honest(w: nat)
    requires
        w >= 40,
    ensures
        all_honest(crate::output::hint_cells(false), w),
{
    reveal_strlit("run offcut clean to reclaim all,");
    reveal_strlit("or offcut clean <project> to inspect one");
    reveal_strlit("run ");
    reveal_strlit("offcut clean");
    reveal_strlit(" to reclaim all,");
    reveal_strlit("or ");
    reveal_strlit("offcut clean <project>");
    reveal_strlit(" to inspect one");
    let e = crate::output::hint_cells(false);
    assert(e[0].text =~= "run offcut clean to reclaim all,"@);
    assert(e[1].text =~= "or offcut clean <project> to inspect one"@);
    crate::columns::narrow_text("run offcut clean to reclaim all,"@);
    crate::columns::narrow_text("or offcut clean <project> to inspect one"@);
}

proof fn lemma_legend_honest(w: nat)
    requires
        w >= 40,
    ensures
        all_honest(crate::output::legend_cells(false), w),
{
    reveal_strlit("● ");
    reveal_strlit("●");
    reveal_strlit(" ");
    reveal_strlit("cleanable - safe to remove");
    reveal_strlit("clean - nothing to trim");
    reveal_strlit("wip - uncommitted work");
    reveal_strlit("no-remote/unpushed - not pushed");
    reveal_strlit("no-git - not a repo");
    let e = crate::output::legend_cells(false);
    assert(e[0].text =~= "● "@ + "cleanable - safe to remove"@);
    assert(e[1].text =~= "● "@ + "clean - nothing to trim"@);
    assert(e[2].text =~= "● "@ + "wip - uncommitted work"@);
    assert(e[3].text =~= "● "@ + "no-remote/unpushed - not pushed"@);
    assert(e[4].text =~= "● "@ + "no-git - not a repo"@);
    crate::columns::narrow_text(e[0].text);
    crate::columns::narrow_text(e[1].text);
    crate::columns::narrow_text(e[2].text);
    crate::columns::narrow_text(e[3].text);
    crate::columns::narrow_text(e[4].text);
}

/// A progress line takes exactly its row, so it covers the line before it.
pub proof fn progress_lines_fill_the_row(label: Seq<char>, path: Seq<char>, w: nat)
    requires
        crate::columns::all_alone(label),
        crate::columns::all_alone(path),
    ensures
        line_fits(crate::progress::progress_line(label, path, w), w),
        crate::columns::columns(crate::progress::progress_line(label, path, w)) == w,
{
    let kept = crate::columns::left_part(label, w);
    crate::columns::left_part_fits(label, w);
    let room = crate::layout::less(w, crate::columns::columns(kept));
    let shown = crate::progress::shown_path(path, room);
    assert(line_fits(shown, room)) by {
        if room == 0 {
            lemma_empty_line_fits(room);
        } else if crate::columns::columns(path) > room {
            reveal_strlit("…");
            assert("…"@ =~= seq!['…']);
            crate::columns::ellipsis_is_one_column();
            crate::columns::right_part_fits(path, (room - 1) as nat);
            crate::columns::columns_of_concatenation(
                "…"@,
                crate::columns::right_part(path, (room - 1) as nat),
            );
        }
    }
    crate::columns::columns_of_concatenation(kept, shown);
    let line = crate::progress::labelled(label, path, w);
    crate::columns::spaces_are_one_column_each(
        crate::layout::less(w, crate::columns::columns(line)),
    );
    crate::columns::columns_of_concatenation(line, crate::layout::filler(line, w));
}

/// A frame of the spinner is one character that stands alone, and takes one
/// column.
pub proof fn spinner_frames_stand_alone(tick: nat)
    ensures
        crate::progress::frame(tick).len() == 1,
        crate::columns::all_alone(crate::progress::frame(tick)),
        crate::columns::columns(crate::progress::frame(tick)) == 1,
{
    reveal_strlit("⠋");
    reveal_strlit("⠙");
    reveal_strlit("⠹");
    reveal_strlit("⠸");
    reveal_strlit("⠼");
    reveal_strlit("⠴");
    reveal_strlit("⠦");
    reveal_strlit("⠧");
    reveal_strlit("⠇");
    reveal_strlit("⠏");
    crate::columns::narrow_text(crate::progress::frame(tick));
}

/// The line shown while roots are walked takes exactly its row, whatever the
/// spinner shows.
pub proof fn walking_lines_fill_the_row(tick: nat, path: Seq<char>, w: nat)
    requires
        crate::columns::all_alone(path),
    ensures
        ({
            let label = crate::progress::walking_label(tick);
            let line = crate::progress::progress_line(label, path, w);
            line_fits(line, w) && crate::columns::columns(line) == w
        }),
{
    spinner_frames_stand_alone(tick);
    reveal_strlit(" walking: ");
    crate::columns::narrow_text(" walking: "@);
    crate::columns::columns_of_concatenation(crate::progress::frame(tick), " walking: "@);
    progress_lines_fill_the_row(crate::progress::walking_label(tick), path, w);
}

/// The line of a counted phase takes exactly its row, whatever the spinner and
/// the counts show.
pub proof fn phase_lines_fill_the_row(
    tick: nat,
    phase: Seq<char>,
    idx: nat,
    total: nat,
    path: Seq<char>,
    w: nat,
)
    requires
        crate::columns::all_alone(phase),
        crate::columns::all_alone(path),
    ensures
        ({
            let label = crate::progress::phase_label(tick, phase, idx, total);
            let line = crate::progress::progress_line(label, path, w);
            line_fits(line, w) && crate::columns::columns(line) == w
        }),
{
    spinner_frames_stand_alone(tick);
    reveal_strlit(" ");
    reveal_strlit("/");
    reveal_strlit(": ");
    crate::columns::narrow_text(" "@);
    crate::columns::narrow_text("/"@);
    crate::columns::narrow_text(": "@);
    lemma_number_alone(idx);
    lemma_number_alone(total);
    let a = crate::progress::frame(tick);
    let b = crate::text::decimal(idx);
    let c = crate::text::decimal(total);
    crate::columns::columns_of_concatenation(a, " "@);
    crate::columns::columns_of_concatenation(a + " "@, phase);
    crate::columns::columns_of_concatenation(a + " "@ + phase, " "@);
    crate::columns::columns_of_concatenation(a + " "@ + phase + " "@, b);
    crate::columns::columns_of_concatenation(a + " "@ + phase + " "@ + b, "/"@);
    crate::columns::columns_of_concatenation(a + " "@ + phase + " "@ + b + "/"@, c);
    crate::columns::columns_of_concatenation(a + " "@ + phase + " "@ + b + "/"@ + c, ": "@);
    progress_lines_fill_the_row(
        crate::progress::phase_label(tick, phase, idx, total),
        path,
        w,
    );
}

proof fn lemma_grouped_narrow(digits: Seq<char>)
    requires
        crate::columns::all_narrow(digits),
    ensures
        crate::columns::all_narrow(crate::progress::grouped(digits)),
    decreases digits.len(),
{
    if digits.len() > 3 {
        let front = digits.take(digits.len() - 3);
        let back = digits.skip(digits.len() - 3);
        assert forall|i: int| 0 <= i < front.len() implies crate::columns::is_narrow(
            #[trigger] front[i],
        ) by {
            assert(crate::columns::is_narrow(digits[i]));
        }
        lemma_grouped_narrow(front);
        let all = crate::progress::grouped(digits);
        let head = crate::progress::grouped(front);
        reveal_strlit(",");
        assert forall|i: int| 0 <= i < all.len() implies crate::columns::is_narrow(
            #[trigger] all[i],
        ) by {
            if i < head.len() {
                assert(crate::columns::is_narrow(head[i]));
            } else if i > head.len() {
                assert(crate::columns::is_narrow(
                    digits[digits.len() - 3 + (i - head.len() - 1)],
                ));
            }
        }
    }
}

proof fn lemma_count_alone(n: nat)
    ensures
        crate::columns::all_alone(crate::progress::grouped(crate::text::decimal(n))),
{
    lemma_decimal_narrow(n);
    lemma_grouped_narrow(crate::text::decimal(n));
    crate::columns::narrow_text(crate::progress::grouped(crate::text::decimal(n)));
}

proof fn lemma_number_alone(n: nat)
    ensures
        crate::columns::all_alone(crate::text::decimal(n)),
{
    lemma_decimal_narrow(n);
    crate::columns::narrow_text(crate::text::decimal(n));
}

proof fn lemma_size_alone(bytes: nat, places: nat)
    ensures
        crate::columns::all_alone(crate::disk::size_text(bytes, places)),
{
    reveal_strlit(" B");
    reveal_strlit(" KB");
    reveal_strlit(" MB");
    reveal_strlit(" GB");
    crate::columns::narrow_text(" B"@);
    crate::columns::narrow_text(" KB"@);
    crate::columns::narrow_text(" MB"@);
    crate::columns::narrow_text(" GB"@);
    lemma_number_alone(bytes);
    crate::columns::columns_of_concatenation(crate::text::decimal(bytes), " B"@);
    let v = crate::disk::nearest_double(bytes);
    let scale = if places == 1 {
        10nat
    } else {
        100nat
    };
    let unit = if bytes < crate::disk::MB {
        crate::disk::KB as nat
    } else if bytes < crate::disk::GB {
        crate::disk::MB as nat
    } else {
        crate::disk::GB as nat
    };
    let name = if bytes < crate::disk::MB {
        " KB"@
    } else if bytes < crate::disk::GB {
        " MB"@
    } else {
        " GB"@
    };
    let n = crate::disk::rounded_quotient(v * scale, unit);
    lemma_point_alone(n, places);
    crate::columns::columns_of_concatenation(crate::disk::with_point(n, places), name);
}

proof fn lemma_point_alone(n: nat, places: nat)
    ensures
        crate::columns::all_alone(crate::disk::with_point(n, places)),
{
    reveal_strlit(".");
    crate::columns::narrow_text("."@);
    if places == 1 {
        let a = crate::text::decimal(n / 10);
        let b = crate::text::decimal(n % 10);
        lemma_number_alone(n / 10);
        lemma_number_alone(n % 10);
        crate::columns::columns_of_concatenation(a, "."@);
        crate::columns::columns_of_concatenation(a + "."@, b);
    } else {
        let a = crate::text::decimal(n / 100);
        let b = crate::text::decimal(n / 10 % 10);
        let c = crate::text::decimal(n % 10);
        lemma_number_alone(n / 100);
        lemma_number_alone(n / 10 % 10);
        lemma_number_alone(n % 10);
        crate::columns::columns_of_concatenation(a, "."@);
        crate::columns::columns_of_concatenation(a + "."@, b);
        crate::columns::columns_of_concatenation(a + "."@ + b, c);
    }
}

proof fn lemma_bar_alone(w: nat, spinner: Seq<char>)
    ensures
        crate::columns::all_alone(crate::progress::bar(w, spinner)),
{
    reveal_strlit("[");
    reveal_strlit("]");
    reveal_strlit("=>");
    reveal_strlit("==>");
    reveal_strlit("===>");
    reveal_strlit("====>");
    reveal_strlit("=====>");
    reveal_strlit("======>");
    crate::columns::narrow_text("["@);
    crate::columns::narrow_text("]"@);
    let fill = crate::progress::bar_fill(crate::progress::bar_stage(spinner));
    crate::columns::narrow_text(fill);
    match crate::progress::bar_room(w, spinner) {
        None => {},
        Some(room) => {
            let cut = crate::columns::left_part(fill, room);
            crate::columns::left_part_fits(fill, room);
            crate::columns::columns_of_concatenation("["@, cut);
            crate::columns::columns_of_concatenation("["@ + cut, "]"@);
            let n = (room - crate::columns::columns(fill)) as nat;
            let rest = crate::text::repeated(' ', n);
            crate::columns::spaces_are_one_column_each(n);
            crate::columns::columns_of_concatenation("["@, fill);
            crate::columns::columns_of_concatenation("["@ + fill, rest);
            crate::columns::columns_of_concatenation("["@ + fill + rest, "]"@);
        },
    }
}

proof fn lemma_counts_alone(dirs: nat, projects: nat, bytes: nat)
    ensures
        crate::columns::all_alone(crate::progress::counts_line(dirs, projects, bytes)),
{
    reveal_strlit(" dirs scanned · ");
    reveal_strlit(" projects found · ");
    reveal_strlit(" indexed");
    crate::columns::narrow_text(" dirs scanned · "@);
    crate::columns::narrow_text(" projects found · "@);
    crate::columns::narrow_text(" indexed"@);
    lemma_count_alone(dirs);
    lemma_count_alone(projects);
    lemma_size_alone(bytes, 1);
    let a = crate::progress::grouped(crate::text::decimal(dirs));
    let b = crate::progress::grouped(crate::text::decimal(projects));
    let c = crate::disk::size_text(bytes, 1);
    let s1 = a + " dirs scanned · "@;
    crate::columns::columns_of_concatenation(a, " dirs scanned · "@);
    crate::columns::columns_of_concatenation(s1, b);
    crate::columns::columns_of_concatenation(s1 + b, " projects found · "@);
    crate::columns::columns_of_concatenation(s1 + b + " projects found · "@, c);
    crate::columns::columns_of_concatenation(
        s1 + b + " projects found · "@ + c,
        " indexed"@,
    );
}

/// Every line of the walking panel fits at every width, so none of them wraps;
/// and the panel is never more than eleven lines high.
pub proof fn panel_fits(
    state: crate::progress::DiscoveryProgress,
    spinner: Seq<char>,
    w: nat,
)
    requires
        crate::columns::all_alone(spinner),
        crate::columns::all_alone(state.current_path@),
        forall|i: int|
            0 <= i < state.recent_projects@.len() ==> crate::columns::all_alone(
                (#[trigger] state.recent_projects@[i]).path@,
            ) && crate::columns::all_alone(state.recent_projects@[i].marker@),
    ensures
        fits(crate::progress::panel(state, spinner, w), w),
        crate::progress::panel(state, spinner, w).len() <= 11,
{
    let lines = crate::progress::panel(state, spinner, w);
    let projects = state.recent_projects@;
    let from = crate::progress::first_listed(projects.len());
    reveal_strlit(" scanning ");
    reveal_strlit("walking ");
    reveal_strlit("Discovered so far");
    reveal_strlit("✓ ");
    reveal_strlit(" (");
    reveal_strlit(")");
    reveal_strlit("press ctrl-c to stop · results appear as folders finish indexing");
    crate::columns::narrow_text(" scanning "@);
    crate::columns::narrow_text("walking "@);
    crate::columns::narrow_text("Discovered so far"@);
    crate::columns::narrow_text("✓ "@);
    crate::columns::narrow_text(" ("@);
    crate::columns::narrow_text(")"@);
    crate::columns::narrow_text(crate::progress::stop_hint());
    lemma_bar_alone(w, spinner);
    let bar = crate::progress::bar(w, spinner);
    crate::columns::columns_of_concatenation(spinner, " scanning "@);
    crate::columns::columns_of_concatenation(spinner + " scanning "@, bar);
    crate::columns::left_part_fits(spinner + " scanning "@ + bar, w);
    progress_lines_fill_the_row("walking "@, state.current_path@, w);
    let counts = crate::progress::counts_line(
        state.dirs_scanned as nat,
        state.projects_found as nat,
        state.indexed_bytes as nat,
    );
    lemma_counts_alone(
        state.dirs_scanned as nat,
        state.projects_found as nat,
        state.indexed_bytes as nat,
    );
    crate::columns::left_part_fits(counts, w);
    crate::columns::left_part_fits("Discovered so far"@, w);
    crate::columns::left_part_fits(crate::progress::stop_hint(), w);
    let found = crate::progress::found_lines(projects, from, w);
    assert forall|i: int| 0 <= i < found.len() implies line_fits(#[trigger] found[i], w) by {
        let project = projects[from + i];
        let label = crate::progress::project_label(project.path@);
        lemma_label_alone(project.path@);
        crate::columns::columns_of_concatenation("✓ "@, label);
        crate::columns::columns_of_concatenation("✓ "@ + label, " ("@);
        crate::columns::columns_of_concatenation("✓ "@ + label + " ("@, project.marker@);
        crate::columns::columns_of_concatenation(
            "✓ "@ + label + " ("@ + project.marker@,
            ")"@,
        );
        crate::columns::left_part_fits(
            crate::progress::found_line(project.path@, project.marker@),
            w,
        );
    }
    assert forall|i: int| 0 <= i < lines.len() implies line_fits(#[trigger] lines[i], w) by {
        if 4 <= i < 4 + found.len() {
            assert(lines[i] == found[i - 4]);
        }
    }
}

proof fn lemma_label_alone(path: Seq<char>)
    requires
        crate::columns::all_alone(path),
    ensures
        crate::columns::all_alone(crate::progress::project_label(path)),
{
    lemma_name_alone(path);
}

/// Wrapping breaks a text between its words only and loses none of them, as long as each
/// fits on a line.
pub proof fn wrapping_keeps_every_word(text: Seq<char>, w: nat)
    requires
        forall|i: int|
            0 <= i < crate::text::words_of(text).len() ==> crate::columns::columns(
                #[trigger] crate::text::words_of(text)[i],
            ) <= w,
    ensures
        crate::text::joined(crate::layout::wrapped(text, w), " "@) == crate::text::joined(
            crate::text::words_of(text),
            " "@,
        ),
{
    let words = crate::text::words_of(text);
    let entries = crate::layout::word_cell_views(text, w);
    crate::text::only_empty_pieces_are_left_out(crate::text::split_on_white(text));
    broadcast use vstd::seq_lib::group_filter_ensures;

    assert forall|i: int| 0 <= i < entries.len() implies (#[trigger] entries[i]).text
        == words[i] && entries[i].text.len() > 0 by {
        assert(words.contains(words[i]));
        assert(crate::columns::columns(words[i]) <= w);
    }
    packing_keeps_every_entry(entries, w, " "@);
    assert(entry_texts(entries) =~= words);
}

} // verus!
