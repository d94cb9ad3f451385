//! Laws of color: styling changes what a terminal is told, not what it shows.

use vstd::prelude::*;

use crate::classify::Status;
use crate::output::TableRow;
use crate::style::TextStyle;

verus! {

/// What a terminal shows of a text, and whether the text ends inside an escape
/// sequence. A sequence runs from the escape character to the next `m`.
pub struct Shown {
    pub text: Seq<char>,
    pub inside: bool,
}

/// What a terminal shows of a text.
pub open spec fn shown(s: Seq<char>) -> Shown
    decreases s.len(),
{
    if s.len() == 0 {
        Shown { text: Seq::empty(), inside: false }
    } else {
        let before = shown(s.drop_last());
        let c = s.last();
        if before.inside {
            Shown { text: before.text, inside: c != 'm' }
        } else if c == '\u{1b}' {
            Shown { text: before.text, inside: true }
        } else {
            Shown { text: before.text.push(c), inside: false }
        }
    }
}

/// Whether a terminal shows `plain` for `styled`.
pub open spec fn shows(styled: Seq<char>, plain: Seq<char>) -> bool {
    shown(styled) == (Shown { text: plain, inside: false })
}

/// Whether a terminal shows the lines `plain` for the lines `styled`.
pub open spec fn lines_show(styled: Seq<Seq<char>>, plain: Seq<Seq<char>>) -> bool {
    styled.len() == plain.len() && forall|i: int|
        0 <= i < styled.len() ==> shows(#[trigger] styled[i], plain[i])
}

/// Whether a text holds no escape character.
pub open spec fn no_escape(s: Seq<char>) -> bool {
    forall|i: int| 0 <= i < s.len() ==> #[trigger] s[i] != '\u{1b}'
}

pub(crate) proof fn lemma_shown_concat(a: Seq<char>, b: Seq<char>)
    requires
        !shown(a).inside,
    ensures
        shown(a + b) == (Shown { text: shown(a).text + shown(b).text, inside: shown(b).inside }),
    decreases b.len(),
{
    if b.len() == 0 {
        assert(a + b =~= a);
        assert(shown(a).text + shown(b).text =~= shown(a).text);
    } else {
        lemma_shown_concat(a, b.drop_last());
        assert((a + b).drop_last() =~= a + b.drop_last());
        assert((a + b).last() == b.last());
        assert(shown(a + b).text =~= shown(a).text + shown(b).text);
    }
}

/// What is shown of two texts one after the other.
pub(crate) proof fn lemma_shows_concat(a: Seq<char>, x: Seq<char>, b: Seq<char>, y: Seq<char>)
    requires
        shows(a, x),
        shows(b, y),
    ensures
        shows(a + b, x + y),
{
    lemma_shown_concat(a, b);
}

/// A text without escape characters is shown as it is.
pub proof fn plain_text_is_shown_as_it_is(s: Seq<char>)
    requires
        no_escape(s),
    ensures
        shows(s, s),
    decreases s.len(),
{
    if s.len() > 0 {
        let front = s.drop_last();
        assert forall|i: int| 0 <= i < front.len() implies #[trigger] front[i] != '\u{1b}' by {
            assert(s[i] != '\u{1b}');
        }
        plain_text_is_shown_as_it_is(front);
        assert(s[s.len() - 1] != '\u{1b}');
        assert(front.push(s.last()) =~= s);
    } else {
        assert(shown(s).text =~= s);
    }
}

proof fn lemma_sequence_shows_nothing(s: Seq<char>)
    requires
        s.len() >= 2,
        s[0] == '\u{1b}',
        s.last() == 'm',
        forall|i: int| 0 < i < s.len() - 1 ==> #[trigger] s[i] != 'm',
    ensures
        shows(s, Seq::empty()),
{
    lemma_inside(s, s.len() - 1);
    assert(s.take(s.len() - 1) =~= s.drop_last());
}

proof fn lemma_inside(s: Seq<char>, n: int)
    requires
        0 < n < s.len(),
        s[0] == '\u{1b}',
        forall|i: int| 0 < i < s.len() - 1 ==> #[trigger] s[i] != 'm',
    ensures
        shown(s.take(n)) == (Shown { text: Seq::<char>::empty(), inside: true }),
    decreases n,
{
    let t = s.take(n);
    if n == 1 {
        assert(t.drop_last() =~= Seq::<char>::empty());
        assert(shown(t.drop_last()).text =~= Seq::<char>::empty());
        assert(t.last() == '\u{1b}');
    } else {
        lemma_inside(s, n - 1);
        assert(t.drop_last() =~= s.take(n - 1));
        assert(t.last() == s[n - 1]);
    }
}

proof fn lemma_codes_show_nothing(style: TextStyle)
    ensures
        shows(crate::style::style_on(style), Seq::empty()),
        shows(crate::style::style_off(), Seq::empty()),
{
    reveal_strlit("\u{1b}[31m");
    reveal_strlit("\u{1b}[33m");
    reveal_strlit("\u{1b}[32m");
    reveal_strlit("\u{1b}[31;1m");
    reveal_strlit("\u{1b}[33;1m");
    reveal_strlit("\u{1b}[32;1m");
    reveal_strlit("\u{1b}[36;1m");
    reveal_strlit("\u{1b}[1m");
    reveal_strlit("\u{1b}[2m");
    reveal_strlit("\u{1b}[0m");
    lemma_sequence_shows_nothing(crate::style::style_on(style));
    lemma_sequence_shows_nothing(crate::style::style_off());
}

/// Styled text is shown as the text itself.
pub proof fn styled_text_is_shown_as_it_is(text: Seq<char>, style: TextStyle, emit_colors: bool)
    requires
        no_escape(text),
    ensures
        shows(crate::style::painted(text, style, emit_colors), text),
{
    plain_text_is_shown_as_it_is(text);
    if emit_colors {
        lemma_codes_show_nothing(style);
        let none = Seq::<char>::empty();
        lemma_shows_concat(crate::style::style_on(style), none, text, text);
        lemma_shows_concat(
            crate::style::style_on(style) + text,
            none + text,
            crate::style::style_off(),
            none,
        );
        assert(none + text + none =~= text);
    }
}

proof fn lemma_cut_has_no_escape(text: Seq<char>, w: nat)
    requires
        no_escape(text),
    ensures
        no_escape(crate::layout::clipped(text, w)),
        no_escape(crate::layout::truncated(text, w)),
        no_escape(crate::layout::truncated_path(text, w)),
        no_escape(crate::layout::padded(text, w)),
        no_escape(crate::layout::padded_start(text, w)),
        no_escape(crate::layout::padded_path(text, w)),
        text.len() > 0 && w > 0 ==> crate::layout::truncated(text, w).len() > 0,
{
    lemma_parts_of(text, w);
    if w > 1 {
        lemma_parts_of(text, (w - 1) as nat);
    }
    let t = crate::layout::truncated(text, w);
    assert(no_escape(t));
    let p = crate::layout::truncated_path(text, w);
    assert(no_escape(p));
}

proof fn lemma_parts_of(text: Seq<char>, w: nat)
    requires
        no_escape(text),
    ensures
        no_escape(crate::columns::left_part(text, w)),
        no_escape(crate::columns::right_part(text, w)),
{
    crate::columns::fitting_counts(text, w);
    let l = crate::columns::left_part(text, w);
    assert forall|i: int| 0 <= i < l.len() implies #[trigger] l[i] != '\u{1b}' by {
        assert(l[i] == text[i]);
    }
    let r = crate::columns::right_part(text, w);
    let n = text.len() - crate::columns::fit_right(text, w);
    assert forall|i: int| 0 <= i < r.len() implies #[trigger] r[i] != '\u{1b}' by {
        assert(r[i] == text[n + i]);
    }
}

/// Whether a styled entry takes the columns of a plain one and shows its text.
pub open spec fn cell_shows(styled: crate::layout::Cell, plain: crate::layout::Cell) -> bool {
    styled.columns == plain.columns && plain.text.len() > 0 && shows(styled.text, plain.text)
}

/// Whether styled entries show plain ones, one for one.
pub open spec fn cells_show(
    styled: Seq<crate::layout::Cell>,
    plain: Seq<crate::layout::Cell>,
) -> bool {
    styled.len() == plain.len() && forall|i: int|
        0 <= i < styled.len() ==> cell_shows(#[trigger] styled[i], plain[i])
}

proof fn lemma_packing_shows(
    styled: Seq<crate::layout::Cell>,
    plain: Seq<crate::layout::Cell>,
    w: nat,
    sep: Seq<char>,
)
    requires
        cells_show(styled, plain),
        no_escape(sep),
    ensures
        lines_show(
            crate::layout::packing(styled, w, sep).lines,
            crate::layout::packing(plain, w, sep).lines,
        ),
        shows(
            crate::layout::packing(styled, w, sep).line,
            crate::layout::packing(plain, w, sep).line,
        ),
        crate::layout::packing(styled, w, sep).columns == crate::layout::packing(
            plain,
            w,
            sep,
        ).columns,
        styled.len() > 0 ==> crate::layout::packing(styled, w, sep).line.len() > 0
            && crate::layout::packing(plain, w, sep).line.len() > 0,
    decreases styled.len(),
{
    let p = crate::layout::packing(styled, w, sep);
    let q = crate::layout::packing(plain, w, sep);
    if styled.len() == 0 {
        plain_text_is_shown_as_it_is(Seq::<char>::empty());
    } else {
        let fs = styled.drop_last();
        let fp = plain.drop_last();
        assert(cells_show(fs, fp)) by {
            assert forall|i: int| 0 <= i < fs.len() implies cell_shows(
                #[trigger] fs[i],
                fp[i],
            ) by {
                assert(cell_shows(styled[i], plain[i]));
            }
        }
        lemma_packing_shows(fs, fp, w, sep);
        let a = crate::layout::packing(fs, w, sep);
        let b = crate::layout::packing(fp, w, sep);
        let s = styled.last();
        let t = plain.last();
        assert(cell_shows(styled[styled.len() - 1], plain[plain.len() - 1]));
        assert(s.text.len() > 0) by {
            if s.text.len() == 0 {
                assert(shown(s.text).text =~= Seq::<char>::empty());
            }
        }
        plain_text_is_shown_as_it_is(sep);
        lemma_shows_concat(a.line, b.line, sep, sep);
        lemma_shows_concat(a.line + sep, b.line + sep, s.text, t.text);
        assert forall|i: int| 0 <= i < p.lines.len() implies shows(
            #[trigger] p.lines[i],
            q.lines[i],
        ) by {
            if i < a.lines.len() {
                assert(shows(a.lines[i], b.lines[i]));
            }
        }
    }
}

/// Packing styled entries shows what packing the plain ones gives.
pub proof fn packing_ignores_color(
    styled: Seq<crate::layout::Cell>,
    plain: Seq<crate::layout::Cell>,
    w: nat,
    sep: Seq<char>,
)
    requires
        cells_show(styled, plain),
        no_escape(sep),
    ensures
        lines_show(
            crate::layout::packed(styled, w, sep),
            crate::layout::packed(plain, w, sep),
        ),
{
    lemma_packing_shows(styled, plain, w, sep);
    let a = crate::layout::packing(styled, w, sep);
    let x = crate::layout::packed(styled, w, sep);
    let y = crate::layout::packed(plain, w, sep);
    if styled.len() > 0 {
        assert forall|i: int| 0 <= i < x.len() implies shows(#[trigger] x[i], y[i]) by {
            if i < a.lines.len() {
                assert(shows(a.lines[i], crate::layout::packing(plain, w, sep).lines[i]));
            }
        }
    }
}

proof fn lemma_lines_show_concat(
    a: Seq<Seq<char>>,
    x: Seq<Seq<char>>,
    b: Seq<Seq<char>>,
    y: Seq<Seq<char>>,
)
    requires
        lines_show(a, x),
        lines_show(b, y),
    ensures
        lines_show(a + b, x + y),
{
    assert forall|i: int| 0 <= i < (a + b).len() implies shows(
        #[trigger] (a + b)[i],
        (x + y)[i],
    ) by {
        if i < a.len() {
            assert(shows(a[i], x[i]));
        } else {
            assert(shows(b[i - a.len()], y[i - a.len()]));
        }
    }
}

/// Whether the texts of a table row hold no escape character.
pub open spec fn unescaped_row(row: TableRow, home: Option<Seq<char>>) -> bool {
    &&& no_escape(crate::output::label_under(row.path, home))
    &&& no_escape(crate::output::or_dash(row.size))
    &&& no_escape(crate::output::or_dash(row.branch))
    &&& no_escape(crate::output::or_dash(row.changed))
}

proof fn lemma_status_label(status: Status)
    ensures
        no_escape(crate::classify::label_of(status)),
        crate::classify::label_of(status).len() > 0,
{
    reveal_strlit("no-git");
    reveal_strlit("no-remote");
    reveal_strlit("unpushed");
    reveal_strlit("wip");
    reveal_strlit("cleanable");
    reveal_strlit("clean");
}

pub(crate) proof fn lemma_table_line_shows(row: TableRow, w: nat, home: Option<Seq<char>>)
    requires
        unescaped_row(row, home),
    ensures
        shows(
            crate::output::table_line(row, w, home, true),
            crate::output::table_line(row, w, home, false),
        ),
{
    let g = crate::output::gap();
    reveal_strlit("  ");
    assert(no_escape(g));
    let label = crate::classify::label_of(row.status);
    lemma_status_label(row.status);
    let sw = crate::output::STATUS_W as nat;
    let cut = crate::layout::truncated(label, sw);
    let fill = crate::layout::filler(cut, sw);
    lemma_cut_has_no_escape(label, sw);
    styled_text_is_shown_as_it_is(cut, crate::output::style_of(row.status), true);
    assert(no_escape(fill));
    plain_text_is_shown_as_it_is(fill);
    lemma_shows_concat(
        crate::style::painted(cut, crate::output::style_of(row.status), true),
        cut,
        fill,
        fill,
    );
    let pw = crate::output::project_column(w);
    let a = crate::layout::padded_path(crate::output::label_under(row.path, home), pw);
    lemma_cut_has_no_escape(crate::output::label_under(row.path, home), pw);
    let sb = crate::layout::padded_in_style(label, sw, crate::output::style_of(row.status), true);
    let b = crate::layout::padded_in_style(label, sw, crate::output::style_of(row.status), false);
    let c = crate::layout::padded_start(
        crate::output::or_dash(row.size),
        crate::output::RECLAIM_W as nat,
    );
    lemma_cut_has_no_escape(crate::output::or_dash(row.size), crate::output::RECLAIM_W as nat);
    let d = crate::layout::padded(
        crate::output::or_dash(row.branch),
        crate::output::BRANCH_W as nat,
    );
    lemma_cut_has_no_escape(crate::output::or_dash(row.branch), crate::output::BRANCH_W as nat);
    let e = crate::layout::padded_start(
        crate::output::or_dash(row.changed),
        crate::output::CHANGED_W as nat,
    );
    lemma_cut_has_no_escape(crate::output::or_dash(row.changed), crate::output::CHANGED_W as nat);
    plain_text_is_shown_as_it_is(a);
    plain_text_is_shown_as_it_is(c);
    plain_text_is_shown_as_it_is(d);
    plain_text_is_shown_as_it_is(e);
    plain_text_is_shown_as_it_is(g);
    lemma_shows_concat(a, a, g, g);
    lemma_shows_concat(a + g, a + g, sb, b);
    lemma_shows_concat(a + g + sb, a + g + b, g, g);
    lemma_shows_concat(a + g + sb + g, a + g + b + g, c, c);
    lemma_shows_concat(a + g + sb + g + c, a + g + b + g + c, g, g);
    lemma_shows_concat(a + g + sb + g + c + g, a + g + b + g + c + g, d, d);
    lemma_shows_concat(a + g + sb + g + c + g + d, a + g + b + g + c + g + d, g, g);
    lemma_shows_concat(a + g + sb + g + c + g + d + g, a + g + b + g + c + g + d + g, e, e);
}

proof fn lemma_plain_cell_shows(text: Seq<char>, w: nat)
    requires
        no_escape(text),
        text.len() > 0,
        w > 0,
    ensures
        ({
            let c = crate::layout::plain_cell(crate::layout::truncated(text, w));
            cell_shows(c, c)
        }),
{
    lemma_cut_has_no_escape(text, w);
    plain_text_is_shown_as_it_is(crate::layout::truncated(text, w));
}

proof fn lemma_stacked_shows(row: TableRow, w: nat, home: Option<Seq<char>>)
    requires
        unescaped_row(row, home),
        w >= 3,
    ensures
        lines_show(
            crate::output::stacked_lines(row, w, home, true),
            crate::output::stacked_lines(row, w, home, false),
        ),
{
    reveal_strlit("● ");
    reveal_strlit("  ");
    reveal_strlit(" · ");
    reveal_strlit("reclaim ");
    reveal_strlit("branch ");
    reveal_strlit("changed ");
    crate::columns::narrow_text("  "@);
    let style = crate::output::style_of(row.status);
    let mark = crate::layout::clipped("● "@, w);
    lemma_cut_has_no_escape("● "@, w);
    styled_text_is_shown_as_it_is(mark, style, true);
    let label = crate::output::label_under(row.path, home);
    let budget = crate::layout::budget_after("● "@, w);
    let name = crate::layout::truncated_path(label, budget);
    lemma_cut_has_no_escape(label, budget);
    plain_text_is_shown_as_it_is(name);
    lemma_shows_concat(crate::style::painted(mark, style, true), mark, name, name);
    let inner = crate::layout::budget_after("  "@, w);
    assert(inner >= 1);
    let sc = crate::output::detail_cells(row, inner, true);
    let pc = crate::output::detail_cells(row, inner, false);
    lemma_status_label(row.status);
    let word = crate::layout::truncated(crate::classify::label_of(row.status), inner);
    lemma_cut_has_no_escape(crate::classify::label_of(row.status), inner);
    styled_text_is_shown_as_it_is(word, style, true);
    let size = "reclaim "@ + crate::output::or_dash(row.size);
    let branch = "branch "@ + crate::output::or_dash(row.branch);
    let changed = "changed "@ + crate::output::or_dash(row.changed);
    lemma_plain_cell_shows(size, inner);
    lemma_plain_cell_shows(branch, inner);
    lemma_plain_cell_shows(changed, inner);
    assert(cells_show(sc, pc)) by {
        assert(cell_shows(sc[0], pc[0]));
        assert(cell_shows(sc[1], pc[1]));
        assert(cell_shows(sc[2], pc[2]));
        assert(cell_shows(sc[3], pc[3]));
    }
    packing_ignores_color(sc, pc, inner, " · "@);
    let x = crate::layout::packed(sc, inner, " · "@);
    let y = crate::layout::packed(pc, inner, " · "@);
    let indent = crate::layout::clipped("  "@, w);
    lemma_cut_has_no_escape("  "@, w);
    plain_text_is_shown_as_it_is(indent);
    let px = crate::layout::prefixed(indent, x);
    let py = crate::layout::prefixed(indent, y);
    assert(lines_show(px, py)) by {
        assert forall|i: int| 0 <= i < px.len() implies shows(#[trigger] px[i], py[i]) by {
            assert(shows(x[i], y[i]));
            lemma_shows_concat(indent, indent, x[i], y[i]);
        }
    }
    let fx = seq![crate::style::painted(mark, style, true) + name];
    let fy = seq![mark + name];
    assert(lines_show(fx, fy));
    lemma_lines_show_concat(fx, fy, px, py);
}

proof fn lemma_all_stacked_show(rows: Seq<TableRow>, w: nat, home: Option<Seq<char>>)
    requires
        forall|i: int| 0 <= i < rows.len() ==> unescaped_row(#[trigger] rows[i], home),
        w >= 3,
    ensures
        lines_show(
            crate::output::all_stacked_lines(rows, w, home, true),
            crate::output::all_stacked_lines(rows, w, home, false),
        ),
    decreases rows.len(),
{
    if rows.len() > 0 {
        let front = rows.drop_last();
        assert forall|i: int| 0 <= i < front.len() implies unescaped_row(
            #[trigger] front[i],
            home,
        ) by {
            assert(unescaped_row(rows[i], home));
        }
        lemma_all_stacked_show(front, w, home);
        assert(unescaped_row(rows[rows.len() - 1], home));
        lemma_stacked_shows(rows.last(), w, home);
        lemma_lines_show_concat(
            crate::output::all_stacked_lines(front, w, home, true),
            crate::output::all_stacked_lines(front, w, home, false),
            crate::output::stacked_lines(rows.last(), w, home, true),
            crate::output::stacked_lines(rows.last(), w, home, false),
        );
    }
}

proof fn lemma_legend_shows()
    ensures
        cells_show(crate::output::legend_cells(true), crate::output::legend_cells(false)),
{
    let s = crate::output::legend_cells(true);
    let p = crate::output::legend_cells(false);
    reveal_strlit("cleanable - safe to remove");
    reveal_strlit("clean - nothing to trim");
    reveal_strlit("wip - uncommitted work");
    reveal_strlit("no-remote/unpushed - not pushed");
    reveal_strlit("no-git - not a repo");
    lemma_legend_cell_shows(Status::Cleanable, "cleanable - safe to remove"@);
    lemma_legend_cell_shows(Status::Clean, "clean - nothing to trim"@);
    lemma_legend_cell_shows(Status::Wip, "wip - uncommitted work"@);
    lemma_legend_cell_shows(Status::NoRemote, "no-remote/unpushed - not pushed"@);
    lemma_legend_cell_shows(Status::NoGit, "no-git - not a repo"@);
    assert(cell_shows(s[0], p[0]));
    assert(cell_shows(s[1], p[1]));
    assert(cell_shows(s[2], p[2]));
    assert(cell_shows(s[3], p[3]));
    assert(cell_shows(s[4], p[4]));
}

proof fn lemma_legend_cell_shows(status: Status, text: Seq<char>)
    requires
        no_escape(text),
    ensures
        cell_shows(
            crate::output::legend_cell(status, text, true),
            crate::output::legend_cell(status, text, false),
        ),
{
    reveal_strlit("●");
    reveal_strlit(" ");
    let dot = "●"@;
    let style = crate::output::style_of(status);
    styled_text_is_shown_as_it_is(dot, style, true);
    plain_text_is_shown_as_it_is(" "@);
    plain_text_is_shown_as_it_is(text);
    lemma_shows_concat(crate::style::painted(dot, style, true), dot, " "@, " "@);
    lemma_shows_concat(
        crate::style::painted(dot, style, true) + " "@,
        dot + " "@,
        text,
        text,
    );
}

proof fn lemma_hint_shows()
    ensures
        cells_show(crate::output::hint_cells(true), crate::output::hint_cells(false)),
{
    reveal_strlit("run ");
    reveal_strlit("offcut clean");
    reveal_strlit(" to reclaim all,");
    reveal_strlit("or ");
    reveal_strlit("offcut clean <project>");
    reveal_strlit(" to inspect one");
    let s = crate::output::hint_cells(true);
    let p = crate::output::hint_cells(false);
    lemma_middle_shows("run "@, "offcut clean"@, " to reclaim all,"@);
    lemma_middle_shows("or "@, "offcut clean <project>"@, " to inspect one"@);
    assert(cell_shows(s[0], p[0]));
    assert(cell_shows(s[1], p[1]));
}

proof fn lemma_middle_shows(a: Seq<char>, b: Seq<char>, c: Seq<char>)
    requires
        no_escape(a),
        no_escape(b),
        no_escape(c),
    ensures
        shows(a + crate::style::painted(b, TextStyle::Bold, true) + c, a + b + c),
{
    plain_text_is_shown_as_it_is(a);
    plain_text_is_shown_as_it_is(c);
    styled_text_is_shown_as_it_is(b, TextStyle::Bold, true);
    let sb = crate::style::painted(b, TextStyle::Bold, true);
    lemma_shows_concat(a, a, sb, b);
    lemma_shows_concat(a + sb, a + b, c, c);
}

/// Color does not change what the table shows, line for line and column for
/// column. (On a terminal of fewer than three columns a detail of a row can be
/// cut to nothing, and then its styling alone keeps a line.)
pub proof fn color_does_not_change_the_table(
    rows: Seq<TableRow>,
    cleanable_count: nat,
    total_reclaimable: Option<Seq<char>>,
    w: nat,
    home: Option<Seq<char>>,
)
    requires
        forall|i: int| 0 <= i < rows.len() ==> unescaped_row(#[trigger] rows[i], home),
        forall|i: int|
            0 <= i < 2 ==> no_escape(
                #[trigger] crate::output::summary_segments(
                    rows.len(),
                    cleanable_count,
                    total_reclaimable,
                )[i],
            ),
        w >= 3 || rows.len() == 0,
    ensures
        lines_show(
            crate::output::table_lines(rows, cleanable_count, total_reclaimable, w, home, true),
            crate::output::table_lines(rows, cleanable_count, total_reclaimable, w, home, false),
        ),
{
    // The projects.
    let bs = crate::output::table_body(rows, w, home, true);
    let bp = crate::output::table_body(rows, w, home, false);
    if w >= crate::output::TABLE_MIN_W {
        let head = crate::output::table_header(w);
        lemma_header_unescaped(w);
        plain_text_is_shown_as_it_is(head);
        let xs = rows.map_values(
            |r: TableRow| crate::output::table_line(r, w, home, true),
        );
        let ys = rows.map_values(
            |r: TableRow| crate::output::table_line(r, w, home, false),
        );
        assert(lines_show(xs, ys)) by {
            assert forall|i: int| 0 <= i < xs.len() implies shows(#[trigger] xs[i], ys[i]) by {
                assert(unescaped_row(rows[i], home));
                lemma_table_line_shows(rows[i], w, home);
            }
        }
        assert(lines_show(seq![head], seq![head]));
        lemma_lines_show_concat(seq![head], seq![head], xs, ys);
    } else if rows.len() > 0 {
        lemma_all_stacked_show(rows, w, home);
    }
    // The footer.
    reveal_strlit(" · ");
    reveal_strlit(" ");
    reveal_strlit("  ");
    reveal_strlit("✓ ");
    reveal_strlit(" cleanable");
    let segments = crate::output::summary_segments(
        rows.len(),
        cleanable_count,
        total_reclaimable,
    );
    let ss = segments.map_values(
        |s: Seq<char>| crate::output::styled_cell(s, TextStyle::GreenBold, true),
    );
    let sp = segments.map_values(
        |s: Seq<char>| crate::output::styled_cell(s, TextStyle::GreenBold, false),
    );
    assert(cells_show(ss, sp)) by {
        assert forall|i: int| 0 <= i < ss.len() implies cell_shows(#[trigger] ss[i], sp[i]) by {
            assert(no_escape(segments[i]));
            styled_text_is_shown_as_it_is(segments[i], TextStyle::GreenBold, true);
        }
    }
    packing_ignores_color(ss, sp, w, " · "@);
    lemma_hint_shows();
    packing_ignores_color(
        crate::output::hint_cells(true),
        crate::output::hint_cells(false),
        w,
        " "@,
    );
    lemma_legend_shows();
    packing_ignores_color(
        crate::output::legend_cells(true),
        crate::output::legend_cells(false),
        w,
        "  "@,
    );
    let blank = seq![Seq::<char>::empty()];
    plain_text_is_shown_as_it_is(Seq::<char>::empty());
    assert(lines_show(blank, blank));
    let a = crate::layout::packed(ss, w, " · "@);
    let x = crate::layout::packed(sp, w, " · "@);
    let b = crate::layout::packed(crate::output::hint_cells(true), w, " "@);
    let y = crate::layout::packed(crate::output::hint_cells(false), w, " "@);
    let c = crate::layout::packed(crate::output::legend_cells(true), w, "  "@);
    let z = crate::layout::packed(crate::output::legend_cells(false), w, "  "@);
    lemma_lines_show_concat(blank, blank, a, x);
    lemma_lines_show_concat(blank + a, blank + x, b, y);
    lemma_lines_show_concat(blank + a + b, blank + x + y, blank, blank);
    lemma_lines_show_concat(blank + a + b + blank, blank + x + y + blank, c, z);
    lemma_lines_show_concat(bs, bp, blank + a + b + blank + c, blank + x + y + blank + z);
}

proof fn lemma_header_unescaped(w: nat)
    ensures
        no_escape(crate::output::table_header(w)),
{
    reveal_strlit("PROJECT");
    reveal_strlit("STATUS");
    reveal_strlit("RECLAIM");
    reveal_strlit("BRANCH");
    reveal_strlit("CHANGED");
    reveal_strlit("  ");
    lemma_cut_has_no_escape("PROJECT"@, crate::output::project_column(w));
    lemma_cut_has_no_escape("STATUS"@, crate::output::STATUS_W as nat);
    lemma_cut_has_no_escape("RECLAIM"@, crate::output::RECLAIM_W as nat);
    lemma_cut_has_no_escape("BRANCH"@, crate::output::BRANCH_W as nat);
    lemma_cut_has_no_escape("CHANGED"@, crate::output::CHANGED_W as nat);
}

} // verus!
