//! Laying out text in display columns: cutting, padding, packing, wrapping.

use vstd::prelude::*;

use crate::columns::{take_left, take_right, width};
use crate::style::{color_for_stream, TextStyle};
use crate::text::{cat2, push_line, push_repeated, words};

verus! {

/// `a - b`, or zero where that is negative.
pub open spec fn less(a: nat, b: nat) -> nat {
    if a >= b {
        (a - b) as nat
    } else {
        0
    }
}

/// `text` cut to `w` columns without a trace.
pub open spec fn clipped(text: Seq<char>, w: nat) -> Seq<char> {
    if crate::columns::columns(text) <= w {
        text
    } else {
        crate::columns::left_part(text, w)
    }
}

/// `text` cut to `w` columns, with an ellipsis in place of its end.
pub open spec fn truncated(text: Seq<char>, w: nat) -> Seq<char> {
    if crate::columns::columns(text) <= w {
        text
    } else if w == 0 {
        Seq::empty()
    } else if w == 1 {
        seq!['…']
    } else {
        crate::columns::left_part(text, (w - 1) as nat) + seq!['…']
    }
}

/// `text` cut to `w` columns, with an ellipsis in place of its start.
pub open spec fn truncated_path(text: Seq<char>, w: nat) -> Seq<char> {
    if crate::columns::columns(text) <= w {
        text
    } else if w == 0 {
        Seq::empty()
    } else if w == 1 {
        seq!['…']
    } else {
        seq!['…'] + crate::columns::right_part(text, (w - 1) as nat)
    }
}

/// The spaces that fill `text` up to `w` columns.
pub open spec fn filler(text: Seq<char>, w: nat) -> Seq<char> {
    crate::text::repeated(' ', less(w, crate::columns::columns(text)))
}

/// `text` on the left of `w` columns.
pub open spec fn padded(text: Seq<char>, w: nat) -> Seq<char> {
    truncated(text, w) + filler(truncated(text, w), w)
}

/// `text` on the right of `w` columns.
pub open spec fn padded_start(text: Seq<char>, w: nat) -> Seq<char> {
    filler(truncated(text, w), w) + truncated(text, w)
}

/// A path on the left of `w` columns; its end survives cutting.
pub open spec fn padded_path(text: Seq<char>, w: nat) -> Seq<char> {
    truncated_path(text, w) + filler(truncated_path(text, w), w)
}

/// `text` styled, on the left of `w` columns. The escape sequences take none.
pub open spec fn padded_in_style(
    text: Seq<char>,
    w: nat,
    style: TextStyle,
    emit_colors: bool,
) -> Seq<char> {
    crate::style::painted(truncated(text, w), style, emit_colors) + filler(truncated(text, w), w)
}

/// The columns that are left of `w` after a prefix that is itself cut to `w`.
pub open spec fn budget_after(prefix: Seq<char>, w: nat) -> nat {
    less(w, crate::columns::columns(clipped(prefix, w)))
}

/// Cuts to `width` columns without a trace.
pub fn clip_cols(text: &str, w: usize) -> (out: String)
    ensures
        out@ == clipped(text@, w as nat),
{
    if width(text) <= w {
        text.to_owned()
    } else {
        take_left(text, w)
    }
}

/// Cuts to `width` columns, with an ellipsis in place of the end.
pub fn truncate_cols(text: &str, w: usize) -> (out: String)
    ensures
        out@ == truncated(text@, w as nat),
{
    if width(text) <= w {
        return text.to_owned();
    }
    let mut out = String::new();
    if w == 0 {
        return out;
    }
    if w > 1 {
        out = take_left(text, w - 1);
    }
    let ghost before = out@;
    out.push('…');
    assert(out@ =~= before + seq!['…']);
    assert(w == 1 ==> out@ =~= seq!['…']);
    out
}

/// Cuts to `width` columns, with an ellipsis in place of the start.
pub fn truncate_path_cols(text: &str, w: usize) -> (out: String)
    ensures
        out@ == truncated_path(text@, w as nat),
{
    if width(text) <= w {
        return text.to_owned();
    }
    let mut out = String::new();
    if w == 0 {
        return out;
    }
    out.push('…');
    assert(out@ =~= seq!['…']);
    if w > 1 {
        let tail = take_right(text, w - 1);
        out.append(tail.as_str());
    }
    out
}

fn missing(text: &str, w: usize) -> (n: usize)
    ensures
        n == less(w as nat, crate::columns::columns(text@)),
{
    let used = width(text);
    if w >= used {
        w - used
    } else {
        0
    }
}

/// Left-aligns `text` in `width` columns.
pub fn pad_or_truncate(text: &str, w: usize) -> (out: String)
    ensures
        out@ == padded(text@, w as nat),
{
    let mut out = truncate_cols(text, w);
    let pad = missing(out.as_str(), w);
    push_repeated(&mut out, ' ', pad);
    out
}

/// Right-aligns `text` in `width` columns.
pub fn pad_start(text: &str, w: usize) -> (out: String)
    ensures
        out@ == padded_start(text@, w as nat),
{
    let cut = truncate_cols(text, w);
    let pad = missing(cut.as_str(), w);
    let mut out = String::new();
    push_repeated(&mut out, ' ', pad);
    assert(out@ =~= filler(cut@, w as nat));
    out.append(cut.as_str());
    out
}

/// Left-aligns a path in `width` columns; its end survives cutting.
pub fn pad_path(text: &str, w: usize) -> (out: String)
    ensures
        out@ == padded_path(text@, w as nat),
{
    let mut out = truncate_path_cols(text, w);
    let pad = missing(out.as_str(), w);
    push_repeated(&mut out, ' ', pad);
    out
}

/// Styles `text` and left-aligns it in `width` columns.
pub fn styled_padded(text: &str, w: usize, style: TextStyle, emit_colors: bool) -> (out: String)
    ensures
        out@ == padded_in_style(text@, w as nat, style, emit_colors),
{
    let cut = truncate_cols(text, w);
    let pad = missing(cut.as_str(), w);
    let mut out = color_for_stream(cut.as_str(), style, emit_colors);
    push_repeated(&mut out, ' ', pad);
    out
}

/// Splits `width` between a prefix, which is cut to it, and what follows.
pub fn prefix_budget(prefix: &str, w: usize) -> (r: (String, usize))
    ensures
        r.0@ == clipped(prefix@, w as nat),
        r.1 == budget_after(prefix@, w as nat),
{
    let cut = clip_cols(prefix, w);
    let left = missing(cut.as_str(), w);
    (cut, left)
}

/// One entry to pack: its width and its text.
pub struct Cell {
    pub columns: nat,
    pub text: Seq<char>,
}

/// The cells that pairs of a width and a text stand for.
pub open spec fn cells(v: Seq<(usize, String)>) -> Seq<Cell> {
    v.map_values(|p: (usize, String)| Cell { columns: p.0 as nat, text: p.1@ })
}

/// Packing under way: the finished lines and the line being filled.
pub struct Packing {
    pub lines: Seq<Seq<char>>,
    pub line: Seq<char>,
    pub columns: nat,
}

/// The packing of `entries`: an entry goes on the current line if it fits
/// there behind a separator, else on a line of its own.
pub open spec fn packing(entries: Seq<Cell>, w: nat, sep: Seq<char>) -> Packing
    decreases entries.len(),
{
    if entries.len() == 0 {
        Packing { lines: Seq::empty(), line: Seq::empty(), columns: 0 }
    } else {
        let before = packing(entries.drop_last(), w, sep);
        let entry = entries.last();
        let joined = before.columns + crate::columns::columns(sep) + entry.columns;
        if before.line.len() == 0 {
            Packing { lines: before.lines, line: entry.text, columns: entry.columns }
        } else if joined > w {
            Packing {
                lines: before.lines.push(before.line),
                line: entry.text,
                columns: entry.columns,
            }
        } else {
            Packing { lines: before.lines, line: before.line + sep + entry.text, columns: joined }
        }
    }
}

/// The lines that a packing comes to.
pub open spec fn packed(entries: Seq<Cell>, w: nat, sep: Seq<char>) -> Seq<Seq<char>> {
    let p = packing(entries, w, sep);
    if p.line.len() == 0 {
        p.lines
    } else {
        p.lines.push(p.line)
    }
}

/// Packs entries into as few lines of `w` columns as they take in order, with
/// `sep` between neighbours on a line. Each entry comes with its own width,
/// which escape sequences in its text do not count towards. An entry that is
/// too wide gets a line of its own.
pub fn pack_columns(entries: &[(usize, String)], w: usize, sep: &str) -> (out: Vec<String>)
    ensures
        crate::text::texts(out@) == packed(cells(entries@), w as nat, sep@),
{
    let sep_width = width(sep);
    let ghost all = cells(entries@);
    let mut lines: Vec<String> = Vec::new();
    let mut line = String::new();
    let mut used: usize = 0;
    let mut i: usize = 0;
    assert(all.take(0) =~= Seq::<Cell>::empty());
    assert(crate::text::texts(lines@) =~= Seq::<Seq<char>>::empty());
    while i < entries.len()
        invariant
            i <= entries@.len(),
            all == cells(entries@),
            sep_width == crate::columns::columns(sep@),
            packing(all.take(i as int), w as nat, sep@) == (Packing {
                lines: crate::text::texts(lines@),
                line: line@,
                columns: used as nat,
            }),
        decreases entries@.len() - i,
    {
        assert(all.take(i + 1).drop_last() =~= all.take(i as int));
        assert(all.take(i + 1).last() == all[i as int]);
        let entry_width: usize = entries[i].0;
        let text = entries[i].1.as_str();
        let joined: u128 = used as u128 + sep_width as u128 + entry_width as u128;
        if line.as_str().is_empty() {
            line = text.to_owned();
            used = entry_width;
        } else if joined > w as u128 {
            push_line(&mut lines, line);
            line = text.to_owned();
            used = entry_width;
        } else {
            line.append(sep);
            line.append(text);
            used = used + sep_width + entry_width;
        }
        i = i + 1;
    }
    assert(all.take(i as int) =~= all);
    if !line.as_str().is_empty() {
        push_line(&mut lines, line);
    }
    lines
}

/// The entry for a text without styling.
pub fn cell(text: &str) -> (r: (usize, String))
    ensures
        r.0 == crate::columns::columns(text@),
        r.1@ == text@,
{
    (width(text), text.to_owned())
}

/// The entry for a text in its own width.
pub open spec fn plain_cell(text: Seq<char>) -> Cell {
    Cell { columns: crate::columns::columns(text), text }
}

/// The words of `text` as entries, each cut to `w` columns.
pub open spec fn word_cell_views(text: Seq<char>, w: nat) -> Seq<Cell> {
    crate::text::words_of(text).map_values(|word: Seq<char>| plain_cell(truncated(word, w)))
}

/// The words of `text` as entries, each cut to `width` columns.
pub fn word_cells(text: &str, w: usize) -> (out: Vec<(usize, String)>)
    ensures
        cells(out@) == word_cell_views(text@, w as nat),
{
    let ws = words(text);
    let ghost wanted = word_cell_views(text@, w as nat);
    let mut out: Vec<(usize, String)> = Vec::new();
    let mut i: usize = 0;
    assert(crate::text::texts(ws@).len() == ws@.len());
    assert(cells(out@) =~= wanted.take(0));
    while i < ws.len()
        invariant
            i <= ws@.len(),
            crate::text::texts(ws@) == crate::text::words_of(text@),
            wanted == word_cell_views(text@, w as nat),
            wanted.len() == ws@.len(),
            cells(out@) == wanted.take(i as int),
        decreases ws@.len() - i,
    {
        assert(crate::text::texts(ws@)[i as int] == ws@[i as int]@);
        let ghost before = cells(out@);
        let cut = truncate_cols(ws[i].as_str(), w);
        let entry = cell(cut.as_str());
        assert(wanted[i as int] == (Cell { columns: entry.0 as nat, text: entry.1@ }));
        out.push(entry);
        assert(cells(out@) =~= before.push(wanted[i as int]));
        i = i + 1;
        assert(before.push(wanted[i - 1]) =~= wanted.take(i as int));
    }
    assert(wanted.take(i as int) =~= wanted);
    out
}

/// `text` wrapped at words into lines of `w` columns.
pub open spec fn wrapped(text: Seq<char>, w: nat) -> Seq<Seq<char>> {
    packed(word_cell_views(text, w), w, " "@)
}

/// Wraps `text` at words into lines of at most `width` columns.
pub fn wrap_plain(text: &str, w: usize) -> (out: Vec<String>)
    ensures
        crate::text::texts(out@) == wrapped(text@, w as nat),
{
    pack_columns(word_cells(text, w).as_slice(), w, " ")
}

/// Each line styled.
pub open spec fn painted_lines(
    lines: Seq<Seq<char>>,
    style: TextStyle,
    emit_colors: bool,
) -> Seq<Seq<char>> {
    lines.map_values(|l: Seq<char>| crate::style::painted(l, style, emit_colors))
}

/// Wraps `text` and styles each line.
pub fn wrap_styled(text: &str, w: usize, style: TextStyle, emit_colors: bool) -> (out: Vec<String>)
    ensures
        crate::text::texts(out@) == painted_lines(wrapped(text@, w as nat), style, emit_colors),
{
    let lines = wrap_plain(text, w);
    let ghost all = crate::text::texts(lines@);
    let ghost wanted = painted_lines(all, style, emit_colors);
    let mut out: Vec<String> = Vec::new();
    let mut i: usize = 0;
    assert(crate::text::texts(out@) =~= wanted.take(0));
    while i < lines.len()
        invariant
            i <= lines@.len(),
            all == crate::text::texts(lines@),
            wanted == painted_lines(all, style, emit_colors),
            crate::text::texts(out@) == wanted.take(i as int),
        decreases lines@.len() - i,
    {
        let ghost before = crate::text::texts(out@);
        assert(wanted[i as int] == crate::style::painted(lines@[i as int]@, style, emit_colors));
        push_line(&mut out, color_for_stream(lines[i].as_str(), style, emit_colors));
        i = i + 1;
        assert(before.push(wanted[i - 1]) =~= wanted.take(i as int));
    }
    assert(wanted.take(i as int) =~= wanted);
    out
}

/// Each line behind `prefix`.
pub open spec fn prefixed(prefix: Seq<char>, lines: Seq<Seq<char>>) -> Seq<Seq<char>> {
    lines.map_values(|l: Seq<char>| prefix + l)
}

/// Appends `lines`, each behind `prefix`.
pub fn push_prefixed(out: &mut Vec<String>, prefix: &str, lines: &[String])
    ensures
        crate::text::texts(final(out)@) == crate::text::texts(old(out)@) + prefixed(
            prefix@,
            crate::text::texts(lines@),
        ),
{
    let ghost had = crate::text::texts(out@);
    let ghost more = prefixed(prefix@, crate::text::texts(lines@));
    let mut i: usize = 0;
    assert(had =~= had + more.take(0));
    while i < lines.len()
        invariant
            i <= lines@.len(),
            more == prefixed(prefix@, crate::text::texts(lines@)),
            crate::text::texts(out@) == had + more.take(i as int),
        decreases lines@.len() - i,
    {
        let ghost before = crate::text::texts(out@);
        assert(more[i as int] == prefix@ + lines@[i as int]@);
        push_line(out, cat2(prefix, lines[i].as_str()));
        i = i + 1;
        assert(before.push(more[i - 1]) =~= had + more.take(i as int));
    }
    assert(more.take(i as int) =~= more);
}

/// A text that fits is not touched. One that does not keeps its start, or of a path its
/// end, next to an ellipsis; where it is merely clipped, no trace is left of the cut.
pub proof fn cutting_keeps_one_end(text: Seq<char>, w: nat)
    ensures
        crate::columns::columns(text) <= w ==> clipped(text, w) == text && truncated(text, w)
            == text && truncated_path(text, w) == text,
        crate::columns::columns(text) > w ==> clipped(text, w).is_prefix_of(text),
        crate::columns::columns(text) > w && w > 0 ==> truncated(text, w).len() > 0 && truncated(
            text,
            w,
        ).last() == '…' && truncated(text, w).drop_last().is_prefix_of(text),
        crate::columns::columns(text) > w && w > 0 ==> truncated_path(text, w).len() > 0
            && truncated_path(text, w)[0] == '…' && truncated_path(text, w).skip(1)
            == text.skip(text.len() - (truncated_path(text, w).len() - 1)),
        w == 0 && crate::columns::columns(text) > 0 ==> truncated(text, w).len() == 0
            && truncated_path(text, w).len() == 0,
{
    crate::columns::as_much_is_taken_as_fits(text, w);
    if w > 1 {
        let b = (w - 1) as nat;
        crate::columns::as_much_is_taken_as_fits(text, b);
        crate::columns::as_much_is_taken_from_the_right_as_fits(text, b);
        let left = crate::columns::left_part(text, b);
        let right = crate::columns::right_part(text, b);
        assert((left + seq!['…']).drop_last() =~= left);
        assert((seq!['…'] + right).skip(1) =~= right);
    } else {
        assert(seq!['…'].drop_last() =~= Seq::<char>::empty());
        assert(Seq::<char>::empty().is_prefix_of(text)) by {
            assert(Seq::<char>::empty() =~= text.subrange(0, 0));
        }
        assert(seq!['…'].skip(1) =~= Seq::<char>::empty());
        assert(text.skip(text.len() as int) =~= Seq::<char>::empty());
    }
}

/// An entry goes on the line before it exactly if it fits there behind the separator: a
/// line is broken only where the next entry would be too much.
pub proof fn lines_are_broken_only_where_they_must_be(
    entries: Seq<Cell>,
    entry: Cell,
    w: nat,
    sep: Seq<char>,
)
    ensures
        ({
            let before = packing(entries, w, sep);
            let after = packing(entries.push(entry), w, sep);
            let together = before.columns + crate::columns::columns(sep) + entry.columns;
            &&& before.line.len() > 0 && together <= w ==> after.lines == before.lines && after.line
                == before.line + sep + entry.text && after.columns == together
            &&& before.line.len() > 0 && together > w ==> after.lines == before.lines.push(
                before.line,
            ) && after.line == entry.text && after.columns == entry.columns
            &&& before.line.len() == 0 ==> after.lines == before.lines && after.line == entry.text
                && after.columns == entry.columns
        }),
{
    assert(entries.push(entry).drop_last() =~= entries);
}

/// Padding adds spaces and nothing else, at the end or, for numbers, at the start.
pub proof fn padding_adds_spaces(text: Seq<char>, w: nat)
    ensures
        truncated(text, w).is_prefix_of(padded(text, w)),
        forall|i: int|
            truncated(text, w).len() <= i < padded(text, w).len() ==> #[trigger] padded(text, w)[i]
                == ' ',
        truncated_path(text, w).is_prefix_of(padded_path(text, w)),
        padded_start(text, w).skip(
            padded_start(text, w).len() - truncated(text, w).len(),
        ) == truncated(text, w),
        forall|i: int|
            0 <= i < padded_start(text, w).len() - truncated(text, w).len()
                ==> #[trigger] padded_start(text, w)[i] == ' ',
{
    let cut = truncated(text, w);
    let all = padded(text, w);
    assert(cut =~= all.subrange(0, cut.len() as int));
    let path = truncated_path(text, w);
    assert(path =~= padded_path(text, w).subrange(0, path.len() as int));
    let right = padded_start(text, w);
    assert(right.skip(right.len() - cut.len()) =~= cut);
}

} // verus!
