//! Laws of live progress: what is on the screen once a terminal has replayed
//! what was drawn.
//!
//! The terminal is modelled as rows of characters, one cell each, and a
//! cursor. It knows what progress is drawn with: text, carriage return, line
//! feed, and the sequences that erase a row and go up one row.

use vstd::prelude::*;

verus! {

/// A screen: its rows, the cursor, and the escape sequence that is being read.
#[verifier::ext_equal]
pub struct Screen {
    pub rows: Seq<Seq<char>>,
    pub y: nat,
    pub x: nat,
    pub pending: Option<Seq<char>>,
}

/// A row once a character is typed at `x`.
pub open spec fn typed(row: Seq<char>, x: nat, c: char) -> Seq<char> {
    if x < row.len() {
        row.update(x as int, c)
    } else {
        (row + crate::text::repeated(' ', (x - row.len()) as nat)).push(c)
    }
}

/// Whether a character ends an escape sequence.
pub open spec fn is_final(c: char) -> bool {
    'a' <= c <= 'z' || 'A' <= c <= 'Z'
}

/// What an escape sequence does.
pub open spec fn obeyed(s: Screen, sequence: Seq<char>) -> Screen {
    if sequence == seq!['[', '2', 'K'] {
        Screen { rows: s.rows.update(s.y as int, Seq::empty()), ..s }
    } else if sequence == seq!['[', '1', 'A'] && s.y > 0 {
        Screen { y: (s.y - 1) as nat, ..s }
    } else {
        s
    }
}

/// The screen after one more character.
pub open spec fn replay_one(s: Screen, c: char) -> Screen {
    match s.pending {
        Some(sequence) => if is_final(c) {
            obeyed(Screen { pending: None, ..s }, sequence.push(c))
        } else {
            Screen { pending: Some(sequence.push(c)), ..s }
        },
        None => if c == '\u{1b}' {
            Screen { pending: Some(Seq::empty()), ..s }
        } else if c == '\r' {
            Screen { x: 0, ..s }
        } else if c == '\n' {
            Screen {
                rows: if s.y + 1 < s.rows.len() {
                    s.rows
                } else {
                    s.rows.push(Seq::empty())
                },
                y: s.y + 1,
                x: 0,
                ..s
            }
        } else {
            Screen {
                rows: s.rows.update(s.y as int, typed(s.rows[s.y as int], s.x, c)),
                x: s.x + 1,
                ..s
            }
        },
    }
}

/// The screen after `text`.
pub open spec fn replayed(s: Screen, text: Seq<char>) -> Screen
    decreases text.len(),
{
    if text.len() == 0 {
        s
    } else {
        replay_one(replayed(s, text.drop_last()), text.last())
    }
}

/// Whether a row is empty to the eye.
pub open spec fn is_blank(row: Seq<char>) -> bool {
    forall|i: int| 0 <= i < row.len() ==> #[trigger] row[i] == ' '
}

/// Whether a row shows a line and nothing else.
pub open spec fn row_shows(row: Seq<char>, line: Seq<char>) -> bool {
    line.len() <= row.len() && row.take(line.len() as int) == line && is_blank(
        row.skip(line.len() as int),
    )
}

/// Whether the rows from `top` on show exactly these lines, with the cursor in
/// the last of them, or in the row at `top` where there are none.
pub open spec fn is_live(s: Screen, top: nat, lines: Seq<Seq<char>>) -> bool {
    &&& s.pending is None
    &&& s.y < s.rows.len()
    &&& s.y == if lines.len() == 0 {
        top as int
    } else {
        top + lines.len() - 1
    }
    &&& forall|i: int|
        0 <= i < lines.len() ==> row_shows(s.rows[top + i], #[trigger] lines[i])
    &&& forall|j: int|
        top + lines.len() <= j < s.rows.len() ==> is_blank(#[trigger] s.rows[j])
}

/// Whether two screens have the same rows above `top`.
pub open spec fn same_above(a: Screen, b: Screen, top: nat) -> bool {
    &&& top <= a.rows.len()
    &&& top <= b.rows.len()
    &&& a.rows.take(top as int) == b.rows.take(top as int)
}

/// Whether a text holds no character that moves the cursor by itself.
pub open spec fn is_printable(text: Seq<char>) -> bool {
    forall|i: int|
        0 <= i < text.len() ==> #[trigger] text[i] != '\u{1b}' && text[i] != '\r' && text[i] != '\n'
}

proof fn lemma_replay_concat(s: Screen, a: Seq<char>, b: Seq<char>)
    ensures
        replayed(s, a + b) == replayed(replayed(s, a), b),
    decreases b.len(),
{
    if b.len() == 0 {
        assert(a + b =~= a);
    } else {
        lemma_replay_concat(s, a, b.drop_last());
        assert((a + b).drop_last() =~= a + b.drop_last());
        assert((a + b).last() == b.last());
    }
}

proof fn lemma_replay_push(s: Screen, a: Seq<char>, c: char)
    ensures
        replayed(s, a.push(c)) == replay_one(replayed(s, a), c),
{
    assert(a.push(c).drop_last() =~= a);
}

/// A row once `text` is typed from its start.
spec fn overwritten(row: Seq<char>, text: Seq<char>) -> Seq<char> {
    if text.len() < row.len() {
        text + row.skip(text.len() as int)
    } else {
        text
    }
}

proof fn lemma_typing(s: Screen, text: Seq<char>)
    requires
        s.pending is None,
        s.y < s.rows.len(),
        s.x == 0,
        is_printable(text),
    ensures
        replayed(s, text) == (Screen {
            rows: s.rows.update(s.y as int, overwritten(s.rows[s.y as int], text)),
            x: text.len(),
            ..s
        }),
    decreases text.len(),
{
    let row = s.rows[s.y as int];
    if text.len() == 0 {
        assert(overwritten(row, text) =~= row);
        assert(s.rows.update(s.y as int, row) =~= s.rows);
    } else {
        let front = text.drop_last();
        assert forall|i: int| 0 <= i < front.len() implies #[trigger] front[i] != '\u{1b}'
            && front[i] != '\r' && front[i] != '\n' by {
            assert(front[i] == text[i]);
        }
        lemma_typing(s, front);
        let c = text[text.len() - 1];
        let before = overwritten(row, front);
        assert(crate::text::repeated(' ', 0) =~= Seq::<char>::empty());
        assert(before + Seq::<char>::empty() =~= before);
        assert(typed(before, front.len(), c) =~= overwritten(row, text));
        assert(s.rows.update(s.y as int, before).update(s.y as int, overwritten(row, text))
            =~= s.rows.update(s.y as int, overwritten(row, text)));
    }
}

proof fn lemma_return(s: Screen)
    requires
        s.pending is None,
    ensures
        replayed(s, "\r"@) == (Screen { x: 0, ..s }),
{
    reveal_strlit("\r");
    assert("\r"@ =~= Seq::<char>::empty().push('\r'));
    lemma_replay_push(s, Seq::empty(), '\r');
}

proof fn lemma_erase(s: Screen)
    requires
        s.pending is None,
    ensures
        replayed(s, "\r\x1b[2K"@) == (Screen {
            rows: s.rows.update(s.y as int, Seq::empty()),
            x: 0,
            ..s
        }),
{
    reveal_strlit("\r\x1b[2K");
    let a = Seq::<char>::empty().push('\r');
    let b = a.push('\u{1b}');
    let c = b.push('[');
    let d = c.push('2');
    assert("\r\x1b[2K"@ =~= d.push('K'));
    lemma_replay_push(s, Seq::empty(), '\r');
    lemma_replay_push(s, a, '\u{1b}');
    lemma_replay_push(s, b, '[');
    lemma_replay_push(s, c, '2');
    lemma_replay_push(s, d, 'K');
    assert(Seq::<char>::empty().push('[').push('2').push('K') =~= seq!['[', '2', 'K']);
}

proof fn lemma_up(s: Screen)
    requires
        s.pending is None,
        s.y > 0,
    ensures
        replayed(s, "\x1b[1A"@) == (Screen { y: (s.y - 1) as nat, ..s }),
{
    reveal_strlit("\x1b[1A");
    let a = Seq::<char>::empty().push('\u{1b}');
    let b = a.push('[');
    let c = b.push('1');
    assert("\x1b[1A"@ =~= c.push('A'));
    lemma_replay_push(s, Seq::empty(), '\u{1b}');
    lemma_replay_push(s, a, '[');
    lemma_replay_push(s, b, '1');
    lemma_replay_push(s, c, 'A');
    let seen = Seq::<char>::empty().push('[').push('1').push('A');
    assert(seen =~= seq!['[', '1', 'A']);
    assert(seq!['[', '1', 'A'][2] != seq!['[', '2', 'K'][2]);
}

proof fn lemma_rub_out(s: Screen, n: nat)
    requires
        s.pending is None,
        s.y < s.rows.len(),
        1 <= n <= s.y + 1,
    ensures
        ({
            let r = replayed(s, crate::progress::rub_out(n));
            &&& r.pending is None
            &&& r.x == 0
            &&& r.y == s.y + 1 - n
            &&& r.rows.len() == s.rows.len()
            &&& forall|j: int|
                0 <= j < s.rows.len() ==> #[trigger] r.rows[j] == if s.y + 1 - n <= j <= s.y {
                    Seq::<char>::empty()
                } else {
                    s.rows[j]
                }
        }),
    decreases n,
{
    if n == 1 {
        lemma_erase(s);
    } else {
        let m = (n - 1) as nat;
        lemma_rub_out(s, m);
        let a = replayed(s, crate::progress::rub_out(m));
        lemma_replay_concat(s, crate::progress::rub_out(m), "\x1b[1A"@);
        lemma_up(a);
        let b = replayed(a, "\x1b[1A"@);
        lemma_replay_concat(s, crate::progress::rub_out(m) + "\x1b[1A"@, "\r\x1b[2K"@);
        lemma_erase(b);
    }
}

proof fn lemma_spaces(n: nat)
    ensures
        crate::text::repeated(' ', n).len() == n,
        is_printable(crate::text::repeated(' ', n)),
        is_blank(crate::text::repeated(' ', n)),
{
}

/// Whether lines are short enough for `w` spaces to cover each.
pub open spec fn all_within(lines: Seq<Seq<char>>, w: nat) -> bool {
    forall|i: int| 0 <= i < lines.len() ==> (#[trigger] lines[i]).len() <= w
}

/// Clearing takes the live lines off the screen and leaves the cursor where
/// they began; nothing above them changes.
pub proof fn clearing_leaves_nothing(s: Screen, top: nat, lines: Seq<Seq<char>>, w: nat)
    requires
        is_live(s, top, lines),
        all_within(lines, w),
    ensures
        ({
            let r = replayed(s, crate::progress::clearing(lines.len(), w));
            is_live(r, top, Seq::empty()) && r.x == 0 && same_above(r, s, top)
        }),
{
    let n = lines.len();
    let r = replayed(s, crate::progress::clearing(n, w));
    if n <= 1 {
        let pad = crate::text::repeated(' ', w);
        lemma_spaces(w);
        let a = replayed(s, "\r"@);
        lemma_return(s);
        lemma_replay_concat(s, "\r"@, pad);
        lemma_typing(a, pad);
        let b = replayed(a, pad);
        lemma_replay_concat(s, "\r"@ + pad, "\r"@);
        lemma_return(b);
        let row = s.rows[s.y as int];
        assert(is_blank(overwritten(row, pad))) by {
            assert forall|i: int| 0 <= i < overwritten(row, pad).len() implies
                #[trigger] overwritten(row, pad)[i] == ' ' by {
                if i < w {
                    assert(overwritten(row, pad)[i] == pad[i]);
                } else {
                    assert(overwritten(row, pad)[i] == row[i]);
                    if n == 1 {
                        assert(row_shows(s.rows[top as int], lines[0]));
                        let k = lines[0].len() as int;
                        assert(row.skip(k)[i - k] == row[i]);
                    } else {
                        assert(is_blank(s.rows[s.y as int]));
                    }
                }
            }
        }
        assert forall|j: int| top <= j < r.rows.len() implies is_blank(#[trigger] r.rows[j]) by {
            if j != s.y {
                assert(r.rows[j] == s.rows[j]);
            }
        }
        assert(r.rows.take(top as int) =~= s.rows.take(top as int));
    } else {
        lemma_rub_out(s, n);
        assert forall|j: int| top <= j < r.rows.len() implies is_blank(#[trigger] r.rows[j]) by {
            if j > s.y {
                assert(r.rows[j] == s.rows[j]);
                assert(is_blank(s.rows[j]));
            }
        }
        assert(r.rows.take(top as int) =~= s.rows.take(top as int));
    }
}

proof fn lemma_typed_line(s: Screen, line: Seq<char>)
    requires
        s.pending is None,
        s.y < s.rows.len(),
        s.x == 0,
        is_blank(s.rows[s.y as int]),
        is_printable(line),
    ensures
        ({
            let r = replayed(s, line);
            &&& r.pending is None
            &&& r.y == s.y
            &&& r.rows.len() == s.rows.len()
            &&& row_shows(r.rows[r.y as int], line)
            &&& forall|j: int|
                0 <= j < s.rows.len() && j != s.y ==> #[trigger] r.rows[j] == s.rows[j]
        }),
{
    lemma_typing(s, line);
    let row = s.rows[s.y as int];
    let after = overwritten(row, line);
    let k = line.len() as int;
    assert(after.take(k) =~= line);
    assert forall|i: int| 0 <= i < after.skip(k).len() implies #[trigger] after.skip(k)[i]
        == ' ' by {
        assert(after.skip(k)[i] == row[k + i]);
    }
}

proof fn lemma_typed_lines(s: Screen, top: nat, lines: Seq<Seq<char>>)
    requires
        is_live(s, top, Seq::empty()),
        s.x == 0,
        lines.len() > 0,
        forall|i: int| 0 <= i < lines.len() ==> is_printable(#[trigger] lines[i]),
    ensures
        ({
            let r = replayed(s, crate::text::joined(lines, "\n"@));
            is_live(r, top, lines) && same_above(r, s, top)
        }),
    decreases lines.len(),
{
    let text = crate::text::joined(lines, "\n"@);
    let r = replayed(s, text);
    let last = lines.len() - 1;
    assert(is_printable(lines[last]));
    assert(is_blank(s.rows[s.y as int]));
    if lines.len() == 1 {
        lemma_typed_line(s, lines[0]);
        assert(r.rows.take(top as int) =~= s.rows.take(top as int));
        assert forall|i: int| 0 <= i < lines.len() implies row_shows(
            r.rows[top + i],
            #[trigger] lines[i],
        ) by {}
        assert forall|j: int| top + lines.len() <= j < r.rows.len() implies is_blank(
            #[trigger] r.rows[j],
        ) by {
            assert(r.rows[j] == s.rows[j]);
        }
    } else {
        let front = lines.drop_last();
        assert forall|i: int| 0 <= i < front.len() implies is_printable(#[trigger] front[i]) by {
            assert(front[i] == lines[i]);
        }
        lemma_typed_lines(s, top, front);
        let head = crate::text::joined(front, "\n"@);
        let a = replayed(s, head);
        lemma_replay_concat(s, head, "\n"@);
        reveal_strlit("\n");
        assert("\n"@ =~= Seq::<char>::empty().push('\n'));
        lemma_replay_push(a, Seq::empty(), '\n');
        let b = replayed(a, "\n"@);
        assert(is_blank(b.rows[b.y as int]));
        lemma_replay_concat(s, head + "\n"@, lines[last]);
        lemma_typed_line(b, lines[last]);
        assert forall|i: int| 0 <= i < lines.len() implies row_shows(
            r.rows[top + i],
            #[trigger] lines[i],
        ) by {
            if i < last {
                assert(front[i] == lines[i]);
                assert(r.rows[top + i] == a.rows[top + i]);
            }
        }
        assert forall|j: int| top + lines.len() <= j < r.rows.len() implies is_blank(
            #[trigger] r.rows[j],
        ) by {
            assert(r.rows[j] == b.rows[j]);
            assert(b.rows[j] == a.rows[j]);
        }
        assert(r.rows.take(top as int) =~= a.rows.take(top as int));
    }
}

/// Every drawing replaces the one before it: afterwards the live rows show the
/// new lines and nothing of the old ones, and nothing above them changes.
pub proof fn drawing_replaces_what_was_drawn(
    s: Screen,
    top: nat,
    old_lines: Seq<Seq<char>>,
    lines: Seq<Seq<char>>,
    w: nat,
)
    requires
        is_live(s, top, old_lines),
        all_within(old_lines, w),
        lines.len() > 0,
        forall|i: int| 0 <= i < lines.len() ==> is_printable(#[trigger] lines[i]),
    ensures
        ({
            let r = replayed(s, crate::progress::drawing(old_lines.len(), lines, w));
            is_live(r, top, lines) && same_above(r, s, top)
        }),
{
    let n = old_lines.len();
    let a = replayed(s, crate::progress::rewind(n, w));
    lemma_replay_concat(
        s,
        crate::progress::rewind(n, w),
        crate::text::joined(lines, "\n"@),
    );
    if n > 0 {
        clearing_leaves_nothing(s, top, old_lines, w);
    } else {
        lemma_return(s);
    }
    lemma_typed_lines(a, top, lines);
    let r = replayed(a, crate::text::joined(lines, "\n"@));
    assert(r.rows.take(top as int) == s.rows.take(top as int));
}

} // verus!
