//! Display columns: how wide text is on a terminal.
//!
//! Widths come from the `unicode-width` crate. A text whose characters stand
//! alone is as wide as its characters together; characters that combine with
//! their neighbours (joiners, variation selectors, flags, some ligatures) can
//! make it wider or narrower than that.

use vstd::prelude::*;

use unicode_width::{UnicodeWidthChar, UnicodeWidthStr};

use crate::text::{chars_of, string_of};

verus! {

/// The width of a character beyond ASCII that is not a control character.
pub uninterp spec fn glyph_columns(c: char) -> nat;

/// The width of a text in which some character does not stand alone.
pub uninterp spec fn sequence_columns(s: Seq<char>) -> nat;

/// Whether `c` is a control character.
pub open spec fn is_control(c: char) -> bool {
    (c as int) < 0x20 || 0x7f <= (c as int) < 0xa0
}

/// Whether the width of `c` in a text does not hang on its neighbours, nor
/// theirs on it: it is no control character, no joiner or variation selector,
/// no flag letter or skin tone, and none of the letters that form ligatures.
pub open spec fn stands_alone(c: char) -> bool {
    let n = c as int;
    &&& !is_control(c)
    &&& n != 0x5dc
    &&& !(0x622 <= n <= 0x882)
    &&& !(0x1780 <= n <= 0x17af)
    &&& n != 0x1a10
    &&& n != 0x200d
    &&& !(0x2d31 <= n <= 0x2d6f)
    &&& !(0xa4fc <= n <= 0xa4fd)
    &&& n != 0xfe01
    &&& n != 0xfe0e
    &&& n != 0xfe0f
    &&& n != 0x10c03
    &&& !(0x16d67 <= n <= 0x16d68)
    &&& !(0x1f1e6 <= n <= 0x1f1ff)
    &&& !(0x1f3fb <= n <= 0x1f3ff)
}

/// Whether every character of `s` stands alone.
pub open spec fn all_alone(s: Seq<char>) -> bool {
    forall|i: int| 0 <= i < s.len() ==> stands_alone(#[trigger] s[i])
}

/// The characters that are certain to be one column wide: ASCII ones, the
/// symbols that the output is drawn with, and the frames of the spinner.
pub open spec fn is_narrow(c: char) -> bool {
    ||| 0x20 <= (c as int) < 0x7f
    ||| c == '…'
    ||| c == '·'
    ||| c == '●'
    ||| c == '▸'
    ||| c == '⟩'
    ||| c == '→'
    ||| c == '✓'
    ||| c == '✗'
    ||| c == '—'
    ||| c == '⠋'
    ||| c == '⠙'
    ||| c == '⠹'
    ||| c == '⠸'
    ||| c == '⠼'
    ||| c == '⠴'
    ||| c == '⠦'
    ||| c == '⠧'
    ||| c == '⠇'
    ||| c == '⠏'
}

/// The width of a character: none for a control character.
pub open spec fn char_columns(c: char) -> Option<nat> {
    if is_control(c) {
        None
    } else if is_narrow(c) {
        Some(1)
    } else {
        Some(glyph_columns(c))
    }
}

/// The width of a character, where one without a width counts nothing.
pub open spec fn cell_columns(c: char) -> nat {
    match char_columns(c) {
        Some(w) => w,
        None => 0,
    }
}

/// The widths of the characters of `s` together.
pub open spec fn sum_columns(s: Seq<char>) -> nat
    decreases s.len(),
{
    if s.len() == 0 {
        0
    } else {
        sum_columns(s.drop_last()) + cell_columns(s.last())
    }
}

/// The width of a text.
pub open spec fn columns(s: Seq<char>) -> nat {
    if all_alone(s) {
        sum_columns(s)
    } else {
        sequence_columns(s)
    }
}

/// How many characters from the left fit into `budget` columns.
pub open spec fn fit_left(s: Seq<char>, budget: nat) -> nat
    decreases s.len(),
{
    if s.len() == 0 {
        0
    } else {
        let before = fit_left(s.drop_last(), budget);
        if before == s.len() - 1 && sum_columns(s) <= budget {
            s.len()
        } else {
            before
        }
    }
}

/// How many characters from the right fit into `budget` columns.
pub open spec fn fit_right(s: Seq<char>, budget: nat) -> nat
    decreases s.len(),
{
    if s.len() == 0 {
        0
    } else {
        let after = fit_right(s.skip(1), budget);
        if after == s.len() - 1 && sum_columns(s) <= budget {
            s.len()
        } else {
            after
        }
    }
}

/// As much of `s` from the left as fits into `budget` columns.
pub open spec fn left_part(s: Seq<char>, budget: nat) -> Seq<char> {
    s.take(fit_left(s, budget) as int)
}

/// As much of `s` from the right as fits into `budget` columns.
pub open spec fn right_part(s: Seq<char>, budget: nat) -> Seq<char> {
    s.skip(s.len() - fit_right(s, budget))
}

/// `UnicodeWidthChar::width`: the columns of one character. Control characters
/// have none, the other ASCII characters and the symbols of [`is_narrow`] one,
/// and no character more than three.
#[verifier::external_body]
fn char_width(c: char) -> (r: Option<usize>)
    ensures
        match r {
            None => is_control(c),
            Some(w) => !is_control(c) && w <= 3 && w == if is_narrow(c) {
                1
            } else {
                glyph_columns(c)
            },
        },
{
    UnicodeWidthChar::width(c)
}

/// `UnicodeWidthStr::width`: the columns of a text. Characters that stand
/// alone each count by themselves; what characters that combine come to is not
/// spelled out.
#[verifier::external_body]
fn str_width(s: &str) -> (r: usize)
    ensures
        all_alone(s@) ==> r == sum_columns(s@),
        !all_alone(s@) ==> r == sequence_columns(s@),
{
    UnicodeWidthStr::width(s)
}

/// The width of a text.
pub fn width(s: &str) -> (r: usize)
    ensures
        r == columns(s@),
{
    str_width(s)
}

/// The width of a character, where one without a width counts nothing.
fn cell_width(c: char) -> (r: usize)
    ensures
        r == cell_columns(c),
{
    match char_width(c) {
        Some(w) => w,
        None => 0,
    }
}

proof fn lemma_fit_left_stops(s: Seq<char>, budget: nat, n: int)
    requires
        0 <= n < s.len(),
        fit_left(s.take(n), budget) == n,
        sum_columns(s.take(n + 1)) > budget,
    ensures
        fit_left(s, budget) == n,
    decreases s.len(),
{
    if n == s.len() - 1 {
        assert(s.take(n + 1) =~= s);
        assert(s.drop_last() =~= s.take(n));
    } else {
        let front = s.drop_last();
        assert(front.take(n) =~= s.take(n));
        assert(front.take(n + 1) =~= s.take(n + 1));
        lemma_fit_left_stops(front, budget, n);
    }
}

/// As much of `s` from the left as fits into `budget` columns.
pub fn take_left(s: &str, budget: usize) -> (out: String)
    ensures
        out@ == left_part(s@, budget as nat),
{
    let c = chars_of(s);
    let mut used: usize = 0;
    let mut i: usize = 0;
    assert(s@.take(0) =~= Seq::<char>::empty());
    while i < c.len()
        invariant
            i <= c@.len(),
            c@ == s@,
            used <= budget,
            used == sum_columns(s@.take(i as int)),
            fit_left(s@.take(i as int), budget as nat) == i,
        decreases c@.len() - i,
    {
        let w = cell_width(c[i]);
        assert(s@.take(i + 1).drop_last() =~= s@.take(i as int));
        if w > budget - used {
            proof {
                lemma_fit_left_stops(s@, budget as nat, i as int);
            }
            assert(s@.subrange(0, i as int) =~= s@.take(i as int));
            return string_of(&c, 0, i);
        }
        used = used + w;
        i = i + 1;
    }
    assert(s@.take(i as int) =~= s@);
    assert(s@.subrange(0, i as int) =~= s@);
    string_of(&c, 0, i)
}

proof fn lemma_sum_skip(s: Seq<char>)
    requires
        s.len() > 0,
    ensures
        sum_columns(s) == cell_columns(s[0]) + sum_columns(s.skip(1)),
    decreases s.len(),
{
    if s.len() == 1 {
        assert(s.drop_last() =~= Seq::<char>::empty());
        assert(s.skip(1) =~= Seq::<char>::empty());
    } else {
        lemma_sum_skip(s.drop_last());
        assert(s.drop_last().skip(1) =~= s.skip(1).drop_last());
    }
}

proof fn lemma_fit_right_stops(s: Seq<char>, budget: nat, n: int)
    requires
        0 < n <= s.len(),
        fit_right(s.skip(n), budget) == s.len() - n,
        sum_columns(s.skip(n - 1)) > budget,
    ensures
        fit_right(s, budget) == s.len() - n,
    decreases n,
{
    if n == 1 {
        assert(s.skip(0) =~= s);
    } else {
        let rest = s.skip(1);
        assert(rest.skip(n - 1) =~= s.skip(n));
        assert(rest.skip(n - 2) =~= s.skip(n - 1));
        lemma_fit_right_stops(rest, budget, n - 1);
    }
}

/// As much of `s` from the right as fits into `budget` columns.
pub fn take_right(s: &str, budget: usize) -> (out: String)
    ensures
        out@ == right_part(s@, budget as nat),
{
    let c = chars_of(s);
    let n = c.len();
    let mut used: usize = 0;
    let mut i: usize = n;
    assert(s@.skip(n as int) =~= Seq::<char>::empty());
    while i > 0
        invariant
            i <= n,
            n == c@.len(),
            c@ == s@,
            used <= budget,
            used == sum_columns(s@.skip(i as int)),
            fit_right(s@.skip(i as int), budget as nat) == n - i,
        decreases i,
    {
        let w = cell_width(c[i - 1]);
        let ghost longer = s@.skip(i - 1);
        assert(longer.skip(1) =~= s@.skip(i as int));
        assert(longer[0] == c@[i - 1]);
        proof {
            lemma_sum_skip(longer);
        }
        if w > budget - used {
            proof {
                lemma_fit_right_stops(s@, budget as nat, i as int);
            }
            assert(s@.subrange(i as int, n as int) =~= s@.skip(i as int));
            return string_of(&c, i, n);
        }
        used = used + w;
        i = i - 1;
    }
    assert(s@.skip(0) =~= s@);
    assert(s@.subrange(0, n as int) =~= s@);
    string_of(&c, 0, n)
}

/// The widths of two texts one after the other.
pub proof fn sum_of_concatenation(a: Seq<char>, b: Seq<char>)
    ensures
        sum_columns(a + b) == sum_columns(a) + sum_columns(b),
    decreases b.len(),
{
    if b.len() == 0 {
        assert(a + b =~= a);
    } else {
        sum_of_concatenation(a, b.drop_last());
        assert((a + b).drop_last() =~= a + b.drop_last());
    }
}

/// Texts whose characters stand alone are, one after the other, as wide as
/// both together.
pub proof fn columns_of_concatenation(a: Seq<char>, b: Seq<char>)
    requires
        all_alone(a),
        all_alone(b),
    ensures
        all_alone(a + b),
        columns(a + b) == columns(a) + columns(b),
{
    sum_of_concatenation(a, b);
    assert forall|i: int| 0 <= i < (a + b).len() implies stands_alone(#[trigger] (a + b)[i]) by {
        if i < a.len() {
            assert(stands_alone(a[i]));
        } else {
            assert(stands_alone(b[i - a.len()]));
        }
    }
}

proof fn lemma_fit_left(s: Seq<char>, budget: nat)
    ensures
        fit_left(s, budget) <= s.len(),
        sum_columns(left_part(s, budget)) <= budget,
    decreases s.len(),
{
    if s.len() == 0 {
        assert(left_part(s, budget) =~= Seq::<char>::empty());
    } else {
        let front = s.drop_last();
        lemma_fit_left(front, budget);
        if fit_left(s, budget) == s.len() {
            assert(left_part(s, budget) =~= s);
        } else {
            assert(left_part(s, budget) =~= left_part(front, budget));
        }
    }
}

proof fn lemma_fit_right(s: Seq<char>, budget: nat)
    ensures
        fit_right(s, budget) <= s.len(),
        sum_columns(right_part(s, budget)) <= budget,
    decreases s.len(),
{
    if s.len() == 0 {
        assert(right_part(s, budget) =~= Seq::<char>::empty());
    } else {
        let rest = s.skip(1);
        lemma_fit_right(rest, budget);
        if fit_right(s, budget) == s.len() {
            assert(right_part(s, budget) =~= s);
        } else {
            assert(right_part(s, budget) =~= right_part(rest, budget));
        }
    }
}

/// No more characters are taken than there are.
pub proof fn fitting_counts(s: Seq<char>, budget: nat)
    ensures
        fit_left(s, budget) <= s.len(),
        fit_right(s, budget) <= s.len(),
{
    lemma_fit_left(s, budget);
    lemma_fit_right(s, budget);
}

/// What is taken from the left fits, where characters stand alone.
pub proof fn left_part_fits(s: Seq<char>, budget: nat)
    requires
        all_alone(s),
    ensures
        all_alone(left_part(s, budget)),
        columns(left_part(s, budget)) <= budget,
{
    lemma_fit_left(s, budget);
    let t = left_part(s, budget);
    assert forall|i: int| 0 <= i < t.len() implies stands_alone(#[trigger] t[i]) by {
        assert(stands_alone(s[i]));
    }
}

/// What is taken from the right fits, where characters stand alone.
pub proof fn right_part_fits(s: Seq<char>, budget: nat)
    requires
        all_alone(s),
    ensures
        all_alone(right_part(s, budget)),
        columns(right_part(s, budget)) <= budget,
{
    lemma_fit_right(s, budget);
    let t = right_part(s, budget);
    let n = s.len() - fit_right(s, budget);
    assert forall|i: int| 0 <= i < t.len() implies stands_alone(#[trigger] t[i]) by {
        assert(stands_alone(s[n + i]));
    }
}

/// The ellipsis is one column wide.
pub proof fn ellipsis_is_one_column()
    ensures
        all_alone(seq!['…']),
        columns(seq!['…']) == 1,
{
    let s = seq!['…'];
    assert(s.drop_last() =~= Seq::<char>::empty());
    assert(sum_columns(s.drop_last()) == 0);
    assert(s.last() == '…');
}

/// Spaces are one column each.
pub proof fn spaces_are_one_column_each(n: nat)
    ensures
        all_alone(crate::text::repeated(' ', n)),
        columns(crate::text::repeated(' ', n)) == n,
    decreases n,
{
    let s = crate::text::repeated(' ', n);
    if n > 0 {
        spaces_are_one_column_each((n - 1) as nat);
        assert(s.drop_last() =~= crate::text::repeated(' ', (n - 1) as nat));
    }
}

/// Whether every character of `s` is certain to be one column wide.
pub open spec fn all_narrow(s: Seq<char>) -> bool {
    forall|i: int| 0 <= i < s.len() ==> is_narrow(#[trigger] s[i])
}

/// A text of narrow characters is as wide as it is long.
pub proof fn narrow_text(s: Seq<char>)
    requires
        all_narrow(s),
    ensures
        all_alone(s),
        columns(s) == s.len(),
    decreases s.len(),
{
    assert forall|i: int| 0 <= i < s.len() implies stands_alone(#[trigger] s[i]) by {
        assert(is_narrow(s[i]));
    }
    if s.len() > 0 {
        let front = s.drop_last();
        assert(all_narrow(front)) by {
            assert forall|i: int| 0 <= i < front.len() implies is_narrow(#[trigger] front[i]) by {
                assert(is_narrow(s[i]));
            }
        }
        narrow_text(front);
        assert(is_narrow(s[s.len() - 1]));
    }
}

/// What is taken is as much as fits: one more character would be too many.
pub proof fn as_much_is_taken_as_fits(s: Seq<char>, budget: nat)
    ensures
        left_part(s, budget).is_prefix_of(s),
        sum_columns(left_part(s, budget)) <= budget,
        left_part(s, budget).len() < s.len() ==> sum_columns(
            s.take(left_part(s, budget).len() as int + 1),
        ) > budget,
    decreases s.len(),
{
    lemma_fit_left(s, budget);
    let n = fit_left(s, budget) as int;
    assert(left_part(s, budget) == s.take(n));
    if s.len() > 0 {
        let front = s.drop_last();
        as_much_is_taken_as_fits(front, budget);
        lemma_fit_left(front, budget);
        let m = fit_left(front, budget) as int;
        if n == s.len() {
            assert(s.take(n) =~= s);
        } else if m < front.len() {
            assert(front.take(m) =~= s.take(m));
            assert(front.take(m + 1) =~= s.take(m + 1));
        } else {
            assert(s.take(m) =~= front);
            assert(front.take(m) =~= front);
            assert(s.take(m + 1) =~= s);
        }
    } else {
        assert(s.take(n) =~= s);
    }
}

/// The same from the other end.
pub proof fn as_much_is_taken_from_the_right_as_fits(s: Seq<char>, budget: nat)
    ensures
        right_part(s, budget) == s.skip(s.len() - right_part(s, budget).len()),
        sum_columns(right_part(s, budget)) <= budget,
        right_part(s, budget).len() < s.len() ==> sum_columns(
            s.skip(s.len() - right_part(s, budget).len() - 1),
        ) > budget,
    decreases s.len(),
{
    lemma_fit_right(s, budget);
    let n = fit_right(s, budget) as int;
    if s.len() > 0 {
        let rest = s.skip(1);
        as_much_is_taken_from_the_right_as_fits(rest, budget);
        lemma_fit_right(rest, budget);
        let m = fit_right(rest, budget) as int;
        if n == s.len() {
            assert(s.skip(0) =~= s);
        } else if m < rest.len() {
            assert(rest.skip(rest.len() - m) =~= s.skip(s.len() - m));
            assert(rest.skip(rest.len() - m - 1) =~= s.skip(s.len() - m - 1));
        } else {
            assert(rest.skip(rest.len() - m) =~= rest);
            assert(s.skip(s.len() - m) =~= rest);
            assert(s.skip(s.len() - m - 1) =~= s);
        }
    }
}

} // verus!
