//! Characters, strings and the small text operations the rest of the crate
//! is written in.
//!
//! Strings are modelled by the sequence of their characters. Each executable
//! operation here has a specification function of the same meaning over
//! `Seq<char>`, and the contracts of the other modules are stated with those.

use vstd::prelude::*;

verus! {

/// `String::push` appends one character to the end of the string.
pub assume_specification[ String::push ](s: &mut String, c: char)
    ensures
        final(s)@ == old(s)@.push(c),
;

/// The texts of a sequence of strings.
pub open spec fn texts(v: Seq<String>) -> Seq<Seq<char>> {
    v.map_values(|s: String| s@)
}

/// The texts of a sequence of string slices.
pub open spec fn str_texts(v: Seq<&str>) -> Seq<Seq<char>> {
    v.map_values(|s: &str| s@)
}

/// The text of an optional string slice.
pub open spec fn str_text(o: Option<&str>) -> Option<Seq<char>> {
    match o {
        Some(s) => Some(s@),
        None => None,
    }
}

/// The text of an optional string.
pub open spec fn opt_text(o: Option<String>) -> Option<Seq<char>> {
    match o {
        Some(s) => Some(s@),
        None => None,
    }
}

/// Whether `c` has Unicode's `White_Space` property.
pub open spec fn is_white(c: char) -> bool {
    ||| 0x09 <= c as int <= 0x0d
    ||| c as int == 0x20
    ||| c as int == 0x85
    ||| c as int == 0xa0
    ||| c as int == 0x1680
    ||| 0x2000 <= c as int <= 0x200a
    ||| c as int == 0x2028
    ||| c as int == 0x2029
    ||| c as int == 0x202f
    ||| c as int == 0x205f
    ||| c as int == 0x3000
}

/// `s` without its leading white space.
pub open spec fn trim_front(s: Seq<char>) -> Seq<char>
    decreases s.len(),
{
    if s.len() > 0 && is_white(s[0]) {
        trim_front(s.skip(1))
    } else {
        s
    }
}

/// `s` without its trailing white space.
pub open spec fn trim_back(s: Seq<char>) -> Seq<char>
    decreases s.len(),
{
    if s.len() > 0 && is_white(s.last()) {
        trim_back(s.drop_last())
    } else {
        s
    }
}

/// `s` without white space at either end.
pub open spec fn trimmed(s: Seq<char>) -> Seq<char> {
    trim_back(trim_front(s))
}

/// `s` without the occurrences of `c` at its end.
pub open spec fn drop_trailing(s: Seq<char>, c: char) -> Seq<char>
    decreases s.len(),
{
    if s.len() > 0 && s.last() == c {
        drop_trailing(s.drop_last(), c)
    } else {
        s
    }
}

/// The pieces of `s` between the occurrences of `sep`: one more than there
/// are separators.
pub open spec fn split_on(s: Seq<char>, sep: char) -> Seq<Seq<char>>
    decreases s.len(),
{
    if s.len() == 0 {
        seq![Seq::<char>::empty()]
    } else {
        let before = split_on(s.drop_last(), sep);
        if s.last() == sep {
            before.push(Seq::<char>::empty())
        } else {
            before.drop_last().push(before.last().push(s.last()))
        }
    }
}

/// The pieces of `parts` that are not empty, in order.
pub open spec fn non_empty(parts: Seq<Seq<char>>) -> Seq<Seq<char>>
    decreases parts.len(),
{
    if parts.len() == 0 {
        Seq::empty()
    } else {
        let before = non_empty(parts.drop_last());
        if parts.last().len() == 0 {
            before
        } else {
            before.push(parts.last())
        }
    }
}

/// The pieces of `s` between its white space characters.
pub open spec fn split_on_white(s: Seq<char>) -> Seq<Seq<char>>
    decreases s.len(),
{
    if s.len() == 0 {
        seq![Seq::<char>::empty()]
    } else {
        let before = split_on_white(s.drop_last());
        if is_white(s.last()) {
            before.push(Seq::<char>::empty())
        } else {
            before.drop_last().push(before.last().push(s.last()))
        }
    }
}

/// The words of `s`: the pieces between white space that are not empty.
pub open spec fn words_of(s: Seq<char>) -> Seq<Seq<char>> {
    non_empty(split_on_white(s))
}

/// One line without the carriage return that may end it.
pub open spec fn without_cr(line: Seq<char>) -> Seq<char> {
    if line.len() > 0 && line.last() == '\r' {
        line.drop_last()
    } else {
        line
    }
}

/// The lines of `s`: a line feed ends a line, a carriage return before it is
/// not part of the line, and a last line without a line feed counts if it has
/// any characters. (A carriage return that ends such a last line stays.)
pub open spec fn lines_of(s: Seq<char>) -> Seq<Seq<char>> {
    let parts = split_on(s, '\n');
    let ended = Seq::new((parts.len() - 1) as nat, |i: int| without_cr(parts[i]));
    if parts.last().len() == 0 {
        ended
    } else {
        ended.push(parts.last())
    }
}

/// `parts` one after the other with `sep` between neighbours.
pub open spec fn joined(parts: Seq<Seq<char>>, sep: Seq<char>) -> Seq<char>
    decreases parts.len(),
{
    if parts.len() == 0 {
        Seq::empty()
    } else if parts.len() == 1 {
        parts[0]
    } else {
        joined(parts.drop_last(), sep) + sep + parts.last()
    }
}

/// `n` copies of `c`.
pub open spec fn repeated(c: char, n: nat) -> Seq<char> {
    Seq::new(n, |i: int| c)
}

/// The decimal digit of `d`.
pub open spec fn digit(d: nat) -> char {
    ('0' as u32 + d) as char
}

/// `n` in decimal, without leading zeros.
pub open spec fn decimal(n: nat) -> Seq<char>
    decreases n,
{
    if n < 10 {
        seq![digit(n)]
    } else {
        decimal(n / 10).push(digit(n % 10))
    }
}

/// The characters of `s` as a vector.
pub fn chars_of(s: &str) -> (out: Vec<char>)
    ensures
        out@ == s@,
{
    let mut out: Vec<char> = Vec::new();
    for c in it: s.chars()
        invariant
            out@ == it.seq().take(it.index()),
            it.seq() == s@,
    {
        out.push(c);
    }
    out
}

/// The string made of `chars[from..to]`.
pub fn string_of(chars: &Vec<char>, from: usize, to: usize) -> (out: String)
    requires
        from <= to <= chars@.len(),
    ensures
        out@ == chars@.subrange(from as int, to as int),
{
    let mut out = String::new();
    let mut i: usize = from;
    while i < to
        invariant
            from <= i <= to <= chars@.len(),
            out@ == chars@.subrange(from as int, i as int),
        decreases to - i,
    {
        out.push(chars[i]);
        i = i + 1;
    }
    out
}

/// Whether two texts are equal.
pub fn same(a: &str, b: &str) -> (r: bool)
    ensures
        r == (a@ == b@),
{
    a.to_owned() == b.to_owned()
}

/// Whether `v` holds the text `s`.
pub fn holds_text(v: &Vec<String>, s: &str) -> (r: bool)
    ensures
        r == texts(v@).contains(s@),
{
    let mut i: usize = 0;
    while i < v.len()
        invariant
            i <= v@.len(),
            forall|k: int| 0 <= k < i ==> texts(v@)[k] != s@,
        decreases v@.len() - i,
    {
        if same(v[i].as_str(), s) {
            assert(texts(v@)[i as int] == s@);
            return true;
        }
        i = i + 1;
    }
    false
}

/// Copies the strings of `v`.
pub fn copy_texts(v: &[String]) -> (out: Vec<String>)
    ensures
        texts(out@) == texts(v@),
        out@.len() == v@.len(),
{
    let mut out: Vec<String> = Vec::new();
    let mut i: usize = 0;
    while i < v.len()
        invariant
            i <= v@.len(),
            texts(out@) == texts(v@).take(i as int),
            out@.len() == i,
        decreases v@.len() - i,
    {
        out.push(v[i].clone());
        i = i + 1;
        assert(texts(out@) =~= texts(v@).take(i as int));
    }
    assert(texts(out@) =~= texts(v@));
    out
}

/// Whether `prefix` starts `s`.
pub fn starts_with(s: &Vec<char>, prefix: &str) -> (r: bool)
    ensures
        r == prefix@.is_prefix_of(s@),
{
    let p = chars_of(prefix);
    if p.len() > s.len() {
        return false;
    }
    let mut i: usize = 0;
    while i < p.len()
        invariant
            i <= p@.len() <= s@.len(),
            p@ == prefix@,
            forall|k: int| 0 <= k < i ==> p@[k] == s@[k],
        decreases p@.len() - i,
    {
        if p[i] != s[i] {
            assert(prefix@[i as int] != s@.take(p@.len() as int)[i as int]);
            return false;
        }
        i = i + 1;
    }
    assert(p@ =~= s@.subrange(0, p@.len() as int));
    true
}

/// Whether `c` has Unicode's `White_Space` property.
pub fn white(c: char) -> (r: bool)
    ensures
        r == is_white(c),
{
    let n: u32 = c as u32;
    (0x09 <= n && n <= 0x0d) || n == 0x20 || n == 0x85 || n == 0xa0 || n == 0x1680 || (0x2000 <= n
        && n <= 0x200a) || n == 0x2028 || n == 0x2029 || n == 0x202f || n == 0x205f || n == 0x3000
}

proof fn lemma_trim_front(s: Seq<char>, i: int)
    requires
        0 <= i <= s.len(),
        forall|k: int| 0 <= k < i ==> is_white(s[k]),
        i < s.len() ==> !is_white(s[i]),
    ensures
        trim_front(s) == s.skip(i),
    decreases i,
{
    if i > 0 {
        let t = s.skip(1);
        assert forall|k: int| 0 <= k < i - 1 implies is_white(t[k]) by {
            assert(t[k] == s[k + 1]);
        }
        lemma_trim_front(t, i - 1);
        assert(t.skip(i - 1) =~= s.skip(i));
    } else {
        assert(s.skip(0) =~= s);
    }
}

proof fn lemma_trim_back(s: Seq<char>, j: int)
    requires
        0 <= j <= s.len(),
        forall|k: int| j <= k < s.len() ==> is_white(s[k]),
        j > 0 ==> !is_white(s[j - 1]),
    ensures
        trim_back(s) == s.take(j),
    decreases s.len() - j,
{
    if j < s.len() {
        let t = s.drop_last();
        lemma_trim_back(t, j);
        assert(t.take(j) =~= s.take(j));
    } else {
        assert(s.take(j) =~= s);
    }
}

/// `s` without white space at either end.
pub fn trim(s: &str) -> (out: String)
    ensures
        out@ == trimmed(s@),
{
    let c = chars_of(s);
    let mut i: usize = 0;
    while i < c.len() && white(c[i])
        invariant
            i <= c@.len(),
            forall|k: int| 0 <= k < i ==> is_white(c@[k]),
        decreases c@.len() - i,
    {
        i = i + 1;
    }
    let mut j: usize = c.len();
    while j > i && white(c[j - 1])
        invariant
            i <= j <= c@.len(),
            forall|k: int| j <= k < c@.len() ==> is_white(c@[k]),
        decreases j,
    {
        j = j - 1;
    }
    proof {
        lemma_trim_front(s@, i as int);
        let t = s@.skip(i as int);
        assert forall|k: int| j - i <= k < t.len() implies is_white(t[k]) by {
            assert(t[k] == c@[k + i]);
        }
        if j > i {
            assert(t[j - i - 1] == c@[j - 1]);
        }
        lemma_trim_back(t, j - i);
        assert(t.take(j - i) =~= c@.subrange(i as int, j as int));
    }
    string_of(&c, i, j)
}

proof fn lemma_drop_trailing(s: Seq<char>, c: char, j: int)
    requires
        0 <= j <= s.len(),
        forall|k: int| j <= k < s.len() ==> s[k] == c,
        j > 0 ==> s[j - 1] != c,
    ensures
        drop_trailing(s, c) == s.take(j),
    decreases s.len() - j,
{
    if j < s.len() {
        let t = s.drop_last();
        lemma_drop_trailing(t, c, j);
        assert(t.take(j) =~= s.take(j));
    } else {
        assert(s.take(j) =~= s);
    }
}

/// How many characters of `s` are left when the occurrences of `c` at its end
/// are dropped.
pub fn len_without_trailing(s: &Vec<char>, c: char) -> (n: usize)
    ensures
        n <= s@.len(),
        drop_trailing(s@, c) == s@.take(n as int),
        forall|k: int| n <= k < s@.len() ==> s@[k] == c,
        n > 0 ==> s@[n - 1] != c,
{
    let mut j: usize = s.len();
    while j > 0 && s[j - 1] == c
        invariant
            j <= s@.len(),
            forall|k: int| j <= k < s@.len() ==> s@[k] == c,
        decreases j,
    {
        j = j - 1;
    }
    proof {
        lemma_drop_trailing(s@, c, j as int);
    }
    j
}

/// The pieces of `s` between the occurrences of `sep`.
pub fn split(s: &str, sep: char) -> (out: Vec<String>)
    ensures
        texts(out@) == split_on(s@, sep),
        out@.len() > 0,
{
    let mut out: Vec<String> = Vec::new();
    let mut current = String::new();
    let c = chars_of(s);
    let mut i: usize = 0;
    assert(texts(out@).push(current@) =~= split_on(s@.take(0), sep));
    while i < c.len()
        invariant
            i <= c@.len(),
            c@ == s@,
            texts(out@).push(current@) == split_on(s@.take(i as int), sep),
        decreases c@.len() - i,
    {
        let ghost before = texts(out@).push(current@);
        assert(s@.take(i + 1).drop_last() =~= s@.take(i as int));
        if c[i] == sep {
            out.push(current);
            current = String::new();
            assert(texts(out@) =~= before);
        } else {
            current.push(c[i]);
            assert(before.drop_last() =~= texts(out@));
        }
        i = i + 1;
    }
    assert(s@.take(i as int) =~= s@);
    let ghost parts = texts(out@).push(current@);
    out.push(current);
    assert(texts(out@) =~= parts);
    out
}

/// The pieces of `s` between the occurrences of `sep` that are not empty.
pub fn split_non_empty(s: &str, sep: char) -> (out: Vec<String>)
    ensures
        texts(out@) == non_empty(split_on(s@, sep)),
{
    let parts = split(s, sep);
    let mut out: Vec<String> = Vec::new();
    let mut i: usize = 0;
    let ghost all = texts(parts@);
    assert(texts(out@) =~= non_empty(all.take(0)));
    while i < parts.len()
        invariant
            i <= parts@.len(),
            all == texts(parts@),
            texts(out@) == non_empty(all.take(i as int)),
        decreases parts@.len() - i,
    {
        assert(all.take(i + 1).drop_last() =~= all.take(i as int));
        if !parts[i].as_str().is_empty() {
            let ghost before = texts(out@);
            out.push(parts[i].clone());
            assert(texts(out@) =~= before.push(parts@[i as int]@));
        }
        i = i + 1;
    }
    assert(all.take(i as int) =~= all);
    out
}

/// The words of `s`.
pub fn words(s: &str) -> (out: Vec<String>)
    ensures
        texts(out@) == words_of(s@),
{
    let mut out: Vec<String> = Vec::new();
    let mut current = String::new();
    let c = chars_of(s);
    let mut i: usize = 0;
    let ghost mut parts = seq![Seq::<char>::empty()];
    assert(parts.drop_last() =~= Seq::<Seq<char>>::empty());
    assert(s@.take(0) =~= Seq::<char>::empty());
    while i < c.len()
        invariant
            i <= c@.len(),
            c@ == s@,
            parts == split_on_white(s@.take(i as int)),
            parts.len() > 0,
            texts(out@) == non_empty(parts.drop_last()),
            current@ == parts.last(),
        decreases c@.len() - i,
    {
        assert(s@.take(i + 1).drop_last() =~= s@.take(i as int));
        let ghost before = parts;
        if white(c[i]) {
            if !current.as_str().is_empty() {
                let ghost had = texts(out@);
                out.push(current);
                assert(texts(out@) =~= had.push(before.last()));
            }
            current = String::new();
            proof {
                parts = before.push(Seq::<char>::empty());
                assert(parts.drop_last() =~= before);
            }
        } else {
            current.push(c[i]);
            proof {
                parts = before.drop_last().push(before.last().push(c@[i as int]));
                assert(parts.drop_last() =~= before.drop_last());
            }
        }
        i = i + 1;
    }
    assert(s@.take(i as int) =~= s@);
    if !current.as_str().is_empty() {
        let ghost had = texts(out@);
        out.push(current);
        assert(texts(out@) =~= had.push(parts.last()));
    }
    out
}

/// The lines of `s`.
pub fn lines(s: &str) -> (out: Vec<String>)
    ensures
        texts(out@) == lines_of(s@),
{
    let mut parts = split(s, '\n');
    let ghost all = texts(parts@);
    let mut out: Vec<String> = Vec::new();
    let n: usize = parts.len() - 1;
    let mut i: usize = 0;
    while i < n
        invariant
            i <= n,
            n + 1 == parts@.len(),
            all == texts(parts@),
            texts(out@) == Seq::new(i as nat, |k: int| without_cr(all[k])),
        decreases n - i,
    {
        let ghost before = texts(out@);
        let c = chars_of(parts[i].as_str());
        if c.len() > 0 && c[c.len() - 1] == '\r' {
            out.push(string_of(&c, 0, c.len() - 1));
        } else {
            out.push(parts[i].clone());
        }
        assert(texts(out@) =~= before.push(without_cr(all[i as int])));
        i = i + 1;
        assert(texts(out@) =~= Seq::new(i as nat, |k: int| without_cr(all[k])));
    }
    assert(all[n as int] == parts@[n as int]@);
    if !parts[n].as_str().is_empty() {
        let ghost before = texts(out@);
        out.push(parts[n].clone());
        assert(texts(out@) =~= before.push(all[n as int]));
    }
    out
}

/// `parts` one after the other with `sep` between neighbours.
pub fn join(parts: &[String], sep: &str) -> (out: String)
    ensures
        out@ == joined(texts(parts@), sep@),
{
    let mut out = String::new();
    let mut i: usize = 0;
    let ghost all = texts(parts@);
    while i < parts.len()
        invariant
            i <= parts@.len(),
            all == texts(parts@),
            out@ == joined(all.take(i as int), sep@),
        decreases parts@.len() - i,
    {
        if i > 0 {
            out.append(sep);
        }
        out.append(parts[i].as_str());
        assert(all.take(i + 1).drop_last() =~= all.take(i as int));
        i = i + 1;
        if i == 1 {
            assert(out@ =~= parts@[0]@);
        }
    }
    assert(all.take(i as int) =~= all);
    out
}

/// Appends `n` copies of `c` to `out`.
pub fn push_repeated(out: &mut String, c: char, n: usize)
    ensures
        final(out)@ == old(out)@ + repeated(c, n as nat),
{
    let mut i: usize = 0;
    while i < n
        invariant
            i <= n,
            out@ == old(out)@ + repeated(c, i as nat),
        decreases n - i,
    {
        out.push(c);
        i = i + 1;
        assert(out@ =~= old(out)@ + repeated(c, i as nat));
    }
}

fn digit_char(d: u64) -> (c: char)
    requires
        d < 10,
    ensures
        c == digit(d as nat),
{
    match d {
        0 => '0',
        1 => '1',
        2 => '2',
        3 => '3',
        4 => '4',
        5 => '5',
        6 => '6',
        7 => '7',
        8 => '8',
        _ => '9',
    }
}

/// `n` in decimal.
pub fn decimal_text(n: u64) -> (out: String)
    ensures
        out@ == decimal(n as nat),
    decreases n,
{
    let mut out = if n < 10 {
        String::new()
    } else {
        decimal_text(n / 10)
    };
    out.push(digit_char(n % 10));
    out
}

/// `n` in decimal, with a leading `-` when it is negative.
pub open spec fn signed_decimal(n: int) -> Seq<char> {
    if n < 0 {
        seq!['-'] + decimal((-n) as nat)
    } else {
        decimal(n as nat)
    }
}

/// `n` in decimal, with a leading `-` when it is negative.
pub fn signed_text(n: i32) -> (out: String)
    ensures
        out@ == signed_decimal(n as int),
{
    let wide: i64 = n as i64;
    if wide < 0 {
        let mut out = String::new();
        out.push('-');
        assert(out@ =~= seq!['-']);
        let digits = decimal_text((-wide) as u64);
        out.append(digits.as_str());
        out
    } else {
        decimal_text(wide as u64)
    }
}

/// Concatenates two texts.
pub fn cat2(a: &str, b: &str) -> (out: String)
    ensures
        out@ == a@ + b@,
{
    let mut out = a.to_owned();
    out.append(b);
    out
}

/// Concatenates three texts.
pub fn cat3(a: &str, b: &str, c: &str) -> (out: String)
    ensures
        out@ == a@ + b@ + c@,
{
    let mut out = a.to_owned();
    out.append(b);
    out.append(c);
    out
}

/// Appends a line.
pub fn push_line(out: &mut Vec<String>, line: String)
    ensures
        texts(final(out)@) == texts(old(out)@).push(line@),
{
    let ghost before = texts(out@);
    let ghost text = line@;
    out.push(line);
    assert(texts(out@) =~= before.push(text));
}

/// Appends lines.
pub fn push_lines(out: &mut Vec<String>, lines: Vec<String>)
    ensures
        texts(final(out)@) == texts(old(out)@) + texts(lines@),
{
    let ghost before = texts(out@);
    let ghost more = texts(lines@);
    let mut lines = lines;
    out.append(&mut lines);
    assert(texts(out@) =~= before + more);
}

/// Splitting loses nothing: the pieces joined by the separator are the text,
/// and no piece holds the separator.
pub proof fn split_then_join(s: Seq<char>, sep: char)
    ensures
        split_on(s, sep).len() > 0,
        joined(split_on(s, sep), seq![sep]) == s,
        forall|i: int| 0 <= i < split_on(s, sep).len() ==> !(#[trigger] split_on(s, sep)[i]).contains(sep),
    decreases s.len(),
{
    if s.len() > 0 {
        let t = s.drop_last();
        split_then_join(t, sep);
        let before = split_on(t, sep);
        let after = split_on(s, sep);
        if s.last() == sep {
            assert(after.drop_last() =~= before);
            assert(joined(after, seq![sep]) =~= t + seq![sep]);
        } else {
            let piece = before.last().push(s.last());
            assert(after.drop_last() =~= before.drop_last());
            assert(after.last() == piece);
            assert forall|i: int| 0 <= i < after.len() implies !(#[trigger] after[i]).contains(sep) by {
                if i == after.len() - 1 {
                    assert forall|k: int| 0 <= k < piece.len() implies piece[k] != sep by {
                        if k < piece.len() - 1 {
                            assert(before.last().contains(before.last()[k]));
                        }
                    }
                } else {
                    assert(after[i] == before[i]);
                }
            }
            if before.len() == 1 {
                assert(joined(after, seq![sep]) =~= t.push(s.last()));
            } else {
                assert(joined(after, seq![sep]) =~= joined(before, seq![sep]).push(s.last()));
            }
        }
        assert(t.push(s.last()) =~= s);
        assert(t + seq![s.last()] =~= s);
    }
}

/// White space is tab, line feed, vertical tab, form feed, carriage return, space,
/// next line, the no-break space, and the spaces and separators of Unicode.
pub proof fn white_space_is_unicodes(c: char)
    ensures
        is_white(c) <==> (c == '\t' || c == '\n' || c == '\u{b}' || c == '\u{c}' || c == '\r' || c
            == ' ' || c == '\u{85}' || c == '\u{a0}' || c == '\u{1680}' || c == '\u{2000}' || c
            == '\u{2001}' || c == '\u{2002}' || c == '\u{2003}' || c == '\u{2004}' || c
            == '\u{2005}' || c == '\u{2006}' || c == '\u{2007}' || c == '\u{2008}' || c
            == '\u{2009}' || c == '\u{200a}' || c == '\u{2028}' || c == '\u{2029}' || c
            == '\u{202f}' || c == '\u{205f}' || c == '\u{3000}'),
{
}

proof fn lemma_front_end(s: Seq<char>) -> (a: int)
    ensures
        0 <= a <= s.len(),
        trim_front(s) == s.skip(a),
        forall|i: int| 0 <= i < a ==> is_white(#[trigger] s[i]),
        a < s.len() ==> !is_white(s[a]),
    decreases s.len(),
{
    if s.len() > 0 && is_white(s[0]) {
        let b = lemma_front_end(s.skip(1));
        assert(s.skip(1).skip(b) =~= s.skip(b + 1));
        assert forall|i: int| 0 <= i < b + 1 implies is_white(#[trigger] s[i]) by {
            if i > 0 {
                assert(s[i] == s.skip(1)[i - 1]);
            }
        }
        b + 1
    } else {
        assert(s.skip(0) =~= s);
        0
    }
}

proof fn lemma_back_end(s: Seq<char>) -> (b: int)
    ensures
        0 <= b <= s.len(),
        trim_back(s) == s.take(b),
        forall|i: int| b <= i < s.len() ==> is_white(#[trigger] s[i]),
        b > 0 ==> !is_white(s[b - 1]),
    decreases s.len(),
{
    if s.len() > 0 && is_white(s.last()) {
        let b = lemma_back_end(s.drop_last());
        assert(s.drop_last().take(b) =~= s.take(b));
        assert forall|i: int| b <= i < s.len() implies is_white(#[trigger] s[i]) by {
            if i < s.len() - 1 {
                assert(s[i] == s.drop_last()[i]);
            }
        }
        b
    } else {
        assert(s.take(s.len() as int) =~= s);
        s.len() as int
    }
}

/// Trimming takes off the white space at both ends and nothing else: what is left
/// is a stretch of the text that neither starts nor ends with white space, and all
/// that was taken off is white space. A text is trimmed to nothing exactly when it
/// is white space throughout.
pub proof fn trimming_takes_off_white_ends(s: Seq<char>) -> (r: (int, int))
    ensures
        0 <= r.0 <= r.1 <= s.len(),
        trimmed(s) == s.subrange(r.0, r.1),
        forall|i: int| 0 <= i < r.0 ==> is_white(#[trigger] s[i]),
        forall|i: int| r.1 <= i < s.len() ==> is_white(#[trigger] s[i]),
        r.0 < r.1 ==> !is_white(s[r.0]) && !is_white(s[r.1 - 1]),
        trimmed(s).len() == 0 <==> forall|i: int| 0 <= i < s.len() ==> is_white(#[trigger] s[i]),
{
    let a = lemma_front_end(s);
    let rest = s.skip(a);
    let b = lemma_back_end(rest);
    assert(rest.take(b) =~= s.subrange(a, a + b));
    assert forall|i: int| a + b <= i < s.len() implies is_white(#[trigger] s[i]) by {
        assert(s[i] == rest[i - a]);
    }
    if b > 0 {
        assert(s[a + b - 1] == rest[b - 1]);
    }
    (a, a + b)
}

/// Dropping a character at the end drops all of it there and nothing else.
pub proof fn dropping_drops_the_end(s: Seq<char>, c: char)
    ensures
        drop_trailing(s, c).len() <= s.len(),
        drop_trailing(s, c) == s.take(drop_trailing(s, c).len() as int),
        forall|i: int| drop_trailing(s, c).len() <= i < s.len() ==> #[trigger] s[i] == c,
        drop_trailing(s, c).len() > 0 ==> drop_trailing(s, c).last() != c,
    decreases s.len(),
{
    if s.len() > 0 && s.last() == c {
        dropping_drops_the_end(s.drop_last(), c);
        let d = drop_trailing(s, c);
        assert(s.drop_last().take(d.len() as int) =~= s.take(d.len() as int));
        assert forall|i: int| d.len() <= i < s.len() implies #[trigger] s[i] == c by {
            if i < s.len() - 1 {
                assert(s[i] == s.drop_last()[i]);
            }
        }
    } else {
        assert(s.take(s.len() as int) =~= s);
    }
}

/// The pieces that are kept are those with any characters, all of them, in order.
pub proof fn only_empty_pieces_are_left_out(parts: Seq<Seq<char>>)
    ensures
        non_empty(parts) == parts.filter(|p: Seq<char>| p.len() > 0),
    decreases parts.len(),
{
    reveal(Seq::filter);
    if parts.len() > 0 {
        only_empty_pieces_are_left_out(parts.drop_last());
    }
}

proof fn lemma_split_head(a: Seq<char>, b: Seq<char>, sep: char)
    requires
        !a.contains(sep),
    ensures
        split_on(a, sep) == seq![a],
        split_on(a + seq![sep] + b, sep) == seq![a] + split_on(b, sep),
    decreases a.len() + b.len(),
{
    let none = Seq::<char>::empty();
    if a.len() > 0 {
        let c = a.drop_last();
        assert(!c.contains(sep)) by {
            assert forall|k: int| 0 <= k < c.len() implies c[k] != sep by {
                assert(a.contains(a[k]));
            }
        }
        assert(a.contains(a.last()));
        lemma_split_head(c, none, sep);
        assert(seq![c].drop_last().push(c.push(a.last())) =~= seq![a]) by {
            assert(c.push(a.last()) =~= a);
        }
    } else {
        assert(a =~= none);
    }
    let all = a + seq![sep] + b;
    if b.len() == 0 {
        assert(all =~= a.push(sep));
        assert(all.drop_last() =~= a);
        assert(split_on(b, sep) =~= seq![none]);
        assert(seq![a].push(none) =~= seq![a] + split_on(b, sep));
    } else {
        let d = b.drop_last();
        lemma_split_head(a, d, sep);
        split_then_join(d, sep);
        assert(all.drop_last() =~= a + seq![sep] + d);
        let before = seq![a] + split_on(d, sep);
        if b.last() == sep {
            assert(before.push(none) =~= seq![a] + split_on(b, sep));
        } else {
            assert(before.last() == split_on(d, sep).last());
            assert(before.drop_last().push(before.last().push(b.last())) =~= seq![a] + split_on(
                b,
                sep,
            ));
        }
    }
}

/// A piece ends at each separator: what stands before the first one is the first
/// piece, and the rest is split by itself. A text without a separator is one piece.
pub proof fn a_separator_ends_a_piece(piece: Seq<char>, rest: Seq<char>, sep: char)
    requires
        !piece.contains(sep),
    ensures
        split_on(piece, sep) == seq![piece],
        split_on(piece + seq![sep] + rest, sep) == seq![piece] + split_on(rest, sep),
{
    lemma_split_head(piece, rest, sep);
}

/// A line feed ends a line, and the rest is cut into lines by itself; a carriage
/// return right before it is not part of the line. A last line without a line feed
/// is one too, unless it is empty. Nothing has no lines.
pub proof fn a_line_feed_ends_a_line(line: Seq<char>, rest: Seq<char>)
    requires
        !line.contains('\n'),
    ensures
        lines_of(Seq::empty()) == Seq::<Seq<char>>::empty(),
        line.len() > 0 ==> lines_of(line) == seq![line],
        line.len() == 0 || line.last() != '\r' ==> lines_of(line + seq!['\n'] + rest) == seq![line]
            + lines_of(rest),
        lines_of(line + seq!['\r', '\n'] + rest) == seq![line] + lines_of(rest),
{
    let none = Seq::<char>::empty();
    assert(split_on(none, '\n') =~= seq![none]);
    assert(lines_of(none) =~= Seq::<Seq<char>>::empty());
    lemma_split_head(line, rest, '\n');
    assert(seq![line].last() == line);
    if line.len() > 0 {
        assert(lines_of(line) =~= seq![line]);
    }
    let tail = split_on(rest, '\n');
    split_then_join(rest, '\n');
    let all = seq![line] + tail;
    assert(all.last() == tail.last());
    if line.len() == 0 || line.last() != '\r' {
        assert forall|i: int| 0 <= i < tail.len() implies #[trigger] all[i + 1] == tail[i] by {}
        assert(lines_of(line + seq!['\n'] + rest) =~= seq![line] + lines_of(rest));
    }
    let crs = line.push('\r');
    assert(!crs.contains('\n')) by {
        assert forall|k: int| 0 <= k < crs.len() implies crs[k] != '\n' by {
            if k < line.len() {
                assert(line.contains(line[k]));
            }
        }
    }
    lemma_split_head(crs, rest, '\n');
    assert(line + seq!['\r', '\n'] + rest =~= crs + seq!['\n'] + rest);
    assert(crs.drop_last() =~= line);
    let each = seq![crs] + tail;
    assert(each.last() == tail.last());
    assert forall|i: int| 0 <= i < tail.len() implies #[trigger] each[i + 1] == tail[i] by {}
    assert(lines_of(line + seq!['\r', '\n'] + rest) =~= seq![line] + lines_of(rest));
}

/// The number that decimal digits stand for.
pub open spec fn value_of(digits: Seq<char>) -> int
    decreases digits.len(),
{
    if digits.len() == 0 {
        0
    } else {
        value_of(digits.drop_last()) * 10 + (digits.last() as int - 0x30)
    }
}

/// A number in decimal is made of the digits from 0 to 9, stands for the number,
/// and has no leading zero but for zero itself.
pub proof fn decimals_stand_for_their_numbers(n: nat)
    ensures
        decimal(n).len() > 0,
        forall|i: int|
            0 <= i < decimal(n).len() ==> 0x30 <= (#[trigger] decimal(n)[i]) as int <= 0x39,
        value_of(decimal(n)) == n,
        n > 0 ==> decimal(n)[0] != '0',
        n == 0 ==> decimal(n) == seq!['0'],
    decreases n,
{
    let d = decimal(n);
    if n < 10 {
        assert(d.drop_last() =~= Seq::<char>::empty());
        assert(value_of(d.drop_last()) == 0);
        assert(digit(n) as int == 0x30 + n);
        if n == 0 {
            assert(digit(0) == '0');
        }
    } else {
        decimals_stand_for_their_numbers(n / 10);
        assert(d.drop_last() =~= decimal(n / 10));
        assert(digit(n % 10) as int == 0x30 + n % 10);
        assert(d[0] == decimal(n / 10)[0]);
    }
}

/// Joining puts the separator between neighbours and nowhere else: joining one more
/// piece adds the separator and the piece, and one piece stands alone.
pub proof fn joined_pieces_are_kept_apart(
    a: Seq<Seq<char>>,
    b: Seq<Seq<char>>,
    sep: Seq<char>,
)
    requires
        a.len() > 0,
        b.len() > 0,
    ensures
        joined(a + b, sep) == joined(a, sep) + sep + joined(b, sep),
        joined(seq![a[0]], sep) == a[0],
    decreases b.len(),
{
    if b.len() == 1 {
        assert((a + b).drop_last() =~= a);
        assert((a + b).last() == b[0]);
    } else {
        let front = b.drop_last();
        joined_pieces_are_kept_apart(a, front, sep);
        assert((a + b).drop_last() =~= a + front);
        assert((a + b).last() == b.last());
        assert(joined(a + b, sep) =~= joined(a, sep) + sep + joined(b, sep));
    }
}

proof fn lemma_split_white_head(a: Seq<char>, c: char, b: Seq<char>)
    requires
        forall|i: int| 0 <= i < a.len() ==> !is_white(#[trigger] a[i]),
        is_white(c),
    ensures
        split_on_white(a) == seq![a],
        split_on_white(b).len() > 0,
        split_on_white(a + seq![c] + b) == seq![a] + split_on_white(b),
    decreases a.len() + b.len(),
{
    let none = Seq::<char>::empty();
    if a.len() > 0 {
        let d = a.drop_last();
        assert(!is_white(a[a.len() - 1]));
        assert forall|i: int| 0 <= i < d.len() implies !is_white(#[trigger] d[i]) by {
            assert(d[i] == a[i]);
        }
        lemma_split_white_head(d, c, none);
        assert(seq![d].drop_last().push(d.push(a.last())) =~= seq![a]) by {
            assert(d.push(a.last()) =~= a);
        }
    } else {
        assert(a =~= none);
    }
    let all = a + seq![c] + b;
    if b.len() == 0 {
        assert(all =~= a.push(c));
        assert(all.drop_last() =~= a);
        assert(split_on_white(b) =~= seq![none]);
        assert(seq![a].push(none) =~= seq![a] + split_on_white(b));
    } else {
        let d = b.drop_last();
        lemma_split_white_head(a, c, d);
        assert(all.drop_last() =~= a + seq![c] + d);
        let before = seq![a] + split_on_white(d);
        if is_white(b.last()) {
            assert(before.push(none) =~= seq![a] + split_on_white(b));
        } else {
            assert(before.last() == split_on_white(d).last());
            assert(before.drop_last().push(before.last().push(b.last())) =~= seq![a]
                + split_on_white(b));
        }
    }
}

/// White space ends a word, and the rest is cut into words by itself; white space that
/// ends no word is passed over. A text without white space is one word.
pub proof fn white_space_ends_a_word(word: Seq<char>, c: char, rest: Seq<char>)
    requires
        forall|i: int| 0 <= i < word.len() ==> !is_white(#[trigger] word[i]),
        is_white(c),
    ensures
        words_of(Seq::empty()) == Seq::<Seq<char>>::empty(),
        word.len() > 0 ==> words_of(word) == seq![word],
        word.len() > 0 ==> words_of(word + seq![c] + rest) == seq![word] + words_of(rest),
        words_of(seq![c] + rest) == words_of(rest),
{
    let none = Seq::<char>::empty();
    let keep = |p: Seq<char>| p.len() > 0;
    lemma_split_white_head(word, c, rest);
    lemma_split_white_head(none, c, rest);
    assert(none + seq![c] + rest =~= seq![c] + rest);
    let tail = split_on_white(rest);
    only_empty_pieces_are_left_out(tail);
    only_empty_pieces_are_left_out(seq![none]);
    only_empty_pieces_are_left_out(seq![word]);
    only_empty_pieces_are_left_out(seq![none] + tail);
    only_empty_pieces_are_left_out(seq![word] + tail);
    assert(split_on_white(none) =~= seq![none]);
    assert(seq![none].filter(keep) =~= Seq::<Seq<char>>::empty()) by {
        reveal(Seq::filter);
        let front = seq![none].drop_last();
        assert(front =~= Seq::<Seq<char>>::empty());
        assert(front.filter(keep) =~= Seq::<Seq<char>>::empty());
        assert(!keep(seq![none].last()));
    }
    Seq::<Seq<char>>::filter_distributes_over_add(seq![none], tail, keep);
    Seq::<Seq<char>>::filter_distributes_over_add(seq![word], tail, keep);
    if word.len() > 0 {
        assert(seq![word].filter(keep) =~= seq![word]) by {
            reveal(Seq::filter);
            let front = seq![word].drop_last();
            assert(front =~= Seq::<Seq<char>>::empty());
            assert(front.filter(keep) =~= Seq::<Seq<char>>::empty());
            assert(keep(seq![word].last()));
        }
    }
    assert(Seq::<Seq<char>>::empty() + words_of(rest) =~= words_of(rest));
}

/// A number below zero has a minus before its digits.
pub proof fn signs_stand_before_the_digits(n: int)
    ensures
        n >= 0 ==> value_of(signed_decimal(n)) == n,
        n < 0 ==> signed_decimal(n).len() > 1 && signed_decimal(n)[0] == '-' && value_of(
            signed_decimal(n).skip(1),
        ) == -n,
{
    if n >= 0 {
        decimals_stand_for_their_numbers(n as nat);
    } else {
        decimals_stand_for_their_numbers((-n) as nat);
        assert(signed_decimal(n).skip(1) =~= decimal((-n) as nat));
    }
}

} // verus!
