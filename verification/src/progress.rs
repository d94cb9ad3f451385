//! The live progress display.
//!
//! While roots are walked, a panel shows the current path, an activity bar,
//! counts and the projects found last; the other phases show one counted line.
//! Either is drawn over the one before it, so the screen does not scroll. On a
//! terminal too narrow for the panel a single line takes its place.
//!
//! A writer that is not active draws nothing. What an active one draws is text
//! that ends up in `writer`; the caller passes it on to the terminal.

use vstd::prelude::*;

use crate::columns::{take_left, take_right, width};
use crate::output::{stdout_terminal_ui_enabled, Terminal};
use crate::paths::file_name;
use crate::text::{cat2, cat3, chars_of, decimal_text, push_line, push_repeated, string_of};

verus! {

/// The value of a digit.
pub open spec fn digit_value(c: char) -> Option<nat> {
    if '0' <= c && c <= '9' {
        Some((c as int - '0' as int) as nat)
    } else {
        None
    }
}

/// The number that digits spell; `None` for anything else, and for no digits.
pub open spec fn number_of(s: Seq<char>) -> Option<nat>
    decreases s.len(),
{
    if s.len() == 0 {
        None
    } else {
        match digit_value(s.last()) {
            None => None,
            Some(d) => if s.len() == 1 {
                Some(d)
            } else {
                match number_of(s.drop_last()) {
                    None => None,
                    Some(n) => Some(n * 10 + d),
                }
            },
        }
    }
}

/// The number that a text spells, with an optional `+` before the digits, if
/// it fits a `usize`.
pub open spec fn parsed_usize(s: Seq<char>) -> Option<nat> {
    let digits = if s.len() > 0 && s[0] == '+' {
        s.skip(1)
    } else {
        s
    };
    match number_of(digits) {
        Some(n) => if n <= usize::MAX {
            Some(n)
        } else {
            None
        },
        None => None,
    }
}

/// The terminal's width: its size where that is known, else the number in
/// `COLUMNS`, else 80.
pub open spec fn width_rule(size: Option<u16>, columns: Option<Seq<char>>) -> nat {
    match size {
        Some(w) => w as nat,
        None => match columns {
            Some(s) => match parsed_usize(s) {
                Some(n) => n,
                None => 80,
            },
            None => 80,
        },
    }
}

proof fn lemma_number_of_rejects(s: Seq<char>, n: int)
    requires
        0 < n <= s.len(),
        number_of(s.take(n)) is None,
    ensures
        number_of(s) is None,
    decreases s.len(),
{
    if n < s.len() {
        assert(s.drop_last().take(n) =~= s.take(n));
        lemma_number_of_rejects(s.drop_last(), n);
    } else {
        assert(s.take(n) =~= s);
    }
}

proof fn lemma_number_of_grows(s: Seq<char>, n: int)
    requires
        0 < n <= s.len(),
        number_of(s) is Some,
    ensures
        number_of(s.take(n)) is Some,
        number_of(s.take(n))->0 <= number_of(s)->0,
    decreases s.len(),
{
    if n < s.len() {
        assert(s.drop_last().take(n) =~= s.take(n));
        lemma_number_of_grows(s.drop_last(), n);
    } else {
        assert(s.take(n) =~= s);
    }
}

/// The number that a text spells, if it fits a `usize`.
fn parse_usize(s: &str) -> (r: Option<usize>)
    ensures
        match r {
            Some(n) => parsed_usize(s@) == Some(n as nat),
            None => parsed_usize(s@) is None,
        },
{
    let all = chars_of(s);
    let from: usize = if all.len() > 0 && all[0] == '+' {
        1
    } else {
        0
    };
    let ghost digits = if s@.len() > 0 && s@[0] == '+' {
        s@.skip(1)
    } else {
        s@
    };
    assert(digits =~= s@.skip(from as int));
    let mut n: usize = 0;
    let mut i: usize = from;
    while i < all.len()
        invariant
            from <= i <= all@.len(),
            all@ == s@,
            digits == s@.skip(from as int),
            digits == (if s@.len() > 0 && s@[0] == '+' {
                s@.skip(1)
            } else {
                s@
            }),
            i > from ==> number_of(digits.take(i - from)) == Some(n as nat),
            i == from ==> n == 0,
        decreases all@.len() - i,
    {
        let c = all[i];
        let ghost upto = digits.take(i - from + 1);
        assert(upto.last() == c);
        assert(upto.drop_last() =~= digits.take(i - from));
        let d: usize = match c {
            '0' => 0,
            '1' => 1,
            '2' => 2,
            '3' => 3,
            '4' => 4,
            '5' => 5,
            '6' => 6,
            '7' => 7,
            '8' => 8,
            '9' => 9,
            _ => {
                proof {
                    assert(digit_value(c) is None);
                    lemma_number_of_rejects(digits, i - from + 1);
                }
                return None;
            },
        };
        assert(digit_value(c) == Some(d as nat));
        let wide: u128 = n as u128 * 10 + d as u128;
        assert(number_of(upto) == Some(wide as nat));
        if wide > usize::MAX as u128 {
            proof {
                if number_of(digits) is Some {
                    lemma_number_of_grows(digits, i - from + 1);
                }
            }
            return None;
        }
        n = wide as usize;
        i = i + 1;
    }
    assert(digits.take(i - from) =~= digits);
    if i == from {
        None
    } else {
        Some(n)
    }
}

/// The terminal's width: `size` where the terminal tells it, else the number in
/// `columns` (the value of `COLUMNS`), else 80.
pub fn terminal_width(size: Option<u16>, columns: Option<&str>) -> (w: usize)
    ensures
        w == width_rule(
            size,
            match columns {
                Some(s) => Some(s@),
                None => None,
            },
        ),
{
    if let Some(w) = size {
        return w as usize;
    }
    match columns {
        Some(s) => match parse_usize(s) {
            Some(n) => n,
            None => 80,
        },
        None => 80,
    }
}

/// How many of the projects found last the panel lists.
pub const DISCOVERY_RECENT_LIMIT: usize = 6;

/// The narrowest terminal that gets the panel.
pub const DISCOVERY_PANEL_MIN_WIDTH: usize = 32;

/// A project found while walking: where it is and what marked it.
#[derive(Debug, Clone, Copy)]
pub struct DiscoveryProgressProject<'a> {
    pub path: &'a str,
    pub marker: &'a str,
}

/// What is known while roots are walked.
#[derive(Debug, Clone, Copy)]
pub struct DiscoveryProgress<'a> {
    pub current_path: &'a str,
    pub dirs_scanned: usize,
    pub projects_found: usize,
    pub indexed_bytes: u64,
    pub recent_projects: &'a [DiscoveryProgressProject<'a>],
}

/// A path shown in at most `w` columns: whole where it fits, else its end after
/// an ellipsis.
pub open spec fn shown_path(path: Seq<char>, w: nat) -> Seq<char> {
    if w == 0 {
        Seq::empty()
    } else if crate::columns::columns(path) > w {
        "…"@ + crate::columns::right_part(path, crate::layout::less(w, 1))
    } else {
        path
    }
}

/// A label and as much of a path as fits behind it.
pub open spec fn labelled(label: Seq<char>, path: Seq<char>, w: nat) -> Seq<char> {
    let kept = crate::columns::left_part(label, w);
    kept + shown_path(path, crate::layout::less(w, crate::columns::columns(kept)))
}

/// A progress line: a label and a path, filled up with spaces to `w` columns.
pub open spec fn progress_line(label: Seq<char>, path: Seq<char>, w: nat) -> Seq<char> {
    labelled(label, path, w) + crate::layout::filler(labelled(label, path, w), w)
}

/// A label and a path on one line of `width` columns. The label is cut off at
/// the right where it does not fit; the path keeps its end, after an ellipsis.
pub fn render_line(label: &str, path: &str, w: usize) -> (out: String)
    ensures
        out@ == progress_line(label@, path@, w as nat),
{
    let mut line = take_left(label, w);
    let taken: usize = width(line.as_str());
    let room: usize = if w > taken {
        w - taken
    } else {
        0
    };
    if room == 0 {
        assert(line@ =~= labelled(label@, path@, w as nat));
    } else if width(path) > room {
        let tail = take_right(path, room - 1);
        let cut = cat2("…", tail.as_str());
        line.append(cut.as_str());
    } else {
        line.append(path);
    }
    let used: usize = width(line.as_str());
    if w > used {
        push_repeated(&mut line, ' ', w - used);
    } else {
        assert(line@ =~= line@ + crate::layout::filler(line@, w as nat));
    }
    line
}

/// Digits in groups of three, set apart by commas.
pub open spec fn grouped(digits: Seq<char>) -> Seq<char>
    decreases digits.len(),
{
    if digits.len() <= 3 {
        digits
    } else {
        grouped(digits.take(digits.len() - 3)) + ","@ + digits.skip(digits.len() - 3)
    }
}

fn group(digits: &Vec<char>, n: usize) -> (out: String)
    requires
        n <= digits@.len(),
    ensures
        out@ == grouped(digits@.take(n as int)),
    decreases n,
{
    let ghost all = digits@.take(n as int);
    if n <= 3 {
        let out = string_of(digits, 0, n);
        assert(digits@.subrange(0, n as int) =~= all);
        out
    } else {
        let front = group(digits, n - 3);
        let back = string_of(digits, n - 3, n);
        assert(all.take(all.len() - 3) =~= digits@.take(n - 3));
        assert(all.skip(all.len() - 3) =~= digits@.subrange(n - 3, n as int));
        cat3(front.as_str(), ",", back.as_str())
    }
}

/// A count, its digits in groups of three.
pub fn format_count(count: usize) -> (out: String)
    ensures
        out@ == grouped(crate::text::decimal(count as nat)),
{
    let text = decimal_text(count as u64);
    let digits = chars_of(text.as_str());
    let out = group(&digits, digits.len());
    assert(digits@.take(digits@.len() as int) =~= digits@);
    out
}

/// A project's name, or its whole path where it has none.
pub open spec fn project_label(path: Seq<char>) -> Seq<char> {
    match crate::paths::name_of(path) {
        Some(name) => name,
        None => path,
    }
}

/// A project's name, or its whole path where it has none.
pub fn discovery_project_label(path: &str) -> (out: String)
    ensures
        out@ == project_label(path@),
{
    match file_name(path) {
        Some(name) => name,
        None => path.to_owned(),
    }
}

/// The stages of the activity bar.
pub open spec fn bar_fill(stage: nat) -> Seq<char> {
    if stage == 0 {
        "=>"@
    } else if stage == 1 {
        "==>"@
    } else if stage == 2 {
        "===>"@
    } else if stage == 3 {
        "====>"@
    } else if stage == 4 {
        "=====>"@
    } else {
        "======>"@
    }
}

/// The stage that a spinner frame stands for.
pub open spec fn bar_stage(spinner: Seq<char>) -> nat {
    if spinner.len() == 0 {
        0
    } else {
        (spinner[0] as nat) % 6
    }
}

/// How wide the bar is inside its brackets; nothing where it has no room.
pub open spec fn bar_room(w: nat, spinner: Seq<char>) -> Option<nat> {
    let room = crate::layout::less(
        w,
        crate::columns::columns(spinner) + crate::columns::columns(" scanning "@),
    );
    if room < 3 {
        None
    } else if room - 2 < 24 {
        Some((room - 2) as nat)
    } else {
        Some(24)
    }
}

/// The bar that moves with the spinner.
pub open spec fn bar(w: nat, spinner: Seq<char>) -> Seq<char> {
    match bar_room(w, spinner) {
        None => Seq::empty(),
        Some(room) => {
            let fill = bar_fill(bar_stage(spinner));
            if crate::columns::columns(fill) >= room {
                "["@ + crate::columns::left_part(fill, room) + "]"@
            } else {
                "["@ + fill + crate::text::repeated(
                    ' ',
                    (room - crate::columns::columns(fill)) as nat,
                ) + "]"@
            }
        },
    }
}

fn stage_of(c: char) -> (stage: u32)
    ensures
        stage == (c as nat) % 6,
{
    (c as u32) % 6
}

/// The bar that moves with the spinner, in what is left of `w` columns behind
/// the spinner and its label.
pub fn activity_bar(w: usize, spinner: &str) -> (out: String)
    ensures
        out@ == bar(w as nat, spinner@),
{
    let first: usize = width(spinner);
    let second: usize = width(" scanning ");
    let after: usize = if w > first {
        w - first
    } else {
        0
    };
    let room: usize = if after > second {
        after - second
    } else {
        0
    };
    if room < 3 {
        return String::new();
    }
    let inner: usize = if room - 2 < 24 {
        room - 2
    } else {
        24
    };
    let chars = chars_of(spinner);
    let stage: u32 = if chars.len() == 0 {
        0
    } else {
        stage_of(chars[0])
    };
    let fill = match stage {
        0 => "=>",
        1 => "==>",
        2 => "===>",
        3 => "====>",
        4 => "=====>",
        _ => "======>",
    };
    let wide: usize = width(fill);
    if wide >= inner {
        let cut = take_left(fill, inner);
        cat3("[", cut.as_str(), "]")
    } else {
        let mut out = cat2("[", fill);
        push_repeated(&mut out, ' ', inner - wide);
        out.append("]");
        out
    }
}

/// The line of counts.
pub open spec fn counts_line(dirs: nat, projects: nat, bytes: nat) -> Seq<char> {
    grouped(crate::text::decimal(dirs)) + " dirs scanned · "@ + grouped(
        crate::text::decimal(projects),
    ) + " projects found · "@ + crate::disk::size_text(bytes, 1) + " indexed"@
}

/// The line of a project that was found.
pub open spec fn found_line(path: Seq<char>, marker: Seq<char>) -> Seq<char> {
    "✓ "@ + project_label(path) + " ("@ + marker + ")"@
}

/// The lines of the projects from `from` on, cut to `w` columns.
pub open spec fn found_lines(
    projects: Seq<DiscoveryProgressProject>,
    from: int,
    w: nat,
) -> Seq<Seq<char>> {
    Seq::new(
        (projects.len() - from) as nat,
        |i: int|
            crate::columns::left_part(
                found_line(projects[from + i].path@, projects[from + i].marker@),
                w,
            ),
    )
}

/// The first of the projects that the panel lists.
pub open spec fn first_listed(count: nat) -> int {
    if count > DISCOVERY_RECENT_LIMIT {
        count - DISCOVERY_RECENT_LIMIT
    } else {
        0
    }
}

/// The panel's last line.
pub open spec fn stop_hint() -> Seq<char> {
    "press ctrl-c to stop · results appear as folders finish indexing"@
}

/// The panel shown while roots are walked.
pub open spec fn panel(state: DiscoveryProgress, spinner: Seq<char>, w: nat) -> Seq<Seq<char>> {
    seq![
        crate::columns::left_part(spinner + " scanning "@ + bar(w, spinner), w),
        progress_line("walking "@, state.current_path@, w),
        crate::columns::left_part(
            counts_line(
                state.dirs_scanned as nat,
                state.projects_found as nat,
                state.indexed_bytes as nat,
            ),
            w,
        ),
        crate::columns::left_part("Discovered so far"@, w),
    ] + found_lines(
        state.recent_projects@,
        first_listed(state.recent_projects@.len()),
        w,
    ) + seq![crate::columns::left_part(stop_hint(), w)]
}

/// The panel shown while roots are walked: what moves, where the walk is, the
/// counts, and the projects found last.
pub fn render_discovery_panel(state: &DiscoveryProgress, spinner: &str, w: usize) -> (out: Vec<
    String,
>)
    ensures
        crate::text::texts(out@) == panel(*state, spinner@, w as nat),
{
    let mut out: Vec<String> = Vec::new();
    let moving = activity_bar(w, spinner);
    let head = cat3(spinner, " scanning ", moving.as_str());
    push_line(&mut out, take_left(head.as_str(), w));
    push_line(&mut out, render_line("walking ", state.current_path, w));
    let dirs = format_count(state.dirs_scanned);
    let found = format_count(state.projects_found);
    let size = crate::disk::format_size_short(state.indexed_bytes);
    let mut counts = cat3(dirs.as_str(), " dirs scanned · ", found.as_str());
    counts.append(" projects found · ");
    counts.append(size.as_str());
    counts.append(" indexed");
    push_line(&mut out, take_left(counts.as_str(), w));
    push_line(&mut out, take_left("Discovered so far", w));
    let ghost top = crate::text::texts(out@);
    let count: usize = state.recent_projects.len();
    let from: usize = if count > DISCOVERY_RECENT_LIMIT {
        count - DISCOVERY_RECENT_LIMIT
    } else {
        0
    };
    let ghost listed = found_lines(state.recent_projects@, from as int, w as nat);
    let mut i: usize = from;
    assert(crate::text::texts(out@) =~= top + listed.take(0));
    while i < count
        invariant
            from <= i <= count,
            count == state.recent_projects@.len(),
            listed == found_lines(state.recent_projects@, from as int, w as nat),
            crate::text::texts(out@) == top + listed.take(i - from),
        decreases count - i,
    {
        let label = discovery_project_label(state.recent_projects[i].path);
        let mut line = cat3("✓ ", label.as_str(), " (");
        line.append(state.recent_projects[i].marker);
        line.append(")");
        push_line(&mut out, take_left(line.as_str(), w));
        assert(listed.take(i - from + 1) =~= listed.take(i - from).push(listed[i - from]));
        i = i + 1;
    }
    assert(listed.take(i - from) =~= listed);
    push_line(
        &mut out,
        take_left("press ctrl-c to stop · results appear as folders finish indexing", w),
    );
    assert(crate::text::texts(out@) =~= panel(*state, spinner@, w as nat));
    out
}

/// The frames of the spinner.
pub open spec fn frame(tick: nat) -> Seq<char> {
    let n = tick % 10;
    if n == 0 {
        "⠋"@
    } else if n == 1 {
        "⠙"@
    } else if n == 2 {
        "⠹"@
    } else if n == 3 {
        "⠸"@
    } else if n == 4 {
        "⠼"@
    } else if n == 5 {
        "⠴"@
    } else if n == 6 {
        "⠦"@
    } else if n == 7 {
        "⠧"@
    } else if n == 8 {
        "⠇"@
    } else {
        "⠏"@
    }
}

/// The tick after this one.
pub open spec fn next_tick(tick: usize) -> usize {
    if tick == usize::MAX {
        0
    } else {
        (tick + 1) as usize
    }
}

/// What rubs out `rows` rows, from the last one up.
pub open spec fn rub_out(rows: nat) -> Seq<char>
    decreases rows,
{
    if rows == 0 {
        Seq::empty()
    } else if rows == 1 {
        "\r\x1b[2K"@
    } else {
        rub_out((rows - 1) as nat) + "\x1b[1A"@ + "\r\x1b[2K"@
    }
}

/// What takes `rows` live rows off the screen and leaves the cursor at the
/// start of the first.
pub open spec fn clearing(rows: nat, w: nat) -> Seq<char> {
    if rows <= 1 {
        "\r"@ + crate::text::repeated(' ', w) + "\r"@
    } else {
        rub_out(rows)
    }
}

/// What comes before new lines: the old ones are taken off the screen, if there
/// are any.
pub open spec fn rewind(rows: nat, w: nat) -> Seq<char> {
    if rows > 0 {
        clearing(rows, w)
    } else {
        "\r"@
    }
}

/// What draws `lines` over `rows` live rows.
pub open spec fn drawing(rows: nat, lines: Seq<Seq<char>>, w: nat) -> Seq<char> {
    rewind(rows, w) + crate::text::joined(lines, "\n"@)
}

/// The label of the single line shown while roots are walked.
pub open spec fn walking_label(tick: nat) -> Seq<char> {
    frame(tick) + " walking: "@
}

/// The label of a counted phase.
pub open spec fn phase_label(tick: nat, phase: Seq<char>, idx: nat, total: nat) -> Seq<char> {
    frame(tick) + " "@ + phase + " "@ + crate::text::decimal(idx) + "/"@ + crate::text::decimal(
        total,
    ) + ": "@
}

/// Draws live progress. Every drawing replaces the one before it.
pub struct ProgressWriter {
    /// What has been drawn.
    pub writer: String,
    /// The terminal's width.
    pub width: usize,
    /// Whether anything is drawn at all.
    pub active: bool,
    /// How often the spinner has moved.
    pub tick: usize,
    /// How many rows are on the screen now.
    pub live_rows: usize,
}

impl ProgressWriter {
    /// A writer for a terminal: active if the terminal can show live output.
    pub fn new(terminal: &Terminal, w: usize) -> (pw: Self)
        ensures
            pw.writer@ == Seq::<char>::empty(),
            pw.width == w,
            pw.active == crate::output::stdout_is_rich(*terminal),
            pw.tick == 0,
            pw.live_rows == 0,
    {
        ProgressWriter {
            writer: String::new(),
            width: w,
            active: stdout_terminal_ui_enabled(terminal),
            tick: 0,
            live_rows: 0,
        }
    }

    /// Draws the path that is being walked.
    pub fn update(&mut self, path: &str)
        ensures
            final(self).width == old(self).width,
            final(self).active == old(self).active,
            !old(self).active ==> *final(self) == *old(self),
            old(self).active ==> {
                &&& final(self).tick == next_tick(old(self).tick)
                &&& final(self).live_rows == 1
                &&& final(self).writer@ == old(self).writer@ + drawing(
                    old(self).live_rows as nat,
                    seq![
                        progress_line(
                            walking_label(old(self).tick as nat),
                            path@,
                            old(self).width as nat,
                        ),
                    ],
                    old(self).width as nat,
                )
            },
    {
        if !self.active {
            return ;
        }
        let label = cat2(spinner(self.tick), " walking: ");
        self.tick = advance(self.tick);
        let line = render_line(label.as_str(), path, self.width);
        let mut lines: Vec<String> = Vec::new();
        push_line(&mut lines, line);
        self.write_live_lines(&lines);
    }

    /// Draws the panel of a walk, or the single line where the terminal is too
    /// narrow for it.
    pub fn update_discovery(&mut self, state: &DiscoveryProgress)
        ensures
            final(self).width == old(self).width,
            final(self).active == old(self).active,
            !old(self).active ==> *final(self) == *old(self),
            old(self).active ==> {
                let lines = if old(self).width < DISCOVERY_PANEL_MIN_WIDTH {
                    seq![
                        progress_line(
                            walking_label(old(self).tick as nat),
                            state.current_path@,
                            old(self).width as nat,
                        ),
                    ]
                } else {
                    panel(*state, frame(old(self).tick as nat), old(self).width as nat)
                };
                &&& final(self).tick == next_tick(old(self).tick)
                &&& final(self).live_rows == lines.len()
                &&& final(self).writer@ == old(self).writer@ + drawing(
                    old(self).live_rows as nat,
                    lines,
                    old(self).width as nat,
                )
            },
    {
        if !self.active {
            return ;
        }
        if self.width < DISCOVERY_PANEL_MIN_WIDTH {
            self.update(state.current_path);
            return ;
        }
        let shown = spinner(self.tick);
        self.tick = advance(self.tick);
        let lines = render_discovery_panel(state, shown, self.width);
        self.write_live_lines(&lines);
    }

    /// Draws a counted phase: item `idx` of `total`, counted from one.
    pub fn update_phase(&mut self, phase: &str, idx: usize, total: usize, path: &str)
        ensures
            final(self).width == old(self).width,
            final(self).active == old(self).active,
            !old(self).active ==> *final(self) == *old(self),
            old(self).active ==> {
                &&& final(self).tick == next_tick(old(self).tick)
                &&& final(self).live_rows == 1
                &&& final(self).writer@ == old(self).writer@ + drawing(
                    old(self).live_rows as nat,
                    seq![
                        progress_line(
                            phase_label(old(self).tick as nat, phase@, idx as nat, total as nat),
                            path@,
                            old(self).width as nat,
                        ),
                    ],
                    old(self).width as nat,
                )
            },
    {
        if !self.active {
            return ;
        }
        let mut label = cat3(spinner(self.tick), " ", phase);
        label.append(" ");
        let n = decimal_text(idx as u64);
        label.append(n.as_str());
        label.append("/");
        let m = decimal_text(total as u64);
        label.append(m.as_str());
        label.append(": ");
        self.tick = advance(self.tick);
        let line = render_line(label.as_str(), path, self.width);
        let mut lines: Vec<String> = Vec::new();
        push_line(&mut lines, line);
        self.write_live_lines(&lines);
    }

    /// Takes the live rows off the screen, so that other output can follow.
    pub fn clear(&mut self)
        ensures
            final(self).width == old(self).width,
            final(self).active == old(self).active,
            final(self).tick == old(self).tick,
            !old(self).active ==> *final(self) == *old(self),
            old(self).active ==> {
                &&& final(self).live_rows == 0
                &&& final(self).writer@ == old(self).writer@ + clearing(
                    old(self).live_rows as nat,
                    old(self).width as nat,
                )
            },
    {
        if !self.active {
            return ;
        }
        let text = clear_text(self.live_rows, self.width);
        self.writer.append(text.as_str());
        self.live_rows = 0;
    }

    /// Takes the live rows off the screen and starts a fresh line.
    pub fn finish(&mut self)
        ensures
            final(self).width == old(self).width,
            final(self).active == old(self).active,
            final(self).tick == old(self).tick,
            !old(self).active ==> *final(self) == *old(self),
            old(self).active ==> {
                &&& final(self).live_rows == 0
                &&& final(self).writer@ == old(self).writer@ + clearing(
                    old(self).live_rows as nat,
                    old(self).width as nat,
                ) + "\n"@
            },
    {
        if !self.active {
            return ;
        }
        self.clear();
        self.writer.append("\n");
    }

    fn write_live_lines(&mut self, lines: &Vec<String>)
        requires
            old(self).active,
        ensures
            final(self).width == old(self).width,
            final(self).active == old(self).active,
            final(self).tick == old(self).tick,
            final(self).live_rows == lines@.len(),
            final(self).writer@ == old(self).writer@ + drawing(
                old(self).live_rows as nat,
                crate::text::texts(lines@),
                old(self).width as nat,
            ),
    {
        let ghost before = self.writer@;
        let ghost rows = self.live_rows as nat;
        let ghost w = self.width as nat;
        if self.live_rows > 0 {
            self.clear();
        } else {
            self.writer.append("\r");
        }
        let body = crate::text::join(lines.as_slice(), "\n");
        self.writer.append(body.as_str());
        self.live_rows = lines.len();
        assert(self.writer@ =~= before + drawing(rows, crate::text::texts(lines@), w));
    }
}

fn advance(tick: usize) -> (r: usize)
    ensures
        r == next_tick(tick),
{
    if tick == usize::MAX {
        0
    } else {
        tick + 1
    }
}

fn spinner(tick: usize) -> (r: &'static str)
    ensures
        r@ == frame(tick as nat),
{
    match tick % 10 {
        0 => "⠋",
        1 => "⠙",
        2 => "⠹",
        3 => "⠸",
        4 => "⠼",
        5 => "⠴",
        6 => "⠦",
        7 => "⠧",
        8 => "⠇",
        _ => "⠏",
    }
}

fn clear_text(rows: usize, w: usize) -> (out: String)
    ensures
        out@ == clearing(rows as nat, w as nat),
{
    if rows <= 1 {
        let mut out = "\r".to_owned();
        push_repeated(&mut out, ' ', w);
        out.append("\r");
        out
    } else {
        let mut out = "\r\x1b[2K".to_owned();
        let mut i: usize = 1;
        while i < rows
            invariant
                1 <= i <= rows,
                out@ == rub_out(i as nat),
            decreases rows - i,
        {
            out.append("\x1b[1A");
            out.append("\r\x1b[2K");
            i = i + 1;
        }
        out
    }
}

/// A text spells a number exactly if it is made of digits, of which there is one at least;
/// the number is the one that the digits stand for.
pub proof fn digits_spell_their_number(s: Seq<char>)
    ensures
        number_of(s) is Some <==> s.len() > 0 && forall|i: int|
            0 <= i < s.len() ==> 0x30 <= (#[trigger] s[i]) as int <= 0x39,
        number_of(s) is Some ==> number_of(s)->0 == crate::text::value_of(s),
    decreases s.len(),
{
    if s.len() > 0 {
        let front = s.drop_last();
        digits_spell_their_number(front);
        assert(s[s.len() - 1] == s.last());
        assert(forall|i: int| 0 <= i < front.len() ==> front[i] == s[i]);
        if s.len() == 1 {
            assert(front =~= Seq::<char>::empty());
            assert(crate::text::value_of(front) == 0);
        } else if number_of(s) is Some {
            assert forall|i: int| 0 <= i < s.len() implies 0x30 <= (#[trigger] s[i]) as int
                <= 0x39 by {
                if i < front.len() {
                    assert(front[i] == s[i]);
                }
            }
        } else if digit_value(s.last()) is Some {
            assert(number_of(front) is None);
            let i = choose|i: int|
                0 <= i < front.len() && !(0x30 <= (#[trigger] front[i]) as int <= 0x39);
            assert(!(0x30 <= s[i] as int <= 0x39));
        }
    }
}

/// The width is the terminal's, where that is known; else the number in `COLUMNS`, which
/// may have a `+` before it; else 80.
pub proof fn the_width_is_the_terminals_first(size: u16, digits: Seq<char>)
    requires
        digits.len() > 0,
        forall|i: int| 0 <= i < digits.len() ==> 0x30 <= (#[trigger] digits[i]) as int <= 0x39,
    ensures
        width_rule(Some(size), Some(digits)) == size,
        width_rule(Some(size), None) == size,
        crate::text::value_of(digits) <= usize::MAX ==> width_rule(None, Some(digits))
            == crate::text::value_of(digits) && width_rule(None, Some(seq!['+'] + digits))
            == crate::text::value_of(digits),
        crate::text::value_of(digits) > usize::MAX ==> width_rule(None, Some(digits)) == 80,
        width_rule(None, None) == 80,
{
    digits_spell_their_number(digits);
    assert(0x30 <= digits[0] as int);
    assert((seq!['+'] + digits).skip(1) =~= digits);
}

/// Grouping sets a comma before every third digit from the end, and changes nothing else:
/// of what stands `i` places before the last digit, every fourth is a comma.
pub proof fn every_third_digit_has_a_comma(digits: Seq<char>, i: int)
    ensures
        digits.len() > 0 ==> grouped(digits).len() == digits.len() + (digits.len() - 1) / 3,
        0 <= i < grouped(digits).len() ==> grouped(digits)[grouped(digits).len() - 1 - i]
            == if i % 4 == 3 {
            ','
        } else {
            digits[digits.len() - 1 - (i - i / 4)]
        },
    decreases digits.len(),
{
    reveal_strlit(",");
    let all = grouped(digits);
    if digits.len() > 3 {
        let front = digits.take(digits.len() - 3);
        every_third_digit_has_a_comma(front, i - 4);
        let head = grouped(front);
        let back = digits.skip(digits.len() - 3);
        assert(all == head + ","@ + back);
        if 4 <= i < all.len() {
            assert(all[all.len() - 1 - i] == head[head.len() - 1 - (i - 4)]);
            assert(i % 4 == (i - 4) % 4 && i / 4 == (i - 4) / 4 + 1);
        } else if 0 <= i < 3 {
            assert(i / 4 == 0 && i % 4 == i);
            assert(all[all.len() - 1 - i] == back[2 - i]);
        }
    } else if 0 <= i < all.len() {
        assert(i / 4 == 0 && i % 4 == i);
    }
}

/// The panel lists the projects found last, six at most, in the order they were found.
pub proof fn the_panel_lists_the_last_found(
    projects: Seq<DiscoveryProgressProject>,
    w: nat,
    i: int,
)
    ensures
        ({
            let lines = found_lines(projects, first_listed(projects.len()), w);
            let shown = if projects.len() < 6 {
                projects.len() as int
            } else {
                6
            };
            &&& lines.len() == shown
            &&& 0 <= i < shown ==> lines[i] == crate::columns::left_part(
                found_line(
                    projects[projects.len() - shown + i].path@,
                    projects[projects.len() - shown + i].marker@,
                ),
                w,
            )
        }),
{
}

/// The text without a `+` at its start.
pub open spec fn without_plus(s: Seq<char>) -> Seq<char> {
    if s.len() > 0 && s[0] == '+' {
        s.skip(1)
    } else {
        s
    }
}

/// A text is read as a number exactly if it is made of digits, with a `+` before them or
/// not, and the number is one of the machine's.
pub proof fn numbers_are_digits_that_fit(s: Seq<char>)
    ensures
        parsed_usize(s) is Some <==> without_plus(s).len() > 0 && (forall|i: int|
            0 <= i < without_plus(s).len() ==> 0x30 <= (#[trigger] without_plus(s)[i]) as int
                <= 0x39) && crate::text::value_of(without_plus(s)) <= usize::MAX,
        parsed_usize(s) is Some ==> parsed_usize(s)->0 == crate::text::value_of(without_plus(s)),
{
    digits_spell_their_number(without_plus(s));
}

/// The spinner goes through ten pictures in turn, no two of them alike, and starts again.
pub proof fn the_spinner_turns(tick: nat, other: nat)
    ensures
        frame(tick) == frame(other) <==> tick % 10 == other % 10,
        frame(tick).len() == 1,
{
    reveal_strlit("⠋");
    reveal_strlit("⠙");
    reveal_strlit("⠹");
    reveal_strlit("⠸");
    reveal_strlit("⠼");
    reveal_strlit("⠴");
    reveal_strlit("⠦");
    reveal_strlit("⠧");
    reveal_strlit("⠇");
    reveal_strlit("⠏");
    assert(frame(tick)[0] == frame(other)[0] <==> tick % 10 == other % 10);
}

/// A tick is one more than the one before it; after the largest number comes zero.
pub proof fn ticks_count_up(tick: usize)
    ensures
        next_tick(tick) == (tick + 1) % (usize::MAX + 1),
{
    if tick < usize::MAX {
        vstd::arithmetic::div_mod::lemma_small_mod((tick + 1) as nat, (usize::MAX + 1) as nat);
    } else {
        vstd::arithmetic::div_mod::lemma_mod_self_0(usize::MAX + 1);
    }
}

/// The bar is open to the left and closed to the right, and grows by one from stage to
/// stage until it starts again.
pub proof fn the_bar_grows(w: nat, spinner: Seq<char>, stage: nat)
    ensures
        bar(w, spinner).len() > 0 ==> bar(w, spinner)[0] == '[' && bar(w, spinner).last() == ']',
        stage < 6 ==> bar_fill(stage).len() == stage + 2 && bar_fill(stage).last() == '>',
        stage < 6 ==> forall|i: int| 0 <= i <= stage ==> #[trigger] bar_fill(stage)[i] == '=',
        spinner.len() > 0 ==> bar_stage(spinner) == (spinner[0] as nat) % 6,
{
    reveal_strlit("[");
    reveal_strlit("]");
    reveal_strlit("=>");
    reveal_strlit("==>");
    reveal_strlit("===>");
    reveal_strlit("====>");
    reveal_strlit("=====>");
    reveal_strlit("======>");
    assert(stage < 6 ==> bar_fill(stage) =~= Seq::new(
        stage + 2,
        |i: int|
            if i <= stage {
                '='
            } else {
                '>'
            },
    ));
}

} // verus!
