//! Classification: what state a project's git repository is in.
//!
//! The state is read off the answers to a few questions put to git and the
//! file system. The caller asks them; [`classify`] says which answer it needs
//! next, and stops asking as soon as the state is settled. The questions come
//! in order of severity, so a repository in several states at once is reported
//! by the most severe one.

use vstd::prelude::*;
use vstd::std_specs::cmp::PartialOrdSpec;

use crate::clean::GitReply;
use crate::ignore_rules::IgnoreSet;
use crate::text::{cat2, chars_of, join, lines, signed_text, split_non_empty, string_of, trim};

verus! {

/// The states of a project, most severe first.
#[derive(Debug, Clone, Copy, PartialEq, Eq, Ord, Structural)]
pub enum Status {
    /// There is no usable `.git`.
    NoGit,
    /// No remote is configured.
    NoRemote,
    /// Some commits are not pushed, or nothing is committed.
    Unpushed,
    /// Tracked files have changes that are not committed.
    Wip,
    /// All is committed and pushed, and there is untracked junk that no ignore
    /// rule protects.
    Cleanable,
    /// All is committed and pushed, and there is no such junk.
    Clean,
}

/// The label of a status.
pub open spec fn label_of(status: Status) -> Seq<char> {
    match status {
        Status::NoGit => "no-git"@,
        Status::NoRemote => "no-remote"@,
        Status::Unpushed => "unpushed"@,
        Status::Wip => "wip"@,
        Status::Cleanable => "cleanable"@,
        Status::Clean => "clean"@,
    }
}

/// The rank of a status: 1 is the most severe.
pub open spec fn rank_of(status: Status) -> int {
    match status {
        Status::NoGit => 1,
        Status::NoRemote => 2,
        Status::Unpushed => 3,
        Status::Wip => 4,
        Status::Cleanable => 5,
        Status::Clean => 6,
    }
}

impl Status {
    /// The label that the status is shown by.
    pub fn label(&self) -> (s: &'static str)
        ensures
            s@ == label_of(*self),
    {
        match self {
            Status::NoGit => "no-git",
            Status::NoRemote => "no-remote",
            Status::Unpushed => "unpushed",
            Status::Wip => "wip",
            Status::Cleanable => "cleanable",
            Status::Clean => "clean",
        }
    }

    /// The rank that projects are sorted by: 1 is the most severe.
    pub fn rank(&self) -> (r: u8)
        ensures
            r == rank_of(*self),
    {
        match self {
            Status::NoGit => 1,
            Status::NoRemote => 2,
            Status::Unpushed => 3,
            Status::Wip => 4,
            Status::Cleanable => 5,
            Status::Clean => 6,
        }
    }
}

/// Whether a status is more severe than another: it is declared before it.
pub open spec fn precedes(a: Status, b: Status) -> bool {
    match a {
        Status::NoGit => b != Status::NoGit,
        Status::NoRemote => b != Status::NoGit && b != Status::NoRemote,
        Status::Unpushed => b == Status::Wip || b == Status::Cleanable || b == Status::Clean,
        Status::Wip => b == Status::Cleanable || b == Status::Clean,
        Status::Cleanable => b == Status::Clean,
        Status::Clean => false,
    }
}

/// Statuses are ordered by severity, the most severe first.
impl PartialOrd for Status {
    fn partial_cmp(&self, other: &Self) -> (o: Option<std::cmp::Ordering>) {
        if *self == *other {
            Some(std::cmp::Ordering::Equal)
        } else if self.rank() < other.rank() {
            Some(std::cmp::Ordering::Less)
        } else {
            Some(std::cmp::Ordering::Greater)
        }
    }
}

impl vstd::std_specs::cmp::PartialOrdSpecImpl for Status {
    open spec fn obeys_partial_cmp_spec() -> bool {
        true
    }

    open spec fn partial_cmp_spec(&self, other: &Self) -> Option<std::cmp::Ordering> {
        if *self == *other {
            Some(std::cmp::Ordering::Equal)
        } else if precedes(*self, *other) {
            Some(std::cmp::Ordering::Less)
        } else {
            Some(std::cmp::Ordering::Greater)
        }
    }
}

/// What lies at `.git` in a project.
#[derive(Debug, Clone, Copy, PartialEq, Eq, Structural)]
pub enum GitEntry {
    /// Nothing.
    Missing,
    /// A regular file, which points to a repository elsewhere.
    File,
    /// Anything else, in practice a directory.
    Other,
}

/// A question about a project.
pub enum Probe {
    /// What lies at `.git`?
    GitEntry,
    /// The output of git with [`probe_args`] for: the repository directory,
    GitDir,
    /// the configured remotes,
    Remotes,
    /// the upstream branch,
    Upstream,
    /// the last commit,
    Head,
    /// the commits that are not on the upstream branch,
    UnpushedCommits,
    /// the changed files,
    Changes,
    /// the untracked entries,
    Untracked,
    /// and the untracked files below a directory.
    FilesUnder(String),
}

/// The value of a [`Probe`].
pub enum Question {
    GitEntry,
    GitDir,
    Remotes,
    Upstream,
    Head,
    UnpushedCommits,
    Changes,
    Untracked,
    FilesUnder(Seq<char>),
}

impl View for Probe {
    type V = Question;

    open spec fn view(&self) -> Question {
        match *self {
            Probe::GitEntry => Question::GitEntry,
            Probe::GitDir => Question::GitDir,
            Probe::Remotes => Question::Remotes,
            Probe::Upstream => Question::Upstream,
            Probe::Head => Question::Head,
            Probe::UnpushedCommits => Question::UnpushedCommits,
            Probe::Changes => Question::Changes,
            Probe::Untracked => Question::Untracked,
            Probe::FilesUnder(dir) => Question::FilesUnder(dir@),
        }
    }
}

/// What is known of a project so far. An answer that git gives is its output
/// or its error; `None` stands for an answer that is not known yet.
pub struct GitFacts {
    pub git_entry: Option<GitEntry>,
    pub git_dir: Option<Result<String, String>>,
    pub remotes: Option<Result<String, String>>,
    pub upstream: Option<Result<String, String>>,
    pub head: Option<Result<String, String>>,
    pub unpushed_commits: Option<Result<String, String>>,
    pub changes: Option<Result<String, String>>,
    pub untracked: Option<Result<String, String>>,
    /// The files below the directories asked for, in the order of asking.
    pub subtrees: Vec<Result<String, String>>,
}

impl GitFacts {
    /// Nothing is known.
    pub fn unknown() -> (f: Self)
        ensures
            f.git_entry is None,
            f.git_dir is None,
            f.remotes is None,
            f.upstream is None,
            f.head is None,
            f.unpushed_commits is None,
            f.changes is None,
            f.untracked is None,
            f.subtrees@.len() == 0,
    {
        GitFacts {
            git_entry: None,
            git_dir: None,
            remotes: None,
            upstream: None,
            head: None,
            unpushed_commits: None,
            changes: None,
            untracked: None,
            subtrees: Vec::new(),
        }
    }
}

/// Whether a condition holds, as far as is known.
pub enum Finding {
    Known(bool),
    Ask(Question),
}

/// Whether there is no usable repository: `.git` is missing, or is a file that
/// git cannot follow.
pub open spec fn no_git(f: GitFacts) -> Finding {
    match f.git_entry {
        None => Finding::Ask(Question::GitEntry),
        Some(GitEntry::Missing) => Finding::Known(true),
        Some(GitEntry::Other) => Finding::Known(false),
        Some(GitEntry::File) => match f.git_dir {
            None => Finding::Ask(Question::GitDir),
            Some(r) => Finding::Known(r is Err),
        },
    }
}

/// Whether no remote is configured; a git that fails to say counts as none.
pub open spec fn no_remote(f: GitFacts) -> Finding {
    match f.remotes {
        None => Finding::Ask(Question::Remotes),
        Some(Ok(out)) => Finding::Known(crate::text::trimmed(out@).len() == 0),
        Some(Err(_)) => Finding::Known(true),
    }
}

/// Whether something is not pushed: nothing is committed, the branch has no
/// upstream, or it has commits that the upstream has not. Where git sees no
/// repository the condition does not hold.
pub open spec fn unpushed(f: GitFacts) -> Finding {
    match f.git_dir {
        None => Finding::Ask(Question::GitDir),
        Some(Err(_)) => Finding::Known(false),
        Some(Ok(_)) => match (f.upstream, f.head) {
            (None, _) => Finding::Ask(Question::Upstream),
            (_, None) => Finding::Ask(Question::Head),
            (_, Some(Err(_))) => Finding::Known(true),
            (Some(Err(_)), _) => Finding::Known(true),
            (Some(Ok(_)), Some(Ok(_))) => match f.unpushed_commits {
                None => Finding::Ask(Question::UnpushedCommits),
                Some(Ok(out)) => Finding::Known(crate::text::trimmed(out@).len() > 0),
                Some(Err(_)) => Finding::Known(true),
            },
        },
    }
}

/// Whether a line of `git status --porcelain` is about a tracked file: its two
/// status columns (bytes) are there and are not `??`.
pub open spec fn tracked_change(line: Seq<char>) -> bool {
    if line.len() == 0 {
        false
    } else if line.len() == 1 {
        line[0] as int >= 0x80
    } else {
        line[0] != '?' || line[1] != '?'
    }
}

/// Whether one of the lines is about a tracked file.
pub open spec fn any_tracked_change(all: Seq<Seq<char>>) -> bool {
    exists|i: int| 0 <= i < all.len() && tracked_change(#[trigger] all[i])
}

/// Whether tracked files have changes that are not committed.
pub open spec fn wip(f: GitFacts) -> Finding {
    match f.changes {
        None => Finding::Ask(Question::Changes),
        Some(Ok(out)) => Finding::Known(any_tracked_change(crate::text::lines_of(out@))),
        Some(Err(_)) => Finding::Known(false),
    }
}

/// Whether one of the listed files is not ignored.
pub open spec fn holds_unprotected(
    layers: Seq<crate::ignore_rules::LayerRules>,
    listing: Seq<char>,
) -> bool {
    exists|i: int|
        0 <= i < crate::clean::entries_of(listing).len() && !crate::ignore_rules::ignores(
            layers,
            #[trigger] crate::clean::entries_of(listing)[i],
            false,
        )
}

/// The search for junk among untracked entries: how many directory listings
/// were used, and what is found.
pub struct Search {
    pub used: nat,
    pub found: Finding,
}

/// The search for an untracked file that is not ignored. A directory that is
/// ignored hides what is below it; in any other one the files are looked at
/// one by one, and a listing that fails shows none.
pub open spec fn searched(
    layers: Seq<crate::ignore_rules::LayerRules>,
    entries: Seq<Seq<char>>,
    subtrees: Seq<Result<Seq<char>, Seq<char>>>,
) -> Search
    decreases entries.len(),
{
    if entries.len() == 0 {
        Search { used: 0, found: Finding::Known(false) }
    } else {
        let before = searched(layers, entries.drop_last(), subtrees);
        let path = crate::clean::entry_path(entries.last());
        let is_dir = crate::clean::entry_is_dir(entries.last());
        if before.found != Finding::Known(false) {
            before
        } else if crate::ignore_rules::ignores(layers, path, is_dir) {
            before
        } else if !is_dir {
            Search { used: before.used, found: Finding::Known(true) }
        } else if before.used >= subtrees.len() {
            Search { used: before.used, found: Finding::Ask(Question::FilesUnder(path)) }
        } else {
            Search {
                used: before.used + 1,
                found: Finding::Known(
                    match subtrees[before.used as int] {
                        Ok(listing) => holds_unprotected(layers, listing),
                        Err(_) => false,
                    },
                ),
            }
        }
    }
}

/// Whether there is untracked junk that no ignore rule protects.
pub open spec fn has_junk(f: GitFacts, layers: Seq<crate::ignore_rules::LayerRules>) -> Finding {
    match f.untracked {
        None => Finding::Ask(Question::Untracked),
        Some(Err(_)) => Finding::Known(false),
        Some(Ok(listing)) => searched(
            layers,
            crate::clean::entries_of(listing@),
            f.subtrees@.map_values(|r: Result<String, String>| crate::clean::reply_text(r)),
        ).found,
    }
}

/// The condition that a status stands for. (`Clean` stands for none.)
pub open spec fn condition(
    status: Status,
    f: GitFacts,
    layers: Seq<crate::ignore_rules::LayerRules>,
) -> Finding {
    match status {
        Status::NoGit => no_git(f),
        Status::NoRemote => no_remote(f),
        Status::Unpushed => unpushed(f),
        Status::Wip => wip(f),
        Status::Cleanable => has_junk(f, layers),
        Status::Clean => Finding::Known(true),
    }
}

/// What is settled about a project.
pub enum Verdict {
    Is(Status),
    Ask(Question),
}

/// The verdict when the conditions are taken up in order of severity from
/// `status` on.
pub open spec fn verdict_from(
    status: Status,
    f: GitFacts,
    layers: Seq<crate::ignore_rules::LayerRules>,
) -> Verdict
    decreases 6 - rank_of(status),
{
    match condition(status, f, layers) {
        Finding::Ask(q) => Verdict::Ask(q),
        Finding::Known(true) => Verdict::Is(status),
        Finding::Known(false) => match status {
            Status::NoGit => verdict_from(Status::NoRemote, f, layers),
            Status::NoRemote => verdict_from(Status::Unpushed, f, layers),
            Status::Unpushed => verdict_from(Status::Wip, f, layers),
            Status::Wip => verdict_from(Status::Cleanable, f, layers),
            Status::Cleanable => verdict_from(Status::Clean, f, layers),
            Status::Clean => Verdict::Is(Status::Clean),
        },
    }
}

/// Whether the listings among the facts can be matched against rules.
pub open spec fn facts_ok(f: GitFacts) -> bool {
    &&& f.untracked matches Some(Ok(listing)) ==> crate::clean::listing_ok(listing@)
    &&& crate::clean::listings_ok(f.subtrees@)
}

/// The next step of a classification.
pub enum Step {
    /// Answer this, then classify again.
    Ask(Probe),
    /// The project's status.
    Done(Status),
}

/// The verdict that a step carries.
pub open spec fn step_verdict(step: Step) -> Verdict {
    match step {
        Step::Ask(p) => Verdict::Ask(p@),
        Step::Done(s) => Verdict::Is(s),
    }
}

/// Whether a condition holds, as far as is known.
enum Found {
    Known(bool),
    Ask(Probe),
}

spec fn finding(f: Found) -> Finding {
    match f {
        Found::Known(b) => Finding::Known(b),
        Found::Ask(p) => Finding::Ask(p@),
    }
}

/// Classifies a project by what is known of it, or says what to find out next.
pub fn classify(facts: &GitFacts, ignore_set: &IgnoreSet) -> (step: Step)
    requires
        facts_ok(*facts),
    ensures
        step_verdict(step) == verdict_from(Status::NoGit, *facts, ignore_set.layers()),
{
    proof {
        reveal_with_fuel(verdict_from, 6);
    }
    match status_no_git(facts) {
        Found::Ask(p) => {
            return Step::Ask(p);
        },
        Found::Known(true) => {
            return Step::Done(Status::NoGit);
        },
        Found::Known(false) => {},
    }
    match status_no_remote(facts) {
        Found::Ask(p) => {
            return Step::Ask(p);
        },
        Found::Known(true) => {
            return Step::Done(Status::NoRemote);
        },
        Found::Known(false) => {},
    }
    match status_unpushed(facts) {
        Found::Ask(p) => {
            return Step::Ask(p);
        },
        Found::Known(true) => {
            return Step::Done(Status::Unpushed);
        },
        Found::Known(false) => {},
    }
    match status_wip(facts) {
        Found::Ask(p) => {
            return Step::Ask(p);
        },
        Found::Known(true) => {
            return Step::Done(Status::Wip);
        },
        Found::Known(false) => {},
    }
    match status_cleanable(facts, ignore_set) {
        Found::Ask(p) => Step::Ask(p),
        Found::Known(true) => Step::Done(Status::Cleanable),
        Found::Known(false) => Step::Done(Status::Clean),
    }
}

fn status_no_git(facts: &GitFacts) -> (r: Found)
    ensures
        finding(r) == no_git(*facts),
{
    match facts.git_entry {
        None => Found::Ask(Probe::GitEntry),
        Some(GitEntry::Missing) => Found::Known(true),
        Some(GitEntry::Other) => Found::Known(false),
        Some(GitEntry::File) => match &facts.git_dir {
            None => Found::Ask(Probe::GitDir),
            Some(Ok(_)) => Found::Known(false),
            Some(Err(_)) => Found::Known(true),
        },
    }
}

fn status_no_remote(facts: &GitFacts) -> (r: Found)
    ensures
        finding(r) == no_remote(*facts),
{
    match &facts.remotes {
        None => Found::Ask(Probe::Remotes),
        Some(Ok(out)) => Found::Known(trim(out.as_str()).as_str().is_empty()),
        Some(Err(_)) => Found::Known(true),
    }
}

fn status_unpushed(facts: &GitFacts) -> (r: Found)
    ensures
        finding(r) == unpushed(*facts),
{
    match &facts.git_dir {
        None => {
            return Found::Ask(Probe::GitDir);
        },
        Some(Err(_)) => {
            return Found::Known(false);
        },
        Some(Ok(_)) => {},
    }
    let has_upstream = match &facts.upstream {
        None => {
            return Found::Ask(Probe::Upstream);
        },
        Some(Ok(_)) => true,
        Some(Err(_)) => false,
    };
    match &facts.head {
        None => {
            return Found::Ask(Probe::Head);
        },
        Some(Err(_)) => {
            return Found::Known(true);
        },
        Some(Ok(_)) => {},
    }
    if !has_upstream {
        return Found::Known(true);
    }
    match &facts.unpushed_commits {
        None => Found::Ask(Probe::UnpushedCommits),
        Some(Ok(out)) => Found::Known(!trim(out.as_str()).as_str().is_empty()),
        Some(Err(_)) => Found::Known(true),
    }
}

fn status_wip(facts: &GitFacts) -> (r: Found)
    ensures
        finding(r) == wip(*facts),
{
    match &facts.changes {
        None => Found::Ask(Probe::Changes),
        Some(Ok(out)) => Found::Known(changes_tracked_file(out.as_str())),
        Some(Err(_)) => Found::Known(false),
    }
}

fn beyond_ascii(c: char) -> (r: bool)
    ensures
        r == (c as int >= 0x80),
{
    c as u32 >= 0x80
}

/// Whether the output of `git status --porcelain` has a line about a tracked
/// file.
pub fn changes_tracked_file(porcelain: &str) -> (r: bool)
    ensures
        r == any_tracked_change(crate::text::lines_of(porcelain@)),
{
    let all = lines(porcelain);
    let ghost ls = crate::text::lines_of(porcelain@);
    let mut i: usize = 0;
    assert(ls.len() == all@.len());
    while i < all.len()
        invariant
            i <= all@.len(),
            ls == crate::text::lines_of(porcelain@),
            ls == crate::text::texts(all@),
            ls.len() == all@.len(),
            forall|k: int| 0 <= k < i ==> !tracked_change(#[trigger] ls[k]),
        decreases all@.len() - i,
    {
        let line = chars_of(all[i].as_str());
        assert(ls[i as int] == line@);
        let changed = if line.len() == 0 {
            false
        } else if line.len() == 1 {
            beyond_ascii(line[0])
        } else {
            line[0] != '?' || line[1] != '?'
        };
        if changed {
            assert(tracked_change(ls[i as int]));
            return true;
        }
        i = i + 1;
    }
    false
}

proof fn lemma_search_stopped(
    layers: Seq<crate::ignore_rules::LayerRules>,
    entries: Seq<Seq<char>>,
    subtrees: Seq<Result<Seq<char>, Seq<char>>>,
    n: int,
)
    requires
        0 <= n <= entries.len(),
        searched(layers, entries.take(n), subtrees).found != Finding::Known(false),
    ensures
        searched(layers, entries, subtrees) == searched(layers, entries.take(n), subtrees),
    decreases entries.len(),
{
    if n < entries.len() {
        assert(entries.drop_last().take(n) =~= entries.take(n));
        lemma_search_stopped(layers, entries.drop_last(), subtrees, n);
    } else {
        assert(entries.take(n) =~= entries);
    }
}

fn status_cleanable(facts: &GitFacts, ignore_set: &IgnoreSet) -> (r: Found)
    requires
        facts_ok(*facts),
    ensures
        finding(r) == has_junk(*facts, ignore_set.layers()),
{
    let listing = match &facts.untracked {
        None => {
            return Found::Ask(Probe::Untracked);
        },
        Some(Err(_)) => {
            return Found::Known(false);
        },
        Some(Ok(listing)) => listing,
    };
    let entries = split_non_empty(listing.as_str(), '\0');
    let ghost layers = ignore_set.layers();
    let ghost all = crate::clean::entries_of(listing@);
    let ghost subs = facts.subtrees@.map_values(
        |r: Result<String, String>| crate::clean::reply_text(r),
    );
    let mut used: usize = 0;
    let mut i: usize = 0;
    assert(all.take(0) =~= Seq::<Seq<char>>::empty());
    while i < entries.len()
        invariant
            i <= entries@.len(),
            used <= facts.subtrees@.len(),
            layers == ignore_set.layers(),
            all == crate::clean::entries_of(listing@),
            all == crate::text::texts(entries@),
            subs == facts.subtrees@.map_values(
                |r: Result<String, String>| crate::clean::reply_text(r),
            ),
            facts.untracked == Some(Ok::<String, String>(*listing)),
            facts_ok(*facts),
            searched(layers, all.take(i as int), subs) == (Search {
                used: used as nat,
                found: Finding::Known(false),
            }),
        decreases entries@.len() - i,
    {
        assert(all[i as int] == entries@[i as int]@);
        assert(all.take(i + 1).drop_last() =~= all.take(i as int));
        assert(all.take(i + 1).last() == entries@[i as int]@);
        proof {
            crate::clean::lemma_entry_matchable(crate::clean::entries_of(listing@)[i as int]);
        }
        let chars = chars_of(entries[i].as_str());
        let n = chars.len();
        let is_dir = n > 0 && chars[n - 1] == '/';
        let path = if is_dir {
            string_of(&chars, 0, n - 1)
        } else {
            entries[i].clone()
        };
        assert(path@ =~= crate::clean::entry_path(all[i as int]));
        if !ignore_set.is_ignored_path(path.as_str(), is_dir) {
            if !is_dir {
                proof {
                    lemma_search_stopped(layers, all, subs, i + 1);
                }
                return Found::Known(true);
            }
            if used >= facts.subtrees.len() {
                proof {
                    lemma_search_stopped(layers, all, subs, i + 1);
                }
                return Found::Ask(Probe::FilesUnder(path));
            }
            assert(subs[used as int] == crate::clean::reply_text(facts.subtrees@[used as int]));
            let holds = dir_holds_non_ignored(&facts.subtrees[used], ignore_set);
            used = used + 1;
            if holds {
                proof {
                    lemma_search_stopped(layers, all, subs, i + 1);
                }
                return Found::Known(true);
            }
        }
        i = i + 1;
    }
    assert(all.len() == entries@.len());
    assert(all.take(i as int) =~= all);
    Found::Known(false)
}

/// Whether one of the files listed below a directory is not ignored. A listing
/// that failed shows none.
fn dir_holds_non_ignored(files: &Result<String, String>, ignore_set: &IgnoreSet) -> (r: bool)
    requires
        *files matches Ok(text) ==> crate::clean::listing_ok(text@),
    ensures
        r == match *files {
            Ok(text) => holds_unprotected(ignore_set.layers(), text@),
            Err(_) => false,
        },
{
    let text = match files {
        Ok(text) => text,
        Err(_) => {
            return false;
        },
    };
    let entries = split_non_empty(text.as_str(), '\0');
    let ghost all = crate::clean::entries_of(text@);
    let mut i: usize = 0;
    assert(all.len() == entries@.len());
    while i < entries.len()
        invariant
            i <= entries@.len(),
            all == crate::clean::entries_of(text@),
            all == crate::text::texts(entries@),
            all.len() == entries@.len(),
            crate::clean::listing_ok(text@),
            *files == Ok::<String, String>(*text),
            forall|k: int|
                0 <= k < i ==> crate::ignore_rules::ignores(
                    ignore_set.layers(),
                    #[trigger] all[k],
                    false,
                ),
        decreases entries@.len() - i,
    {
        assert(all[i as int] == entries@[i as int]@);
        proof {
            crate::clean::lemma_entry_matchable(crate::clean::entries_of(text@)[i as int]);
        }
        if !ignore_set.is_ignored_path(entries[i].as_str(), false) {
            assert(!crate::ignore_rules::ignores(
                ignore_set.layers(),
                crate::clean::entries_of(text@)[i as int],
                false,
            ));
            return true;
        }
        i = i + 1;
    }
    false
}

/// The arguments with which git answers a question; `None` for the question
/// that the file system answers.
pub open spec fn args_of(q: Question) -> Option<Seq<Seq<char>>> {
    match q {
        Question::GitEntry => None,
        Question::GitDir => Some(seq!["rev-parse"@, "--git-dir"@]),
        Question::Remotes => Some(seq!["remote"@, "-v"@]),
        Question::Upstream => Some(seq!["rev-parse"@, "@{u}"@]),
        Question::Head => Some(seq!["rev-parse"@, "HEAD"@]),
        Question::UnpushedCommits => Some(seq!["rev-list"@, "@{u}..HEAD"@, "--"@]),
        Question::Changes => Some(seq!["status"@, "--porcelain"@]),
        Question::Untracked => Some(
            seq!["ls-files"@, "--others"@, "--directory"@, "--no-empty-directory"@, "-z"@],
        ),
        Question::FilesUnder(dir) => Some(
            seq!["ls-files"@, "--others"@, "-z"@, "--"@, ":(literal)"@ + dir],
        ),
    }
}

/// The arguments with which git answers a question; `None` for the question
/// that the file system answers.
///
/// Untracked entries are listed with NUL between them, so that no name is
/// quoted, and files below a directory with the name taken literally.
pub fn probe_args(probe: &Probe) -> (out: Option<Vec<String>>)
    ensures
        crate::clean::opt_texts(out) == args_of(probe@),
{
    let mut out: Vec<String> = Vec::new();
    match probe {
        Probe::GitEntry => {
            return None;
        },
        Probe::GitDir => {
            out.push("rev-parse".to_owned());
            out.push("--git-dir".to_owned());
        },
        Probe::Remotes => {
            out.push("remote".to_owned());
            out.push("-v".to_owned());
        },
        Probe::Upstream => {
            out.push("rev-parse".to_owned());
            out.push("@{u}".to_owned());
        },
        Probe::Head => {
            out.push("rev-parse".to_owned());
            out.push("HEAD".to_owned());
        },
        Probe::UnpushedCommits => {
            out.push("rev-list".to_owned());
            out.push("@{u}..HEAD".to_owned());
            out.push("--".to_owned());
        },
        Probe::Changes => {
            out.push("status".to_owned());
            out.push("--porcelain".to_owned());
        },
        Probe::Untracked => {
            out.push("ls-files".to_owned());
            out.push("--others".to_owned());
            out.push("--directory".to_owned());
            out.push("--no-empty-directory".to_owned());
            out.push("-z".to_owned());
        },
        Probe::FilesUnder(dir) => {
            out.push("ls-files".to_owned());
            out.push("--others".to_owned());
            out.push("-z".to_owned());
            out.push("--".to_owned());
            out.push(cat2(":(literal)", dir.as_str()));
        },
    }
    assert(crate::text::texts(out@) =~= args_of(probe@)->0);
    Some(out)
}

/// The answer that a git run gives: its output, or the message that it failed
/// with. (The caller hands over output that is not UTF-8 with the offending
/// bytes replaced.)
pub fn git_cmd(args: &[String], reply: &GitReply) -> (r: Result<String, String>)
    requires
        *reply != GitReply::Output(None),
    ensures
        crate::clean::reply_text(r) == match *reply {
            GitReply::NotRun(e) => Err::<Seq<char>, Seq<char>>("git command failed: "@ + e@),
            GitReply::Refused { code, stderr } => Err(
                "git command failed (exit "@ + crate::text::signed_decimal(code as int) + "): "@
                    + crate::text::joined(crate::text::texts(args@), " "@) + " — "@ + stderr@,
            ),
            GitReply::Output(out) => Ok(out->0@),
        },
{
    match reply {
        GitReply::NotRun(e) => Err(cat2("git command failed: ", e.as_str())),
        GitReply::Refused { code, stderr } => {
            let mut msg = cat2("git command failed (exit ", signed_text(*code).as_str());
            msg.append("): ");
            msg.append(join(args, " ").as_str());
            msg.append(" — ");
            msg.append(stderr.as_str());
            Err(msg)
        },
        GitReply::Output(Some(out)) => Ok(out.clone()),
        GitReply::Output(None) => Ok(String::new()),
    }
}

/// The warning that goes with a project whose remotes could not be read: it is
/// reported as having none.
pub fn remote_warning(project_path: &str, facts: &GitFacts) -> (out: Option<String>)
    ensures
        crate::text::opt_text(out) == match facts.remotes {
            Some(Err(e)) => Some(
                "warning: "@ + project_path@
                    + ": could not read remotes, reporting as no-remote: "@ + e@,
            ),
            _ => None,
        },
{
    match &facts.remotes {
        Some(Err(e)) => {
            let mut msg = cat2("warning: ", project_path);
            msg.append(": could not read remotes, reporting as no-remote: ");
            msg.append(e.as_str());
            Some(msg)
        },
        _ => None,
    }
}

/// A settled status is the most severe one whose condition holds: its own
/// holds, and that of every more severe one does not.
pub proof fn most_severe_status_wins(
    f: GitFacts,
    layers: Seq<crate::ignore_rules::LayerRules>,
    status: Status,
    other: Status,
)
    requires
        verdict_from(Status::NoGit, f, layers) == Verdict::Is(status),
        rank_of(other) < rank_of(status),
    ensures
        condition(status, f, layers) == Finding::Known(true),
        condition(other, f, layers) == Finding::Known(false),
{
    reveal_with_fuel(verdict_from, 6);
}

/// A cleanable project is committed and pushed, has a remote, and has junk
/// that no rule protects; nothing is called cleanable on a failed listing.
pub proof fn cleanable_means_settled_and_dirty(
    f: GitFacts,
    layers: Seq<crate::ignore_rules::LayerRules>,
)
    requires
        verdict_from(Status::NoGit, f, layers) == Verdict::Is(Status::Cleanable),
    ensures
        no_git(f) == Finding::Known(false),
        no_remote(f) == Finding::Known(false),
        unpushed(f) == Finding::Known(false),
        wip(f) == Finding::Known(false),
        has_junk(f, layers) == Finding::Known(true),
        f.untracked matches Some(Ok(_)),
{
    reveal_with_fuel(verdict_from, 6);
}

/// Whether every entry is ignored.
pub open spec fn all_protected(
    layers: Seq<crate::ignore_rules::LayerRules>,
    entries: Seq<Seq<char>>,
) -> bool {
    forall|i: int|
        0 <= i < entries.len() ==> crate::ignore_rules::ignores(
            layers,
            crate::clean::entry_path(#[trigger] entries[i]),
            crate::clean::entry_is_dir(entries[i]),
        )
}

/// A committed and pushed project whose untracked entries are all ignored is
/// clean, not cleanable.
pub proof fn protected_junk_is_not_junk(
    layers: Seq<crate::ignore_rules::LayerRules>,
    entries: Seq<Seq<char>>,
    subtrees: Seq<Result<Seq<char>, Seq<char>>>,
)
    requires
        all_protected(layers, entries),
    ensures
        searched(layers, entries, subtrees).found == Finding::Known(false),
    decreases entries.len(),
{
    if entries.len() > 0 {
        let front = entries.drop_last();
        assert(all_protected(layers, front)) by {
            assert forall|i: int| 0 <= i < front.len() implies crate::ignore_rules::ignores(
                layers,
                crate::clean::entry_path(#[trigger] front[i]),
                crate::clean::entry_is_dir(front[i]),
            ) by {
                assert(front[i] == entries[i]);
            }
        }
        protected_junk_is_not_junk(layers, front, subtrees);
        assert(entries[entries.len() - 1] == entries.last());
    }
}

/// Sorting by rank and sorting by status agree: the rank grows with the order of
/// the statuses, and tells them apart. Ranks run from 1 for the most severe
/// status to 6 for a clean project.
pub proof fn ranks_grow_with_the_order_of_statuses(a: Status, b: Status)
    ensures
        rank_of(a) < rank_of(b) <==> precedes(a, b),
        rank_of(a) < rank_of(b) <==> a.partial_cmp_spec(&b) == Some(std::cmp::Ordering::Less),
        rank_of(a) == rank_of(b) <==> a.partial_cmp_spec(&b) == Some(std::cmp::Ordering::Equal),
        rank_of(a) == rank_of(b) <==> a == b,
        1 <= rank_of(a) <= 6,
        rank_of(Status::NoGit) == 1,
        rank_of(Status::Cleanable) == 5,
        rank_of(Status::Clean) == 6,
{
}

/// Ranks tell the statuses apart.
pub proof fn ranks_are_distinct(a: Status, b: Status)
    requires
        rank_of(a) == rank_of(b),
    ensures
        a == b,
{
}

/// Whether the answer to a question is not known yet. (The files below a
/// directory are known in the order of asking.)
pub open spec fn unanswered(
    q: Question,
    f: GitFacts,
    layers: Seq<crate::ignore_rules::LayerRules>,
) -> bool {
    match q {
        Question::GitEntry => f.git_entry is None,
        Question::GitDir => f.git_dir is None,
        Question::Remotes => f.remotes is None,
        Question::Upstream => f.upstream is None,
        Question::Head => f.head is None,
        Question::UnpushedCommits => f.unpushed_commits is None,
        Question::Changes => f.changes is None,
        Question::Untracked => f.untracked is None,
        Question::FilesUnder(_) => f.untracked matches Some(Ok(listing)) && searched(
            layers,
            crate::clean::entries_of(listing@),
            f.subtrees@.map_values(|r: Result<String, String>| crate::clean::reply_text(r)),
        ).used == f.subtrees@.len(),
    }
}

proof fn lemma_search_asks(
    layers: Seq<crate::ignore_rules::LayerRules>,
    entries: Seq<Seq<char>>,
    subtrees: Seq<Result<Seq<char>, Seq<char>>>,
)
    ensures
        ({
            let s = searched(layers, entries, subtrees);
            &&& s.used <= subtrees.len()
            &&& s.found matches Finding::Ask(q) ==> q is FilesUnder && s.used == subtrees.len()
        }),
    decreases entries.len(),
{
    if entries.len() > 0 {
        lemma_search_asks(layers, entries.drop_last(), subtrees);
    }
}

/// Only what is not known yet is asked, so no question is put twice.
pub proof fn only_the_unknown_is_asked(
    f: GitFacts,
    layers: Seq<crate::ignore_rules::LayerRules>,
    q: Question,
)
    requires
        verdict_from(Status::NoGit, f, layers) == Verdict::Ask(q),
    ensures
        unanswered(q, f, layers),
{
    reveal_with_fuel(verdict_from, 6);
    if let Some(Ok(listing)) = f.untracked {
        lemma_search_asks(
            layers,
            crate::clean::entries_of(listing@),
            f.subtrees@.map_values(|r: Result<String, String>| crate::clean::reply_text(r)),
        );
    }
}

/// A line of at least two characters that are not both `?` is about a tracked file,
/// whatever the two are; and where some line is about a tracked file, it is such a
/// line or a single character beyond ASCII.
pub proof fn any_change_but_untracked_files_counts(all: Seq<Seq<char>>)
    ensures
        forall|i: int|
            0 <= i < all.len() && (#[trigger] all[i]).len() >= 2 && !(all[i][0] == '?' && all[i][1]
                == '?') ==> any_tracked_change(all),
        any_tracked_change(all) ==> exists|i: int|
            0 <= i < all.len() && (((#[trigger] all[i]).len() >= 2 && !(all[i][0] == '?'
                && all[i][1] == '?')) || (all[i].len() == 1 && all[i][0] as int >= 0x80)),
{
    assert forall|i: int|
        0 <= i < all.len() && (#[trigger] all[i]).len() >= 2 && !(all[i][0] == '?' && all[i][1]
            == '?') implies any_tracked_change(all) by {
        assert(tracked_change(all[i]));
    }
    if any_tracked_change(all) {
        let i = choose|i: int| 0 <= i < all.len() && tracked_change(#[trigger] all[i]);
        assert(all[i].len() >= 1);
    }
}

/// Whether a text is white space throughout.
pub open spec fn is_blank(s: Seq<char>) -> bool {
    forall|i: int| 0 <= i < s.len() ==> crate::text::is_white(#[trigger] s[i])
}

/// Whether every question but those about single directories is answered.
pub open spec fn is_answered(f: GitFacts) -> bool {
    f.git_entry is Some && f.git_dir is Some && f.remotes is Some && f.upstream is Some && f.head
        is Some && f.unpushed_commits is Some && f.changes is Some && f.untracked is Some
}

/// Whether the answers show no usable `.git`.
pub open spec fn lacks_git(f: GitFacts) -> bool {
    f.git_entry == Some(GitEntry::Missing) || (f.git_entry == Some(GitEntry::File) && f.git_dir->0
        is Err)
}

/// Whether the answers show no remote.
pub open spec fn lacks_remote(f: GitFacts) -> bool {
    f.remotes->0 is Err || is_blank(f.remotes->0->Ok_0@)
}

/// Whether the answers show anything that is not pushed.
pub open spec fn is_ahead(f: GitFacts) -> bool {
    f.git_dir->0 is Ok && (f.head->0 is Err || f.upstream->0 is Err || f.unpushed_commits->0 is Err
        || !is_blank(f.unpushed_commits->0->Ok_0@))
}

/// Whether some line has two status columns that are not both `?`. (A single character
/// beyond ASCII fills both.)
pub open spec fn shows_change(all: Seq<Seq<char>>) -> bool {
    exists|i: int|
        0 <= i < all.len() && (((#[trigger] all[i]).len() >= 2 && !(all[i][0] == '?' && all[i][1]
            == '?')) || (all[i].len() == 1 && all[i][0] as int >= 0x80))
}

/// Whether the answers show a tracked file with changes.
pub open spec fn is_changed(f: GitFacts) -> bool {
    f.changes->0 is Ok && shows_change(crate::text::lines_of(f.changes->0->Ok_0@))
}

/// The status follows from what git says: without a usable `.git` it is no-git; else
/// without a remote it is no-remote; else with anything not pushed it is unpushed; else
/// with any change to a tracked file it is work in progress; and only then does
/// untracked junk decide between cleanable and clean.
pub proof fn the_status_follows_from_what_git_says(
    f: GitFacts,
    layers: Seq<crate::ignore_rules::LayerRules>,
)
    requires
        is_answered(f),
    ensures
        verdict_from(Status::NoGit, f, layers) == if lacks_git(f) {
            Verdict::Is(Status::NoGit)
        } else if lacks_remote(f) {
            Verdict::Is(Status::NoRemote)
        } else if is_ahead(f) {
            Verdict::Is(Status::Unpushed)
        } else if is_changed(f) {
            Verdict::Is(Status::Wip)
        } else {
            match has_junk(f, layers) {
                Finding::Known(true) => Verdict::Is(Status::Cleanable),
                Finding::Known(false) => Verdict::Is(Status::Clean),
                Finding::Ask(q) => Verdict::Ask(q),
            }
        },
{
    reveal_with_fuel(verdict_from, 6);
    if let Some(Ok(out)) = f.remotes {
        let r = crate::text::trimming_takes_off_white_ends(out@);
    }
    if let Some(Ok(out)) = f.unpushed_commits {
        let r = crate::text::trimming_takes_off_white_ends(out@);
    }
    if let Some(Ok(out)) = f.changes {
        any_change_but_untracked_files_counts(crate::text::lines_of(out@));
        let all = crate::text::lines_of(out@);
        if is_changed(f) {
            let i = choose|i: int|
                0 <= i < all.len() && (((#[trigger] all[i]).len() >= 2 && !(all[i][0] == '?'
                    && all[i][1] == '?')) || (all[i].len() == 1 && all[i][0] as int >= 0x80));
            assert(tracked_change(all[i]));
        }
    }
    assert(no_git(f) == Finding::Known(lacks_git(f)));
    assert(no_remote(f) == Finding::Known(lacks_remote(f)));
    assert(unpushed(f) == Finding::Known(is_ahead(f)));
    assert(wip(f) == Finding::Known(is_changed(f)));
}

/// Uncommitted work is never cleaned: with a remote and nothing unpushed, any line of
/// the porcelain output that does not start with `??` makes the project work in
/// progress, whatever its two status columns say and whatever is untracked.
pub proof fn uncommitted_work_is_work_in_progress(
    f: GitFacts,
    layers: Seq<crate::ignore_rules::LayerRules>,
    i: int,
)
    requires
        is_answered(f),
        !lacks_git(f),
        !lacks_remote(f),
        !is_ahead(f),
        f.changes->0 is Ok,
        0 <= i < crate::text::lines_of(f.changes->0->Ok_0@).len(),
        crate::text::lines_of(f.changes->0->Ok_0@)[i].len() >= 2,
        crate::text::lines_of(f.changes->0->Ok_0@)[i].take(2) != seq!['?', '?'],
    ensures
        verdict_from(Status::NoGit, f, layers) == Verdict::Is(Status::Wip),
{
    the_status_follows_from_what_git_says(f, layers);
    let all = crate::text::lines_of(f.changes->0->Ok_0@);
    if all[i][0] == '?' && all[i][1] == '?' {
        assert(all[i].take(2) =~= seq!['?', '?']);
    }
    assert(all[i].len() >= 2 && !(all[i][0] == '?' && all[i][1] == '?'));
    assert(is_changed(f));
}

/// Whether an entry is a directory that is looked into: one that is not ignored.
pub open spec fn is_looked_into(
    layers: Seq<crate::ignore_rules::LayerRules>,
    entry: Seq<char>,
) -> bool {
    entry.len() > 0 && entry.last() == '/' && !crate::ignore_rules::ignores(
        layers,
        entry.drop_last(),
        true,
    )
}

/// The directories that are looked into, in the order they come up.
pub open spec fn looked_into(
    layers: Seq<crate::ignore_rules::LayerRules>,
    entries: Seq<Seq<char>>,
) -> Seq<Seq<char>> {
    entries.filter(|e: Seq<char>| is_looked_into(layers, e))
}

/// Whether entry `i` shows junk: it is a file that is not ignored, or a directory that
/// is looked into and whose listing, the next in order, has a file that is not ignored.
pub open spec fn shows_junk(
    layers: Seq<crate::ignore_rules::LayerRules>,
    entries: Seq<Seq<char>>,
    subtrees: Seq<Result<Seq<char>, Seq<char>>>,
    i: int,
) -> bool {
    let entry = entries[i];
    if entry.len() > 0 && entry.last() == '/' {
        let j = looked_into(layers, entries.take(i)).len();
        is_looked_into(layers, entry) && j < subtrees.len() && subtrees[j as int] is Ok && exists|
            f: int,
        |
            0 <= f < crate::clean::entries_of(subtrees[j as int]->Ok_0).len()
                && !crate::ignore_rules::ignores(
                layers,
                #[trigger] crate::clean::entries_of(subtrees[j as int]->Ok_0)[f],
                false,
            )
    } else {
        !crate::ignore_rules::ignores(layers, entry, false)
    }
}

/// Junk is what no rule protects: the search finds junk only where some entry shows it,
/// finds none only where every directory was looked into and no entry shows any, and
/// asks for the first directory whose listing is missing.
pub proof fn junk_is_what_no_rule_protects(
    layers: Seq<crate::ignore_rules::LayerRules>,
    entries: Seq<Seq<char>>,
    subtrees: Seq<Result<Seq<char>, Seq<char>>>,
)
    ensures
        ({
            let dirs = looked_into(layers, entries);
            match searched(layers, entries, subtrees).found {
                Finding::Known(true) => exists|i: int|
                    0 <= i < entries.len() && #[trigger] shows_junk(layers, entries, subtrees, i),
                Finding::Known(false) => {
                    &&& searched(layers, entries, subtrees).used == dirs.len()
                    &&& dirs.len() <= subtrees.len()
                    &&& forall|i: int|
                        0 <= i < entries.len() ==> !#[trigger] shows_junk(
                            layers,
                            entries,
                            subtrees,
                            i,
                        )
                },
                Finding::Ask(q) => {
                    &&& subtrees.len() < dirs.len()
                    &&& q == Question::FilesUnder(dirs[subtrees.len() as int].drop_last())
                },
            }
        }),
    decreases entries.len(),
{
    let dirs = looked_into(layers, entries);
    let state = searched(layers, entries, subtrees);
    if entries.len() == 0 {
        reveal(Seq::filter);
    } else {
        let front = entries.drop_last();
        let n = front.len() as int;
        junk_is_what_no_rule_protects(layers, front, subtrees);
        let before = searched(layers, front, subtrees);
        let had = looked_into(layers, front);
        assert(dirs == if is_looked_into(layers, entries.last()) {
            had.push(entries.last())
        } else {
            had
        }) by {
            reveal(Seq::filter);
        }
        assert forall|i: int| 0 <= i < n implies shows_junk(layers, front, subtrees, i)
            == #[trigger] shows_junk(layers, entries, subtrees, i) by {
            assert(front.take(i) =~= entries.take(i));
            assert(front[i] == entries[i]);
        }
        assert(entries.take(n) =~= front);
        let last = shows_junk(layers, entries, subtrees, n);
        match before.found {
            Finding::Known(true) => {
                let i = choose|i: int|
                    0 <= i < front.len() && #[trigger] shows_junk(layers, front, subtrees, i);
                assert(shows_junk(layers, entries, subtrees, i));
            },
            Finding::Known(false) => {
                if is_looked_into(layers, entries.last()) {
                    assert(dirs[had.len() as int] == entries.last());
                }
                if state.found == Finding::Known(true) {
                    assert(last);
                } else if state.found == Finding::Known(false) {
                    assert(!last);
                }
            },
            Finding::Ask(q) => {
                assert(dirs[subtrees.len() as int] == had[subtrees.len() as int]);
            },
        }
    }
}

/// Every question but that for the entry in the file system is put to git, no two in the
/// same words; a directory is named literally, with no pattern in it.
pub proof fn questions_are_put_in_their_own_words(a: Question, b: Question, dir: Seq<char>)
    ensures
        args_of(a) is None <==> a == Question::GitEntry,
        a != b ==> args_of(a) != args_of(b),
        args_of(Question::FilesUnder(dir))->0.last() == ":(literal)"@ + dir,
{
    reveal_strlit("rev-parse");
    reveal_strlit("--git-dir");
    reveal_strlit("remote");
    reveal_strlit("-v");
    reveal_strlit("@{u}");
    reveal_strlit("HEAD");
    reveal_strlit("rev-list");
    reveal_strlit("status");
    reveal_strlit("--porcelain");
    reveal_strlit("ls-files");
    reveal_strlit("--directory");
    reveal_strlit("-z");
    if a != b && args_of(a) is Some && args_of(b) is Some {
        let x = args_of(a)->0;
        let y = args_of(b)->0;
        if x == y {
            assert(x.len() == y.len() && x[0] == y[0] && x[1] == y[1] && x.last() == y.last());
            assert(x[0].len() == y[0].len() && x[1].len() == y[1].len() && x[1][0] == y[1][0]);
            if x.len() == 5 {
                assert(x[2] == y[2] && x[2].len() == y[2].len());
                if a is FilesUnder && b is FilesUnder {
                    let d = a->FilesUnder_0;
                    let e = b->FilesUnder_0;
                    let mark = ":(literal)"@;
                    assert((mark + d).skip(mark.len() as int) =~= d);
                    assert((mark + e).skip(mark.len() as int) =~= e);
                }
            }
        }
    }
}

} // verus!
