//! What git says of a project, in the words that panels and tables show.
//!
//! The functions say which git command to run next; the caller runs it and
//! calls again with one more reply.

use vstd::prelude::*;

use crate::classify::Status;
use crate::clean::GitReply;
use crate::text::{cat2, cat3, lines, trim};

verus! {

/// The text that git gave, if it gave any.
pub open spec fn given_text(reply: GitReply) -> Option<Seq<char>> {
    match reply {
        GitReply::Output(Some(out)) => {
            let t = crate::text::trimmed(out@);
            if t.len() == 0 {
                None
            } else {
                Some(t)
            }
        },
        _ => None,
    }
}

/// The text that git gave, without the blanks around it. `None` where git
/// failed, gave nothing, or gave what is no text.
pub fn git_text(reply: &GitReply) -> (r: Option<String>)
    ensures
        crate::text::opt_text(r) == given_text(*reply),
{
    match reply {
        GitReply::Output(Some(out)) => {
            let t = trim(out.as_str());
            if t.as_str().is_empty() {
                None
            } else {
                Some(t)
            }
        },
        _ => None,
    }
}

/// Where reading a label stands: the next git command, or the label.
pub enum LabelStep {
    Ask(Vec<String>),
    Done(String),
}

/// Where reading a label stands.
pub enum LabelState {
    Ask(Seq<Seq<char>>),
    Done(Seq<char>),
}

impl View for LabelStep {
    type V = LabelState;

    open spec fn view(&self) -> LabelState {
        match *self {
            LabelStep::Ask(args) => LabelState::Ask(crate::text::texts(args@)),
            LabelStep::Done(label) => LabelState::Done(label@),
        }
    }
}

/// The branch of a project: its name; the commit, where no branch is checked
/// out; a dash, where there is neither.
pub open spec fn branch_state(status: Status, replies: Seq<GitReply>) -> LabelState {
    if status == Status::NoGit {
        LabelState::Done("-"@)
    } else if replies.len() == 0 {
        LabelState::Ask(seq!["branch"@, "--show-current"@])
    } else if given_text(replies[0]) is Some {
        LabelState::Done(given_text(replies[0])->0)
    } else if replies.len() == 1 {
        LabelState::Ask(seq!["rev-parse"@, "--short"@, "HEAD"@])
    } else {
        match given_text(replies[1]) {
            Some(hash) => LabelState::Done("detached@"@ + hash),
            None => LabelState::Done("-"@),
        }
    }
}

/// The branch of a project: its name; the commit, where no branch is checked
/// out; a dash, where there is neither.
pub fn branch_label(status: Status, replies: &[GitReply]) -> (step: LabelStep)
    ensures
        step@ == branch_state(status, replies@),
{
    if status == Status::NoGit {
        return LabelStep::Done("-".to_owned());
    }
    if replies.len() == 0 {
        let args = vec!["branch".to_owned(), "--show-current".to_owned()];
        assert(crate::text::texts(args@) =~= seq!["branch"@, "--show-current"@]);
        return LabelStep::Ask(args);
    }
    if let Some(name) = git_text(&replies[0]) {
        return LabelStep::Done(name);
    }
    if replies.len() == 1 {
        let args = vec!["rev-parse".to_owned(), "--short".to_owned(), "HEAD".to_owned()];
        assert(crate::text::texts(args@) =~= seq!["rev-parse"@, "--short"@, "HEAD"@]);
        return LabelStep::Ask(args);
    }
    match git_text(&replies[1]) {
        Some(hash) => LabelStep::Done(cat2("detached@", hash.as_str())),
        None => LabelStep::Done("-".to_owned()),
    }
}

/// When a project last changed, in git's words; a dash where git has none.
pub open spec fn changed_state(status: Status, replies: Seq<GitReply>) -> LabelState {
    if status == Status::NoGit {
        LabelState::Done("-"@)
    } else if replies.len() == 0 {
        LabelState::Ask(seq!["log"@, "-1"@, "--format=%cr"@])
    } else {
        match given_text(replies[0]) {
            Some(t) => LabelState::Done(t),
            None => LabelState::Done("-"@),
        }
    }
}

/// When a project last changed, in git's words; a dash where git has none.
pub fn changed_label(status: Status, replies: &[GitReply]) -> (step: LabelStep)
    ensures
        step@ == changed_state(status, replies@),
{
    if status == Status::NoGit {
        return LabelStep::Done("-".to_owned());
    }
    if replies.len() == 0 {
        let args = vec!["log".to_owned(), "-1".to_owned(), "--format=%cr".to_owned()];
        assert(crate::text::texts(args@) =~= seq!["log"@, "-1"@, "--format=%cr"@]);
        return LabelStep::Ask(args);
    }
    match git_text(&replies[0]) {
        Some(t) => LabelStep::Done(t),
        None => LabelStep::Done("-".to_owned()),
    }
}

/// Where finding out about commits stands.
pub enum CommitStep {
    Ask(Vec<String>),
    Done(bool),
}

/// Whether a project counts as committed. Only an unpushed one is in doubt: it
/// may have no commit at all.
pub open spec fn commit_state(status: Status, replies: Seq<GitReply>) -> Option<bool> {
    if status != Status::Unpushed {
        Some(true)
    } else if replies.len() == 0 {
        None
    } else {
        Some(given_text(replies[0]) is Some)
    }
}

/// Whether a project counts as committed. Only an unpushed one is in doubt: it
/// may have no commit at all, and git is asked.
pub fn committed_state(status: Status, replies: &[GitReply]) -> (step: CommitStep)
    ensures
        match commit_state(status, replies@) {
            Some(b) => step == CommitStep::Done(b),
            None => step is Ask && crate::text::texts(step->Ask_0@) == seq![
                "rev-parse"@,
                "--verify"@,
                "HEAD"@,
            ],
        },
{
    if status != Status::Unpushed {
        return CommitStep::Done(true);
    }
    if replies.len() == 0 {
        let args = vec!["rev-parse".to_owned(), "--verify".to_owned(), "HEAD".to_owned()];
        assert(crate::text::texts(args@) =~= seq!["rev-parse"@, "--verify"@, "HEAD"@]);
        return CommitStep::Ask(args);
    }
    match git_text(&replies[0]) {
        Some(_) => CommitStep::Done(true),
        None => CommitStep::Done(false),
    }
}

/// How many lines of git's account of a project are shown.
pub const DETAIL_LIMIT: usize = 6;

/// Where reading the details of a project stands.
pub enum DetailStep {
    Ask(Vec<String>),
    Done(Vec<String>),
}

/// The first of some lines.
pub open spec fn first_lines(all: Seq<Seq<char>>) -> Seq<Seq<char>> {
    if all.len() <= DETAIL_LIMIT {
        all
    } else {
        all.take(DETAIL_LIMIT as int)
    }
}

/// The details shown of a project: the first changes that git lists, where
/// there is work in progress.
pub open spec fn details_of(status: Status, replies: Seq<GitReply>) -> Option<Seq<Seq<char>>> {
    if status != Status::Wip {
        Some(Seq::empty())
    } else if replies.len() == 0 {
        None
    } else {
        match given_text(replies[0]) {
            Some(t) => Some(first_lines(crate::text::lines_of(t))),
            None => Some(Seq::empty()),
        }
    }
}

/// The details shown of a project: the first changes that git lists, where
/// there is work in progress.
pub fn status_detail_lines(status: Status, replies: &[GitReply]) -> (step: DetailStep)
    ensures
        match details_of(status, replies@) {
            Some(d) => step is Done && crate::text::texts(step->Done_0@) == d,
            None => step is Ask && crate::text::texts(step->Ask_0@) == seq![
                "status"@,
                "--porcelain"@,
            ],
        },
{
    let mut out: Vec<String> = Vec::new();
    assert(crate::text::texts(out@) =~= Seq::<Seq<char>>::empty());
    if status != Status::Wip {
        return DetailStep::Done(out);
    }
    if replies.len() == 0 {
        let args = vec!["status".to_owned(), "--porcelain".to_owned()];
        assert(crate::text::texts(args@) =~= seq!["status"@, "--porcelain"@]);
        return DetailStep::Ask(args);
    }
    let text = match git_text(&replies[0]) {
        Some(t) => t,
        None => {
            return DetailStep::Done(out);
        },
    };
    let all = lines(text.as_str());
    let ghost shown = crate::text::texts(all@);
    let mut i: usize = 0;
    assert(crate::text::texts(out@) =~= shown.take(0));
    while i < all.len() && i < DETAIL_LIMIT
        invariant
            i <= all@.len(),
            i <= DETAIL_LIMIT,
            shown == crate::text::texts(all@),
            crate::text::texts(out@) == shown.take(i as int),
        decreases all@.len() - i,
    {
        let ghost before = crate::text::texts(out@);
        crate::text::push_line(&mut out, all[i].clone());
        i = i + 1;
        assert(before.push(shown[i - 1]) =~= shown.take(i as int));
    }
    assert(shown.take(i as int) =~= first_lines(shown));
    DetailStep::Done(out)
}

/// What the panels say of the tree and the remote.
pub open spec fn tree_and_remote(status: Status, committed: bool) -> (Seq<char>, Seq<char>) {
    match status {
        Status::Cleanable | Status::Clean => ("clean tree"@, "remote ✓ pushed"@),
        Status::Wip => ("uncommitted changes"@, "remote ✓"@),
        Status::Unpushed => if committed {
            ("local commits ahead"@, "remote ✗ not pushed"@)
        } else {
            ("no commits yet"@, "remote ✗ nothing pushed"@)
        },
        _ => ("local only"@, "remote ✗ none"@),
    }
}

/// The line under a panel's header: the branch, the tree and the remote.
pub open spec fn branch_line(branch: Seq<char>, status: Status, committed: bool) -> Seq<char> {
    if status == Status::NoGit {
        "-"@
    } else {
        branch + " · "@ + tree_and_remote(status, committed).0 + " · "@ + tree_and_remote(
            status,
            committed,
        ).1
    }
}

/// The line under a panel's header: the branch, the tree and the remote, and
/// of these only what is certain.
pub fn format_branch_state(branch: &str, status: Status, committed: bool) -> (out: String)
    ensures
        out@ == branch_line(branch@, status, committed),
{
    let (tree, remote) = match status {
        Status::Cleanable | Status::Clean => ("clean tree", "remote ✓ pushed"),
        Status::Wip => ("uncommitted changes", "remote ✓"),
        Status::Unpushed => if committed {
            ("local commits ahead", "remote ✗ not pushed")
        } else {
            ("no commits yet", "remote ✗ nothing pushed")
        },
        Status::NoRemote => ("local only", "remote ✗ none"),
        Status::NoGit => {
            return "-".to_owned();
        },
    };
    let mut out = cat3(branch, " · ", tree);
    out.append(" · ");
    out.append(remote);
    out
}

/// The branch labels of the projects of a run, each read at most once.
pub struct BranchLabels {
    labels: Vec<Option<String>>,
}

impl BranchLabels {
    /// The labels, as far as they are known.
    pub closed spec fn known(&self) -> Seq<Option<Seq<char>>> {
        self.labels@.map_values(|l: Option<String>| crate::text::opt_text(l))
    }

    /// Labels for `len` projects, none of them known.
    pub fn new(len: usize) -> (b: Self)
        ensures
            b.known() == Seq::new(len as nat, |i: int| None::<Seq<char>>),
    {
        let mut labels: Vec<Option<String>> = Vec::new();
        let mut i: usize = 0;
        while i < len
            invariant
                i <= len,
                labels@.len() == i,
                forall|k: int| 0 <= k < i ==> (#[trigger] labels@[k]) is None,
            decreases len - i,
        {
            labels.push(None);
            i = i + 1;
        }
        let b = BranchLabels { labels };
        assert(b.known() =~= Seq::new(len as nat, |i: int| None::<Seq<char>>));
        b
    }

    /// Takes over labels that were read elsewhere.
    pub fn seed(&mut self, labels: Vec<String>)
        ensures
            final(self).known() == crate::text::texts(labels@).map_values(
                |l: Seq<char>| Some(l),
            ),
    {
        let ghost all = crate::text::texts(labels@).map_values(|l: Seq<char>| Some(l));
        let mut seeded: Vec<Option<String>> = Vec::new();
        let mut i: usize = 0;
        while i < labels.len()
            invariant
                i <= labels@.len(),
                all == crate::text::texts(labels@).map_values(|l: Seq<char>| Some(l)),
                seeded@.len() == i,
                forall|k: int|
                    0 <= k < i ==> crate::text::opt_text(#[trigger] seeded@[k]) == all[k],
            decreases labels@.len() - i,
        {
            seeded.push(Some(labels[i].clone()));
            i = i + 1;
        }
        self.labels = seeded;
        assert(self.known() =~= all);
    }

    /// The label of a project, if it is known.
    pub fn get(&self, idx: usize) -> (r: Option<String>)
        ensures
            crate::text::opt_text(r) == if idx < self.known().len() {
                self.known()[idx as int]
            } else {
                None
            },
    {
        if idx < self.labels.len() {
            match &self.labels[idx] {
                Some(l) => Some(l.clone()),
                None => None,
            }
        } else {
            None
        }
    }

    /// Keeps a label that was read. One beyond the projects of the run is not
    /// kept.
    pub fn learn(&mut self, idx: usize, label: &str)
        ensures
            final(self).known() == if idx < old(self).known().len() {
                old(self).known().update(idx as int, Some(label@))
            } else {
                old(self).known()
            },
    {
        if idx < self.labels.len() {
            let ghost before = self.known();
            let owned: String = label.to_owned();
            self.labels.set(idx, Some(owned));
            assert(self.known() =~= before.update(idx as int, Some(label@)));
        }
    }
}

/// A branch is called by its name; without one by its commit, marked as detached; without
/// either, and outside git, by a dash. Replies that are blank or failed count as none.
pub proof fn branches_are_called_by_name_or_commit(status: Status, replies: Seq<GitReply>)
    requires
        replies.len() >= 2,
        status != Status::NoGit,
    ensures
        given_text(replies[0]) is Some ==> branch_state(status, replies) == LabelState::Done(
            given_text(replies[0])->0,
        ),
        given_text(replies[0]) is None && given_text(replies[1]) is Some ==> branch_state(
            status,
            replies,
        ) == LabelState::Done("detached@"@ + given_text(replies[1])->0),
        given_text(replies[0]) is None && given_text(replies[1]) is None ==> branch_state(
            status,
            replies,
        ) == LabelState::Done("-"@),
        branch_state(Status::NoGit, replies) == LabelState::Done("-"@),
        changed_state(Status::NoGit, replies) == LabelState::Done("-"@),
        given_text(replies[0]) is Some ==> changed_state(status, replies) == LabelState::Done(
            given_text(replies[0])->0,
        ),
        given_text(replies[0]) is None ==> changed_state(status, replies) == LabelState::Done("-"@),
{
}

/// What git gave is its output without the white space around it, unless that leaves
/// nothing; a failure gives nothing.
pub proof fn only_output_that_is_not_blank_counts(out: String, code: i32, stderr: String, e: String)
    ensures
        given_text(GitReply::Output(Some(out))) is None <==> crate::classify::is_blank(out@),
        !crate::classify::is_blank(out@) ==> given_text(GitReply::Output(Some(out))) == Some(
            crate::text::trimmed(out@),
        ),
        given_text(GitReply::Output(None)) is None,
        given_text(GitReply::Refused { code, stderr }) is None,
        given_text(GitReply::NotRun(e)) is None,
{
    let r = crate::text::trimming_takes_off_white_ends(out@);
}

/// Only an unpushed project can be without commits, and then git's answer decides; only
/// work in progress has details, and those are the first lines of git's account, six at
/// most, in order.
pub proof fn commits_and_details_are_asked_for_where_they_matter(
    status: Status,
    replies: Seq<GitReply>,
)
    requires
        replies.len() > 0,
    ensures
        commit_state(status, replies) == Some(
            status != Status::Unpushed || given_text(replies[0]) is Some,
        ),
        status != Status::Wip || given_text(replies[0]) is None ==> details_of(status, replies)
            == Some(Seq::<Seq<char>>::empty()),
        status == Status::Wip && given_text(replies[0]) is Some ==> {
            let all = crate::text::lines_of(given_text(replies[0])->0);
            details_of(status, replies) == Some(
                all.take(
                    if all.len() < 6 {
                        all.len() as int
                    } else {
                        6
                    },
                ),
            )
        },
{
    if given_text(replies[0]) is Some {
        let all = crate::text::lines_of(given_text(replies[0])->0);
        assert(all.take(all.len() as int) =~= all);
    }
}

/// The details of a project are the first lines that git gave of a project with work in
/// progress, six at most.
pub proof fn details_are_the_first_lines(all: Seq<Seq<char>>)
    ensures
        first_lines(all).is_prefix_of(all),
        first_lines(all).len() == if all.len() < 6 {
            all.len()
        } else {
            6
        },
{
    assert(first_lines(all) =~= all.subrange(0, first_lines(all).len() as int));
}

/// A branch line has a tick for the remote exactly if everything committed is there.
pub proof fn a_tick_means_pushed(status: Status, committed: bool)
    ensures
        "remote ✓"@.is_prefix_of(tree_and_remote(status, committed).1) <==> status
            == Status::Cleanable || status == Status::Clean || status == Status::Wip,
        tree_and_remote(status, committed).0 == "clean tree"@ <==> status == Status::Cleanable
            || status == Status::Clean,
{
    reveal_strlit("remote ✓");
    reveal_strlit("remote ✓ pushed");
    reveal_strlit("remote ✗ not pushed");
    reveal_strlit("remote ✗ nothing pushed");
    reveal_strlit("remote ✗ none");
    reveal_strlit("clean tree");
    reveal_strlit("uncommitted changes");
    reveal_strlit("local commits ahead");
    reveal_strlit("no commits yet");
    reveal_strlit("local only");
    let (tree, remote) = tree_and_remote(status, committed);
    assert("remote ✓"@[7] == '✓');
    if status == Status::Cleanable || status == Status::Clean || status == Status::Wip {
        assert("remote ✓"@ =~= remote.subrange(0, 8));
    } else {
        assert(remote[7] == '✗');
    }
    assert(tree == "clean tree"@ ==> tree.len() == 10 && tree[0] == 'c');
}

} // verus!
