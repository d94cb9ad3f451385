//! The cleaning engine: what is untracked, what may go, and what `git clean`
//! is told to leave alone.
//!
//! Every untracked item gets one of three classifications. `Protected` items
//! match an ignore rule and are never removed; `Safe` items match the
//! safe-to-delete catalog and go without asking; everything else is
//! `Surfaced` and goes only with the user's approval (or `--force`).
//!
//! Removal is left to `git clean -xfd`. What must stay is handed to it as
//! exclusions: one pattern per item, anchored at the project root and escaped
//! so that it matches that path and no other.
//!
//! Git itself is run by the caller. The functions here say which listings they
//! need and what to run, and take git's output as text.

use vstd::prelude::*;

use crate::ignore_rules::IgnoreSet;
use crate::paths::{contains_path, has_root};
use crate::safelist::SafeSet;
use crate::text::{chars_of, len_without_trailing, signed_text, split_non_empty, starts_with, string_of};

verus! {

/// What is to become of an untracked item.
#[derive(Debug, Clone, Copy, PartialEq, Eq, Structural)]
pub enum Classification {
    /// An ignore rule matches it (or its path is absolute): never removed.
    Protected,
    /// The safe-to-delete catalog covers it: removed without asking.
    Safe,
    /// Neither: removed only with approval.
    Surfaced,
}

/// One untracked item.
#[derive(Debug, Clone)]
pub struct CleanItem {
    /// The path relative to the project root, without a trailing `/`.
    pub rel_path: String,
    /// Whether the item is a directory.
    pub is_dir: bool,
    /// What is to become of it.
    pub classification: Classification,
}

/// The value of a [`CleanItem`].
pub struct Item {
    pub rel_path: Seq<char>,
    pub is_dir: bool,
    pub classification: Classification,
}

impl View for CleanItem {
    type V = Item;

    open spec fn view(&self) -> Item {
        Item {
            rel_path: self.rel_path@,
            is_dir: self.is_dir,
            classification: self.classification,
        }
    }
}

/// The values of a sequence of items.
pub open spec fn item_views(items: Seq<CleanItem>) -> Seq<Item> {
    items.map_values(|i: CleanItem| i@)
}

/// Copies an item.
pub fn copy_item(item: &CleanItem) -> (out: CleanItem)
    ensures
        out@ == item@,
{
    CleanItem {
        rel_path: item.rel_path.clone(),
        is_dir: item.is_dir,
        classification: item.classification,
    }
}

/// Copies a list of items.
pub fn copy_items(items: &[CleanItem]) -> (out: Vec<CleanItem>)
    ensures
        item_views(out@) == item_views(items@),
{
    let mut out: Vec<CleanItem> = Vec::new();
    let ghost all = item_views(items@);
    let mut i: usize = 0;
    assert(item_views(out@) =~= all.take(0));
    while i < items.len()
        invariant
            i <= items@.len(),
            all == item_views(items@),
            item_views(out@) == all.take(i as int),
        decreases items@.len() - i,
    {
        let ghost before = item_views(out@);
        out.push(copy_item(&items[i]));
        assert(item_views(out@) =~= before.push(all[i as int]));
        i = i + 1;
        assert(before.push(all[i - 1]) =~= all.take(i as int));
    }
    assert(all.take(i as int) =~= all);
    out
}

/// Whether a gitignore pattern reads `c` as more than itself.
pub open spec fn is_glob_char(c: char) -> bool {
    c == '\\' || c == '*' || c == '?' || c == '[' || c == ']'
}

/// `s` with a backslash before every character that a pattern would read as
/// more than itself.
pub open spec fn escaped(s: Seq<char>) -> Seq<char>
    decreases s.len(),
{
    if s.len() == 0 {
        Seq::empty()
    } else {
        let before = escaped(s.drop_last());
        if is_glob_char(s.last()) {
            before.push('\\').push(s.last())
        } else {
            before.push(s.last())
        }
    }
}

/// `n` spaces, each with a backslash before it.
pub open spec fn escaped_spaces(n: nat) -> Seq<char>
    decreases n,
{
    if n == 0 {
        Seq::empty()
    } else {
        escaped_spaces((n - 1) as nat).push('\\').push(' ')
    }
}

/// The pattern that excludes exactly the path `p`: anchored by a leading `/`,
/// without trailing slashes, and with every special character escaped,
/// spaces at the end included.
pub open spec fn exclusion(p: Seq<char>) -> Seq<char> {
    let whole = crate::text::drop_trailing(p, '/');
    let stem = crate::text::drop_trailing(whole, ' ');
    seq!['/'] + escaped(stem) + escaped_spaces((whole.len() - stem.len()) as nat)
}

/// Whether an item must be left alone by a clean run.
pub open spec fn must_stay(item: Item, approved: Seq<Seq<char>>, force: bool) -> bool {
    match item.classification {
        Classification::Protected => true,
        Classification::Safe => false,
        Classification::Surfaced => !force && !crate::paths::holds_path(approved, item.rel_path),
    }
}

/// The exclusions for a list of items: one for each that must stay, in order.
/// (An empty path, which no item has, gives none.)
pub open spec fn exclusions_for(items: Seq<Item>, approved: Seq<Seq<char>>, force: bool) -> Seq<
    Seq<char>,
>
    decreases items.len(),
{
    if items.len() == 0 {
        Seq::empty()
    } else {
        let before = exclusions_for(items.drop_last(), approved, force);
        if must_stay(items.last(), approved, force) && items.last().rel_path.len() > 0 {
            before.push(exclusion(items.last().rel_path))
        } else {
            before
        }
    }
}

/// Appends the exclusion for `rel_path`, unless that is empty.
fn push_anchored(exclusions: &mut Vec<String>, rel_path: &str)
    ensures
        crate::text::texts(final(exclusions)@) == if rel_path@.len() > 0 {
            crate::text::texts(old(exclusions)@).push(exclusion(rel_path@))
        } else {
            crate::text::texts(old(exclusions)@)
        },
{
    if rel_path.is_empty() {
        return;
    }
    let all = chars_of(rel_path);
    let n = len_without_trailing(&all, '/');
    let whole = chars_of(string_of(&all, 0, n).as_str());
    assert(all@.subrange(0, n as int) =~= all@.take(n as int));
    let m = len_without_trailing(&whole, ' ');
    let ghost stem = crate::text::drop_trailing(whole@, ' ');
    let mut out = String::new();
    out.push('/');
    let mut i: usize = 0;
    assert(out@ =~= seq!['/'] + escaped(stem.take(0)));
    while i < m
        invariant
            i <= m <= whole@.len(),
            stem == whole@.take(m as int),
            out@ == seq!['/'] + escaped(stem.take(i as int)),
        decreases m - i,
    {
        let c = whole[i];
        let ghost before = out@;
        assert(stem.take(i + 1).drop_last() =~= stem.take(i as int));
        assert(stem.take(i + 1).last() == c);
        if c == '\\' || c == '*' || c == '?' || c == '[' || c == ']' {
            out.push('\\');
        }
        out.push(c);
        assert(out@ =~= seq!['/'] + escaped(stem.take(i + 1)));
        i = i + 1;
    }
    assert(stem.take(i as int) =~= stem);
    let ghost head = out@;
    let spaces: usize = whole.len() - m;
    let mut k: usize = 0;
    assert(out@ =~= head + escaped_spaces(0));
    while k < spaces
        invariant
            k <= spaces,
            out@ == head + escaped_spaces(k as nat),
        decreases spaces - k,
    {
        out.push('\\');
        out.push(' ');
        k = k + 1;
        assert(out@ =~= head + escaped_spaces(k as nat));
    }
    let ghost had = crate::text::texts(exclusions@);
    exclusions.push(out);
    assert(crate::text::texts(exclusions@) =~= had.push(exclusion(rel_path@)));
}

/// The exclusions (`-e` patterns) for `git clean`: one for every protected
/// item and for every surfaced item that is not approved. Safe items, approved
/// ones and, under `force`, every surfaced one get none.
pub fn build_exclusions(items: &[CleanItem], approved: &Vec<String>, force: bool) -> (out: Vec<
    String,
>)
    ensures
        crate::text::texts(out@) == exclusions_for(
            item_views(items@),
            crate::text::texts(approved@),
            force,
        ),
{
    let mut out: Vec<String> = Vec::new();
    let ghost all = item_views(items@);
    let ghost ok = crate::text::texts(approved@);
    let mut i: usize = 0;
    assert(crate::text::texts(out@) =~= exclusions_for(all.take(0), ok, force));
    while i < items.len()
        invariant
            i <= items@.len(),
            all == item_views(items@),
            ok == crate::text::texts(approved@),
            crate::text::texts(out@) == exclusions_for(all.take(i as int), ok, force),
        decreases items@.len() - i,
    {
        let item = &items[i];
        assert(all.take(i + 1).drop_last() =~= all.take(i as int));
        assert(all.take(i + 1).last() == item@);
        match item.classification {
            Classification::Protected => {
                push_anchored(&mut out, item.rel_path.as_str());
            },
            Classification::Safe => {},
            Classification::Surfaced => {
                if force || contains_path(approved, item.rel_path.as_str()) {
                } else {
                    push_anchored(&mut out, item.rel_path.as_str());
                }
            },
        }
        i = i + 1;
    }
    assert(all.take(i as int) =~= all);
    out
}

/// The entries of a NUL-separated listing.
pub open spec fn entries_of(listing: Seq<char>) -> Seq<Seq<char>> {
    crate::text::non_empty(crate::text::split_on(listing, '\0'))
}

/// The path of an entry: a directory is listed with a trailing `/`.
pub open spec fn entry_path(entry: Seq<char>) -> Seq<char> {
    if entry.len() > 0 && entry.last() == '/' {
        entry.drop_last()
    } else {
        entry
    }
}

/// Whether an entry is a directory.
pub open spec fn entry_is_dir(entry: Seq<char>) -> bool {
    entry.len() > 0 && entry.last() == '/'
}

/// Whether every entry of a listing can be matched against rules.
pub open spec fn listing_ok(listing: Seq<char>) -> bool {
    forall|i: int|
        0 <= i < entries_of(listing).len() ==> !seq!['.', '/', '/', '/'].is_prefix_of(
            #[trigger] entries_of(listing)[i],
        )
}

/// Whether every entry of every listing can be matched against rules.
pub open spec fn listings_ok(listings: Seq<Result<String, String>>) -> bool {
    forall|i: int|
        0 <= i < listings.len() ==> (#[trigger] listings[i] matches Ok(text) ==> listing_ok(text@))
}

/// The rules that untracked items are judged by.
pub struct Rules {
    pub ignore: Seq<crate::ignore_rules::LayerRules>,
    pub safe: Seq<Seq<char>>,
}

/// What is decided about one entry: its classification, or that a directory
/// has to be judged file by file.
pub enum Judgement {
    Settled(Classification),
    PerFile,
}

/// How one entry is judged. An absolute path is protected whatever the rules
/// say; a directory that is neither protected nor safe as a whole is judged
/// file by file.
pub open spec fn judged(rules: Rules, path: Seq<char>, is_dir: bool) -> Judgement {
    if crate::paths::rooted(path) || crate::ignore_rules::ignores(rules.ignore, path, is_dir) {
        Judgement::Settled(Classification::Protected)
    } else if crate::safelist::safe_by(rules.safe, path, is_dir) {
        Judgement::Settled(Classification::Safe)
    } else if is_dir {
        Judgement::PerFile
    } else {
        Judgement::Settled(Classification::Surfaced)
    }
}

/// The item for a file.
pub open spec fn file_item(rules: Rules, path: Seq<char>) -> Item {
    Item {
        rel_path: path,
        is_dir: false,
        classification: match judged(rules, path, false) {
            Judgement::Settled(c) => c,
            Judgement::PerFile => Classification::Surfaced,
        },
    }
}

/// The items for the files of a directory's listing.
pub open spec fn file_items(rules: Rules, listing: Seq<char>) -> Seq<Item> {
    entries_of(listing).map_values(|e: Seq<char>| file_item(rules, e))
}

/// How far an enumeration has come.
pub enum Progress {
    /// Every entry so far is classified.
    Going,
    /// A listing failed with this message.
    Failed(Seq<char>),
    /// The files of this directory have to be listed.
    Needs(Seq<char>),
}

/// The state of an enumeration: the items so far, how many of the directory
/// listings were used, and whether it can go on.
pub struct Enumerated {
    pub items: Seq<Item>,
    pub used: nat,
    pub progress: Progress,
}

/// The text that a directory listing gave.
pub open spec fn reply_text(r: Result<String, String>) -> Result<Seq<char>, Seq<char>> {
    match r {
        Ok(s) => Ok(s@),
        Err(e) => Err(e@),
    }
}

/// The enumeration of `entries`, where `subtrees` are the listings of the
/// directories that are judged file by file, in the order they come up. Such a
/// directory without any files is itself surfaced.
pub open spec fn enumerated(
    rules: Rules,
    entries: Seq<Seq<char>>,
    subtrees: Seq<Result<Seq<char>, Seq<char>>>,
) -> Enumerated
    decreases entries.len(),
{
    if entries.len() == 0 {
        Enumerated { items: Seq::empty(), used: 0, progress: Progress::Going }
    } else {
        let before = enumerated(rules, entries.drop_last(), subtrees);
        let path = entry_path(entries.last());
        let is_dir = entry_is_dir(entries.last());
        if before.progress != Progress::Going {
            before
        } else {
            match judged(rules, path, is_dir) {
                Judgement::Settled(classification) => Enumerated {
                    items: before.items.push(Item { rel_path: path, is_dir, classification }),
                    used: before.used,
                    progress: Progress::Going,
                },
                Judgement::PerFile => if before.used >= subtrees.len() {
                    Enumerated {
                        items: before.items,
                        used: before.used,
                        progress: Progress::Needs(path),
                    }
                } else {
                    match subtrees[before.used as int] {
                        Err(e) => Enumerated {
                            items: before.items,
                            used: before.used,
                            progress: Progress::Failed(e),
                        },
                        Ok(listing) => Enumerated {
                            items: before.items + if entries_of(listing).len() == 0 {
                                seq![
                                    Item {
                                        rel_path: path,
                                        is_dir,
                                        classification: Classification::Surfaced,
                                    },
                                ]
                            } else {
                                file_items(rules, listing)
                            },
                            used: before.used + 1,
                            progress: Progress::Going,
                        },
                    }
                },
            }
        }
    }
}

/// The outcome of an enumeration.
pub enum Enumeration {
    /// Every untracked item, classified.
    Items(Vec<CleanItem>),
    /// Listing failed with this message; nothing may be removed.
    Failed(String),
    /// The files of this directory have to be listed first (see
    /// [`subtree_listing_args`]).
    NeedsListing(String),
}

/// Whether an outcome is the one that the state of an enumeration calls for.
pub open spec fn outcome_of(out: Enumeration, state: Enumerated) -> bool {
    match state.progress {
        Progress::Going => out is Items && item_views(out->Items_0@) == state.items,
        Progress::Failed(e) => out is Failed && out->Failed_0@ == e,
        Progress::Needs(dir) => out is NeedsListing && out->NeedsListing_0@ == dir,
    }
}

/// The enumeration that a listing of a project's untracked entries calls for.
pub open spec fn enumeration_of(
    rules: Rules,
    listing: Result<String, String>,
    subtrees: Seq<Result<String, String>>,
) -> Enumerated {
    match listing {
        Ok(text) => enumerated(
            rules,
            entries_of(text@),
            subtrees.map_values(|r: Result<String, String>| reply_text(r)),
        ),
        Err(e) => Enumerated { items: Seq::empty(), used: 0, progress: Progress::Failed(e@) },
    }
}

/// The rules of an ignore set and a catalog.
pub open spec fn rules_in(ignore_set: IgnoreSet, safe_set: SafeSet) -> Rules {
    Rules { ignore: ignore_set.layers(), safe: safe_set.pattern_texts() }
}

/// Whether every entry of a listing can be matched against rules. A listing
/// that fails this must not be handed to the functions below.
pub fn is_listing_ok(listing: &str) -> (r: bool)
    ensures
        r == listing_ok(listing@),
{
    let entries = split_non_empty(listing, '\0');
    let ghost all = entries_of(listing@);
    let mut i: usize = 0;
    proof {
        reveal_strlit(".///");
        assert(".///"@ =~= seq!['.', '/', '/', '/']);
    }
    assert(all.len() == entries@.len());
    while i < entries.len()
        invariant
            i <= entries@.len(),
            all == entries_of(listing@),
            all == crate::text::texts(entries@),
            ".///"@ == seq!['.', '/', '/', '/'],
            forall|k: int|
                0 <= k < i ==> !seq!['.', '/', '/', '/'].is_prefix_of(#[trigger] all[k]),
        decreases entries@.len() - i,
    {
        assert(all[i as int] == entries@[i as int]@);
        if starts_with(&chars_of(entries[i].as_str()), ".///") {
            assert(seq!['.', '/', '/', '/'].is_prefix_of(entries_of(listing@)[i as int]));
            return false;
        }
        i = i + 1;
    }
    true
}

/// Judges one path.
fn judge(path: &str, is_dir: bool, ignore_set: &IgnoreSet, safe_set: &SafeSet) -> (r: Option<
    Classification,
>)
    requires
        crate::paths::rooted(path@) || crate::ignore_rules::matchable(path@),
    ensures
        judged(rules_in(*ignore_set, *safe_set), path@, is_dir) == match r {
            Some(c) => Judgement::Settled(c),
            None => Judgement::PerFile,
        },
{
    if has_root(path) {
        return Some(Classification::Protected);
    }
    if ignore_set.is_ignored_path(path, is_dir) {
        return Some(Classification::Protected);
    }
    if safe_set.is_safe_to_delete(path, is_dir) {
        return Some(Classification::Safe);
    }
    if is_dir {
        None
    } else {
        Some(Classification::Surfaced)
    }
}

pub(crate) proof fn lemma_entry_matchable(entry: Seq<char>)
    requires
        !seq!['.', '/', '/', '/'].is_prefix_of(entry),
    ensures
        crate::paths::rooted(entry) || crate::ignore_rules::matchable(entry),
        crate::paths::rooted(entry_path(entry)) || crate::ignore_rules::matchable(
            entry_path(entry),
        ),
{
    let dots = seq!['.', '/', '/', '/'];
    let p = entry_path(entry);
    if dots.is_prefix_of(p) {
        assert(dots =~= entry.subrange(0, 4));
    }
}

/// The items for the files of a directory, each judged by itself.
fn enumerate_subtree_files(listing: &str, ignore_set: &IgnoreSet, safe_set: &SafeSet) -> (out: Vec<
    CleanItem,
>)
    requires
        listing_ok(listing@),
    ensures
        item_views(out@) == file_items(rules_in(*ignore_set, *safe_set), listing@),
{
    let entries = split_non_empty(listing, '\0');
    let ghost all = entries_of(listing@);
    let ghost rules = rules_in(*ignore_set, *safe_set);
    let mut out: Vec<CleanItem> = Vec::new();
    let mut i: usize = 0;
    assert(item_views(out@) =~= file_items(rules, listing@).take(0));
    while i < entries.len()
        invariant
            i <= entries@.len(),
            all == entries_of(listing@),
            all == crate::text::texts(entries@),
            rules == rules_in(*ignore_set, *safe_set),
            listing_ok(listing@),
            item_views(out@) == file_items(rules, listing@).take(i as int),
        decreases entries@.len() - i,
    {
        assert(all[i as int] == entries@[i as int]@);
        proof {
            lemma_entry_matchable(entries_of(listing@)[i as int]);
        }
        let c = match judge(entries[i].as_str(), false, ignore_set, safe_set) {
            Some(c) => c,
            None => Classification::Surfaced,
        };
        let ghost before = item_views(out@);
        let item = CleanItem { rel_path: entries[i].clone(), is_dir: false, classification: c };
        assert(item@ == file_item(rules, all[i as int]));
        out.push(item);
        assert(item_views(out@) =~= before.push(file_item(rules, all[i as int])));
        i = i + 1;
        assert(item_views(out@) =~= file_items(rules, listing@).take(i as int));
    }
    assert(all.len() == entries@.len());
    assert(file_items(rules, listing@).take(i as int) =~= file_items(rules, listing@));
    out
}

proof fn lemma_stopped(
    rules: Rules,
    entries: Seq<Seq<char>>,
    subtrees: Seq<Result<Seq<char>, Seq<char>>>,
    n: int,
)
    requires
        0 <= n <= entries.len(),
        enumerated(rules, entries.take(n), subtrees).progress != Progress::Going,
    ensures
        enumerated(rules, entries, subtrees) == enumerated(rules, entries.take(n), subtrees),
    decreases entries.len(),
{
    if n < entries.len() {
        assert(entries.drop_last().take(n) =~= entries.take(n));
        lemma_stopped(rules, entries.drop_last(), subtrees, n);
    } else {
        assert(entries.take(n) =~= entries);
    }
}

/// Enumerates and classifies a project's untracked items.
///
/// `listing` is the output of `git` with [`untracked_listing_args`], or its
/// error; `subtrees` are those of [`subtree_listing_args`] for the directories
/// asked for by earlier calls, in order. A failed listing fails the whole
/// enumeration, so that nothing is removed on a partial view.
pub fn enumerate_untracked(
    listing: &Result<String, String>,
    subtrees: &[Result<String, String>],
    ignore_set: &IgnoreSet,
    safe_set: &SafeSet,
) -> (out: Enumeration)
    requires
        *listing matches Ok(text) ==> listing_ok(text@),
        listings_ok(subtrees@),
    ensures
        outcome_of(out, enumeration_of(rules_in(*ignore_set, *safe_set), *listing, subtrees@)),
{
    let text = match listing {
        Ok(text) => text,
        Err(e) => {
            return Enumeration::Failed(e.clone());
        },
    };
    let entries = split_non_empty(text.as_str(), '\0');
    let ghost rules = rules_in(*ignore_set, *safe_set);
    let ghost all = entries_of(text@);
    let ghost subs = subtrees@.map_values(|r: Result<String, String>| reply_text(r));
    let mut items: Vec<CleanItem> = Vec::new();
    let mut used: usize = 0;
    let mut i: usize = 0;
    assert(all.take(0) =~= Seq::<Seq<char>>::empty());
    assert(item_views(items@) =~= Seq::<Item>::empty());
    while i < entries.len()
        invariant
            i <= entries@.len(),
            used <= subtrees@.len(),
            all == entries_of(text@),
            all == crate::text::texts(entries@),
            rules == rules_in(*ignore_set, *safe_set),
            subs == subtrees@.map_values(|r: Result<String, String>| reply_text(r)),
            listing_ok(text@),
            listings_ok(subtrees@),
            *listing == Ok::<String, String>(*text),
            enumerated(rules, all.take(i as int), subs) == (Enumerated {
                items: item_views(items@),
                used: used as nat,
                progress: Progress::Going,
            }),
        decreases entries@.len() - i,
    {
        assert(all[i as int] == entries@[i as int]@);
        assert(all.take(i + 1).drop_last() =~= all.take(i as int));
        assert(all.take(i + 1).last() == entries@[i as int]@);
        proof {
            lemma_entry_matchable(entries_of(text@)[i as int]);
        }
        let chars = chars_of(entries[i].as_str());
        let n = chars.len();
        let is_dir = n > 0 && chars[n - 1] == '/';
        let path = if is_dir {
            string_of(&chars, 0, n - 1)
        } else {
            entries[i].clone()
        };
        assert(path@ =~= entry_path(all[i as int]));
        let ghost before = item_views(items@);
        match judge(path.as_str(), is_dir, ignore_set, safe_set) {
            Some(classification) => {
                let item = CleanItem { rel_path: path, is_dir, classification };
                let ghost v = item@;
                items.push(item);
                assert(item_views(items@) =~= before.push(v));
            },
            None => {
                if used >= subtrees.len() {
                    proof {
                        lemma_stopped(rules, all, subs, i + 1);
                    }
                    return Enumeration::NeedsListing(path);
                }
                assert(subs[used as int] == reply_text(subtrees@[used as int]));
                match &subtrees[used] {
                    Err(e) => {
                        proof {
                            lemma_stopped(rules, all, subs, i + 1);
                        }
                        return Enumeration::Failed(e.clone());
                    },
                    Ok(files) => {
                        let mut found = enumerate_subtree_files(
                            files.as_str(),
                            ignore_set,
                            safe_set,
                        );
                        let ghost fv = item_views(found@);
                        assert(fv.len() == found@.len());
                        assert(fv.len() == entries_of(files@).len());
                        if found.len() == 0 {
                            let item = CleanItem {
                                rel_path: path,
                                is_dir,
                                classification: Classification::Surfaced,
                            };
                            let ghost v = item@;
                            items.push(item);
                            assert(item_views(items@) =~= before + seq![v]);
                        } else {
                            items.append(&mut found);
                            assert(item_views(items@) =~= before + fv);
                        }
                        used = used + 1;
                    },
                }
            },
        }
        i = i + 1;
    }
    assert(all.len() == entries@.len());
    assert(all.take(i as int) =~= all);
    Enumeration::Items(items)
}

/// The preview of a clean run: the untracked items, classified. Nothing is
/// removed.
pub fn dry_run(
    listing: &Result<String, String>,
    subtrees: &[Result<String, String>],
    ignore_set: &IgnoreSet,
    safe_set: &SafeSet,
) -> (out: Enumeration)
    requires
        *listing matches Ok(text) ==> listing_ok(text@),
        listings_ok(subtrees@),
    ensures
        outcome_of(out, enumeration_of(rules_in(*ignore_set, *safe_set), *listing, subtrees@)),
{
    enumerate_untracked(listing, subtrees, ignore_set, safe_set)
}

/// The surfaced items that still need approval.
pub open spec fn unapproved(items: Seq<Item>, approved: Seq<Seq<char>>, force: bool) -> Seq<Item>
    decreases items.len(),
{
    if items.len() == 0 {
        Seq::empty()
    } else {
        let before = unapproved(items.drop_last(), approved, force);
        if items.last().classification == Classification::Surfaced && must_stay(
            items.last(),
            approved,
            force,
        ) {
            before.push(items.last())
        } else {
            before
        }
    }
}

/// The arguments of the `git clean` run that leaves `exclusions` alone.
pub open spec fn clean_command(exclusions: Seq<Seq<char>>) -> Seq<Seq<char>>
    decreases exclusions.len(),
{
    if exclusions.len() == 0 {
        seq!["clean"@, "-xfd"@]
    } else {
        clean_command(exclusions.drop_last()).push("-e"@).push(exclusions.last())
    }
}

/// What a clean run comes to.
pub enum CleanStep {
    /// The files of this directory have to be listed first.
    NeedsListing(String),
    /// Listing failed; nothing may be removed.
    Failed(String),
    /// Run git with `command` (nothing, in a dry run); `left` are the surfaced
    /// items that still need approval. A dry run removes nothing and so settles
    /// nothing: there `left` are all of them, unless force agrees to them.
    Ready { command: Option<Vec<String>>, left: Vec<CleanItem> },
}

/// The texts of an optional list of strings.
pub open spec fn opt_texts(o: Option<Vec<String>>) -> Option<Seq<Seq<char>>> {
    match o {
        Some(v) => Some(crate::text::texts(v@)),
        None => None,
    }
}

/// Plans the cleaning of a project: enumerates its untracked items as
/// [`enumerate_untracked`] does, and says what to run. `approved` are the
/// surfaced paths the user agreed to remove; `force` agrees to all of them;
/// `dry_run` runs nothing, and shows the full surfaced set whatever was
/// approved.
pub fn clean(
    listing: &Result<String, String>,
    subtrees: &[Result<String, String>],
    ignore_set: &IgnoreSet,
    safe_set: &SafeSet,
    approved: &Vec<String>,
    force: bool,
    dry_run: bool,
) -> (out: CleanStep)
    requires
        *listing matches Ok(text) ==> listing_ok(text@),
        listings_ok(subtrees@),
    ensures
        ({
            let state = enumeration_of(rules_in(*ignore_set, *safe_set), *listing, subtrees@);
            let ok = crate::text::texts(approved@);
            match state.progress {
                Progress::Going => out is Ready && opt_texts(out->command) == if dry_run {
                    None::<Seq<Seq<char>>>
                } else {
                    Some(clean_command(exclusions_for(state.items, ok, force)))
                } && item_views(out->left@) == unapproved(
                    state.items,
                    if dry_run {
                        Seq::<Seq<char>>::empty()
                    } else {
                        ok
                    },
                    force,
                ),
                Progress::Failed(e) => out is Failed && out->Failed_0@ == e,
                Progress::Needs(dir) => out is NeedsListing && out->NeedsListing_0@ == dir,
            }
        }),
{
    let items = match enumerate_untracked(listing, subtrees, ignore_set, safe_set) {
        Enumeration::Items(items) => items,
        Enumeration::Failed(e) => {
            return CleanStep::Failed(e);
        },
        Enumeration::NeedsListing(dir) => {
            return CleanStep::NeedsListing(dir);
        },
    };
    if dry_run {
        let nothing: Vec<String> = Vec::new();
        assert(crate::text::texts(nothing@) =~= Seq::<Seq<char>>::empty());
        let left = left_to_approve(items.as_slice(), &nothing, force);
        return CleanStep::Ready { command: None, left };
    }
    let exclusions = build_exclusions(items.as_slice(), approved, force);
    let left = left_to_approve(items.as_slice(), approved, force);
    CleanStep::Ready { command: Some(clean_args(exclusions.as_slice())), left }
}

/// The surfaced items that still need approval.
fn left_to_approve(items: &[CleanItem], approved: &Vec<String>, force: bool) -> (out: Vec<
    CleanItem,
>)
    ensures
        item_views(out@) == unapproved(item_views(items@), crate::text::texts(approved@), force),
{
    let mut out: Vec<CleanItem> = Vec::new();
    let ghost all = item_views(items@);
    let ghost ok = crate::text::texts(approved@);
    let mut i: usize = 0;
    assert(item_views(out@) =~= unapproved(all.take(0), ok, force));
    while i < items.len()
        invariant
            i <= items@.len(),
            all == item_views(items@),
            ok == crate::text::texts(approved@),
            item_views(out@) == unapproved(all.take(i as int), ok, force),
        decreases items@.len() - i,
    {
        assert(all.take(i + 1).drop_last() =~= all.take(i as int));
        assert(all.take(i + 1).last() == items@[i as int]@);
        let item = &items[i];
        if item.classification == Classification::Surfaced && !force && !contains_path(
            approved,
            item.rel_path.as_str(),
        ) {
            let ghost before = item_views(out@);
            out.push(copy_item(item));
            assert(item_views(out@) =~= before.push(item@));
        }
        i = i + 1;
    }
    assert(all.take(i as int) =~= all);
    out
}

/// The arguments of the `git clean` run that leaves `exclusions` alone.
///
/// Each exclusion follows an `-e` of its own, behind the command and its flags.
pub fn clean_args(exclusions: &[String]) -> (out: Vec<String>)
    ensures
        crate::text::texts(out@) == clean_command(crate::text::texts(exclusions@)),
        out@.len() == 2 + 2 * exclusions@.len(),
        forall|k: int|
            0 <= k < exclusions@.len() ==> crate::text::texts(out@.subrange(2 + 2 * k, 4 + 2 * k))
                == seq!["-e"@, #[trigger] exclusions@[k]@],
{
    let mut out: Vec<String> = Vec::new();
    out.push("clean".to_owned());
    out.push("-xfd".to_owned());
    let ghost all = crate::text::texts(exclusions@);
    let mut i: usize = 0;
    assert(crate::text::texts(out@) =~= clean_command(all.take(0)));
    while i < exclusions.len()
        invariant
            i <= exclusions@.len(),
            all == crate::text::texts(exclusions@),
            crate::text::texts(out@) == clean_command(all.take(i as int)),
        decreases exclusions@.len() - i,
    {
        assert(all.take(i + 1).drop_last() =~= all.take(i as int));
        let ghost before = crate::text::texts(out@);
        out.push("-e".to_owned());
        out.push(exclusions[i].clone());
        assert(crate::text::texts(out@) =~= before.push("-e"@).push(all[i as int]));
        i = i + 1;
    }
    assert(all.take(i as int) =~= all);
    proof {
        let ghost texts = crate::text::texts(out@);
        every_exclusion_reaches_git(all);
        assert(texts.len() == out@.len());
        assert forall|k: int| 0 <= k < exclusions@.len() implies crate::text::texts(
            out@.subrange(2 + 2 * k, 4 + 2 * k),
        ) == seq!["-e"@, #[trigger] exclusions@[k]@] by {
            assert(all[k] == exclusions@[k]@);
            assert(crate::text::texts(out@.subrange(2 + 2 * k, 4 + 2 * k)) =~= texts.subrange(
                2 + 2 * k,
                4 + 2 * k,
            ));
        }
    }
    out
}

/// The arguments of the listing of untracked entries. Files that the project
/// itself ignores are listed too, and so are empty directories; a directory
/// without tracked files is one entry.
pub fn untracked_listing_args() -> (out: Vec<String>)
    ensures
        crate::text::texts(out@) == seq!["ls-files"@, "--others"@, "--directory"@, "-z"@],
{
    let mut out: Vec<String> = Vec::new();
    out.push("ls-files".to_owned());
    out.push("--others".to_owned());
    out.push("--directory".to_owned());
    out.push("-z".to_owned());
    assert(crate::text::texts(out@) =~= seq!["ls-files"@, "--others"@, "--directory"@, "-z"@]);
    out
}

/// The arguments of the listing of the untracked files below `dir`.
pub fn subtree_listing_args(dir: &str) -> (out: Vec<String>)
    ensures
        crate::text::texts(out@) == seq!["ls-files"@, "--others"@, "-z"@, "--"@, dir@],
{
    let mut out: Vec<String> = Vec::new();
    out.push("ls-files".to_owned());
    out.push("--others".to_owned());
    out.push("-z".to_owned());
    out.push("--".to_owned());
    out.push(dir.to_owned());
    assert(crate::text::texts(out@) =~= seq!["ls-files"@, "--others"@, "-z"@, "--"@, dir@]);
    out
}

/// What came of running git.
pub enum GitReply {
    /// Git could not be started.
    NotRun(String),
    /// Git ran and failed with this exit code (-1 where a signal ended it) and
    /// this on its standard error.
    Refused { code: i32, stderr: String },
    /// Git succeeded; `None` where its output is not UTF-8.
    Output(Option<String>),
}

/// The output of a git command whose output names files to remove or keep, or
/// the message that stands in its way.
///
/// Output that is not UTF-8 is refused: an exclusion made from a mangled name
/// would not protect the file.
pub fn git_cmd(project_path: &str, args: &[String], reply: &GitReply) -> (r: Result<String, String>)
    ensures
        reply_text(r) == match *reply {
            GitReply::NotRun(e) => Err::<Seq<char>, Seq<char>>("git command failed: "@ + e@),
            GitReply::Refused { code, stderr } => Err(
                "git -C "@ + project_path@ + " "@ + crate::text::joined(
                    crate::text::texts(args@),
                    " "@,
                ) + " failed (exit "@ + crate::text::signed_decimal(code as int) + "): "@
                    + stderr@,
            ),
            GitReply::Output(None) => Err(
                "git -C "@ + project_path@ + " "@ + crate::text::joined(
                    crate::text::texts(args@),
                    " "@,
                ) + ": output contains non-UTF-8 path(s); refusing to clean this project"@,
            ),
            GitReply::Output(Some(out)) => Ok(out@),
        },
{
    match reply {
        GitReply::NotRun(e) => Err(crate::text::cat2("git command failed: ", e.as_str())),
        GitReply::Refused { code, stderr } => {
            let mut msg = command_text(project_path, args);
            msg.append(" failed (exit ");
            msg.append(signed_text(*code).as_str());
            msg.append("): ");
            msg.append(stderr.as_str());
            Err(msg)
        },
        GitReply::Output(None) => {
            let mut msg = command_text(project_path, args);
            msg.append(": output contains non-UTF-8 path(s); refusing to clean this project");
            Err(msg)
        },
        GitReply::Output(Some(out)) => Ok(out.clone()),
    }
}

fn command_text(project_path: &str, args: &[String]) -> (out: String)
    ensures
        out@ == "git -C "@ + project_path@ + " "@ + crate::text::joined(
            crate::text::texts(args@),
            " "@,
        ),
{
    let mut out = crate::text::cat3("git -C ", project_path, " ");
    out.append(crate::text::join(args, " ").as_str());
    out
}

/// Whether a `git clean` run succeeded, or the message that it failed with.
pub fn run_git_clean(reply: &GitReply) -> (r: Result<(), String>)
    ensures
        match *reply {
            GitReply::NotRun(e) => r is Err && r->Err_0@ == "git clean failed: "@ + e@,
            GitReply::Refused { code, stderr } => r is Err && r->Err_0@
                == "git clean failed (exit "@ + crate::text::signed_decimal(code as int) + "): "@
                + stderr@,
            GitReply::Output(_) => r is Ok,
        },
{
    match reply {
        GitReply::NotRun(e) => Err(crate::text::cat2("git clean failed: ", e.as_str())),
        GitReply::Refused { code, stderr } => {
            let mut msg = crate::text::cat3(
                "git clean failed (exit ",
                signed_text(*code).as_str(),
                "): ",
            );
            msg.append(stderr.as_str());
            Err(msg)
        },
        GitReply::Output(_) => Ok(()),
    }
}

/// A gitignore pattern read from the left: the text it matches, whether the
/// last character was a backslash that escapes the next one, and whether every
/// character so far stands for itself.
pub struct Reading {
    pub text: Seq<char>,
    pub escape: bool,
    pub literal: bool,
}

/// How git reads the characters of a pattern.
pub open spec fn reading(pattern: Seq<char>) -> Reading
    decreases pattern.len(),
{
    if pattern.len() == 0 {
        Reading { text: Seq::empty(), escape: false, literal: true }
    } else {
        let before = reading(pattern.drop_last());
        let c = pattern.last();
        if before.escape {
            Reading { text: before.text.push(c), escape: false, literal: before.literal }
        } else if c == '\\' {
            Reading { text: before.text, escape: true, literal: before.literal }
        } else {
            Reading {
                text: before.text.push(c),
                escape: false,
                literal: before.literal && c != '*' && c != '?' && c != '[' && c != ']',
            }
        }
    }
}

proof fn lemma_reading_escaped(a: Seq<char>, s: Seq<char>)
    requires
        !reading(a).escape,
    ensures
        reading(a + escaped(s)) == (Reading {
            text: reading(a).text + s,
            escape: false,
            literal: reading(a).literal,
        }),
    decreases s.len(),
{
    if s.len() == 0 {
        assert(a + escaped(s) =~= a);
        assert(reading(a).text + s =~= reading(a).text);
    } else {
        let t = s.drop_last();
        lemma_reading_escaped(a, t);
        let whole = a + escaped(s);
        let had = a + escaped(t);
        assert((reading(a).text + t).push(s.last()) =~= reading(a).text + s);
        if is_glob_char(s.last()) {
            let mid = had.push('\\');
            assert(whole =~= mid.push(s.last()));
            assert(whole.drop_last() =~= mid);
            assert(mid.drop_last() =~= had);
            assert(reading(mid) == (Reading {
                text: reading(a).text + t,
                escape: true,
                literal: reading(a).literal,
            }));
        } else {
            assert(whole =~= had.push(s.last()));
            assert(whole.drop_last() =~= had);
        }
        assert(whole.last() == s.last());
        assert(reading(whole).text =~= reading(a).text + s);
    }
}

proof fn lemma_reading_spaces(a: Seq<char>, n: nat)
    requires
        !reading(a).escape,
    ensures
        reading(a + escaped_spaces(n)) == (Reading {
            text: reading(a).text + crate::text::repeated(' ', n),
            escape: false,
            literal: reading(a).literal,
        }),
    decreases n,
{
    if n == 0 {
        assert(a + escaped_spaces(n) =~= a);
        assert(reading(a).text + crate::text::repeated(' ', n) =~= reading(a).text);
    } else {
        let m = (n - 1) as nat;
        lemma_reading_spaces(a, m);
        let had = a + escaped_spaces(m);
        let mid = had.push('\\');
        let whole = a + escaped_spaces(n);
        assert(whole =~= mid.push(' '));
        assert(whole.drop_last() =~= mid);
        assert(mid.drop_last() =~= had);
        assert(reading(mid) == (Reading {
            text: reading(a).text + crate::text::repeated(' ', m),
            escape: true,
            literal: reading(a).literal,
        }));
        assert(whole.last() == ' ');
        assert((reading(a).text + crate::text::repeated(' ', m)).push(' ') =~= reading(a).text
            + crate::text::repeated(' ', n));
    }
}

proof fn lemma_drop_trailing_rest(s: Seq<char>, c: char)
    ensures
        crate::text::drop_trailing(s, c).len() <= s.len(),
        crate::text::drop_trailing(s, c) + crate::text::repeated(
            c,
            (s.len() - crate::text::drop_trailing(s, c).len()) as nat,
        ) == s,
        crate::text::drop_trailing(s, c).len() > 0 ==> crate::text::drop_trailing(s, c).last()
            != c,
    decreases s.len(),
{
    let d = crate::text::drop_trailing(s, c);
    if s.len() > 0 && s.last() == c {
        lemma_drop_trailing_rest(s.drop_last(), c);
        assert(d + crate::text::repeated(c, (s.len() - d.len()) as nat) =~= s) by {
            assert(s =~= s.drop_last().push(c));
        }
    } else {
        assert(d + crate::text::repeated(c, 0) =~= s);
    }
}

/// An exclusion is read literally: it matches the path it was made for,
/// anchored at the project root, and nothing else. A space at its end is
/// escaped, so git does not trim it.
pub proof fn exclusion_is_literal(p: Seq<char>)
    ensures
        reading(exclusion(p)) == (Reading {
            text: seq!['/'] + crate::text::drop_trailing(p, '/'),
            escape: false,
            literal: true,
        }),
        exclusion(p).last() == ' ' ==> exclusion(p)[exclusion(p).len() - 2] == '\\',
{
    let whole = crate::text::drop_trailing(p, '/');
    let stem = crate::text::drop_trailing(whole, ' ');
    let n = (whole.len() - stem.len()) as nat;
    lemma_drop_trailing_rest(whole, ' ');
    let slash = seq!['/'];
    assert(slash.drop_last() =~= Seq::<char>::empty());
    assert(reading(Seq::<char>::empty()).text =~= Seq::<char>::empty());
    assert(slash.last() == '/');
    assert(reading(slash).text =~= slash);
    lemma_reading_escaped(slash, stem);
    lemma_reading_spaces(slash + escaped(stem), n);
    assert(slash + stem + crate::text::repeated(' ', n) =~= slash + whole);
    assert(exclusion(p) == slash + escaped(stem) + escaped_spaces(n));
    if n == 0 {
        assert(exclusion(p) =~= slash + escaped(stem));
        if stem.len() > 0 {
            assert(escaped(stem).last() == stem.last());
        } else {
            assert(exclusion(p) =~= slash);
        }
    } else {
        assert(exclusion(p).last() == ' ');
        assert(exclusion(p)[exclusion(p).len() - 2] == escaped_spaces(n)[escaped_spaces(n).len()
            - 2]);
    }
}

/// Paths that differ (trailing slashes aside) get different exclusions.
pub proof fn exclusions_tell_paths_apart(a: Seq<char>, b: Seq<char>)
    requires
        exclusion(a) == exclusion(b),
    ensures
        crate::text::drop_trailing(a, '/') == crate::text::drop_trailing(b, '/'),
{
    exclusion_is_literal(a);
    exclusion_is_literal(b);
    let x = seq!['/'] + crate::text::drop_trailing(a, '/');
    let y = seq!['/'] + crate::text::drop_trailing(b, '/');
    assert(x.skip(1) =~= crate::text::drop_trailing(a, '/'));
    assert(y.skip(1) =~= crate::text::drop_trailing(b, '/'));
}

/// Whatever must stay is excluded: every protected item, and every surfaced
/// one that is neither approved nor forced.
pub proof fn what_must_stay_is_excluded(
    items: Seq<Item>,
    approved: Seq<Seq<char>>,
    force: bool,
    i: int,
)
    requires
        0 <= i < items.len(),
        must_stay(items[i], approved, force),
        items[i].rel_path.len() > 0,
    ensures
        exclusions_for(items, approved, force).contains(exclusion(items[i].rel_path)),
    decreases items.len(),
{
    let list = exclusions_for(items, approved, force);
    if i == items.len() - 1 {
        assert(list.last() == exclusion(items[i].rel_path));
        assert(list[list.len() - 1] == exclusion(items[i].rel_path));
    } else {
        let front = exclusions_for(items.drop_last(), approved, force);
        what_must_stay_is_excluded(items.drop_last(), approved, force, i);
        let k = choose|k: int| 0 <= k < front.len() && front[k] == exclusion(items[i].rel_path);
        assert(list[k] == front[k]);
    }
}

/// A protected item is excluded whatever was approved and whether or not the
/// run is forced.
pub proof fn protected_items_are_always_excluded(
    items: Seq<Item>,
    approved: Seq<Seq<char>>,
    force: bool,
    i: int,
)
    requires
        0 <= i < items.len(),
        items[i].classification == Classification::Protected,
        items[i].rel_path.len() > 0,
    ensures
        exclusions_for(items, approved, force).contains(exclusion(items[i].rel_path)),
{
    what_must_stay_is_excluded(items, approved, force, i);
}

/// Nothing else is excluded: every exclusion belongs to an item that must
/// stay. Safe items and approved ones are left to `git clean`.
pub proof fn only_what_must_stay_is_excluded(
    items: Seq<Item>,
    approved: Seq<Seq<char>>,
    force: bool,
    k: int,
)
    requires
        0 <= k < exclusions_for(items, approved, force).len(),
    ensures
        exists|i: int|
            0 <= i < items.len() && must_stay(#[trigger] items[i], approved, force)
                && exclusions_for(items, approved, force)[k] == exclusion(items[i].rel_path),
    decreases items.len(),
{
    let list = exclusions_for(items, approved, force);
    let front = exclusions_for(items.drop_last(), approved, force);
    if k < front.len() {
        only_what_must_stay_is_excluded(items.drop_last(), approved, force, k);
        let i = choose|i: int|
            0 <= i < items.drop_last().len() && must_stay(
                #[trigger] items.drop_last()[i],
                approved,
                force,
            ) && front[k] == exclusion(items.drop_last()[i].rel_path);
        assert(must_stay(items[i], approved, force));
    } else {
        assert(must_stay(items[items.len() - 1], approved, force));
    }
}

/// Without `force`, a dry run shows every surfaced item, in order: what is left
/// where nothing counts as approved is the full surfaced set.
pub proof fn a_preview_shows_the_full_surfaced_set(items: Seq<Item>)
    ensures
        unapproved(items, Seq::empty(), false) == items.filter(
            |i: Item| i.classification == Classification::Surfaced,
        ),
    decreases items.len(),
{
    reveal(Seq::filter);
    if items.len() > 0 {
        a_preview_shows_the_full_surfaced_set(items.drop_last());
    }
}

/// Under `force` no surfaced item is left to approve.
pub proof fn force_leaves_nothing_to_approve(items: Seq<Item>, approved: Seq<Seq<char>>)
    ensures
        unapproved(items, approved, true) == Seq::<Item>::empty(),
    decreases items.len(),
{
    if items.len() > 0 {
        force_leaves_nothing_to_approve(items.drop_last(), approved);
    }
}

/// Whether the items account for one entry of a listing: the entry itself is
/// an item, or it is a directory whose files all are.
pub open spec fn accounted_for(
    rules: Rules,
    items: Seq<Item>,
    subtrees: Seq<Result<Seq<char>, Seq<char>>>,
    entry: Seq<char>,
) -> bool {
    ||| exists|k: int| 0 <= k < items.len() && (#[trigger] items[k]).rel_path == entry_path(entry)
    ||| exists|j: int|
        0 <= j < subtrees.len() && subtrees[j] is Ok && file_items(
            rules,
            #[trigger] subtrees[j]->Ok_0,
        ).len() > 0 && forall|f: int|
            0 <= f < file_items(rules, subtrees[j]->Ok_0).len() ==> items.contains(
                #[trigger] file_items(rules, subtrees[j]->Ok_0)[f],
            )
}

/// A finished enumeration leaves no entry out, so nothing that git lists can
/// be removed unclassified.
pub proof fn every_entry_is_accounted_for(
    rules: Rules,
    entries: Seq<Seq<char>>,
    subtrees: Seq<Result<Seq<char>, Seq<char>>>,
    i: int,
)
    requires
        0 <= i < entries.len(),
        enumerated(rules, entries, subtrees).progress == Progress::Going,
    ensures
        accounted_for(rules, enumerated(rules, entries, subtrees).items, subtrees, entries[i]),
    decreases entries.len(),
{
    let front = enumerated(rules, entries.drop_last(), subtrees);
    let state = enumerated(rules, entries, subtrees);
    let entry = entries[i];
    if i < entries.len() - 1 {
        every_entry_is_accounted_for(rules, entries.drop_last(), subtrees, i);
        assert(entries.drop_last()[i] == entry);
        assert(forall|k: int| 0 <= k < front.items.len() ==> state.items[k] == front.items[k]);
        if exists|k: int|
            0 <= k < front.items.len() && (#[trigger] front.items[k]).rel_path == entry_path(
                entry,
            ) {
            let k = choose|k: int|
                0 <= k < front.items.len() && (#[trigger] front.items[k]).rel_path == entry_path(
                    entry,
                );
            assert(state.items[k].rel_path == entry_path(entry));
        } else {
            let j = choose|j: int|
                0 <= j < subtrees.len() && subtrees[j] is Ok && file_items(
                    rules,
                    #[trigger] subtrees[j]->Ok_0,
                ).len() > 0 && forall|f: int|
                    0 <= f < file_items(rules, subtrees[j]->Ok_0).len() ==> front.items.contains(
                        #[trigger] file_items(rules, subtrees[j]->Ok_0)[f],
                    );
            let files = file_items(rules, subtrees[j]->Ok_0);
            assert forall|f: int| 0 <= f < files.len() implies state.items.contains(
                #[trigger] files[f],
            ) by {
                let k = choose|k: int|
                    0 <= k < front.items.len() && front.items[k] == files[f];
                assert(state.items[k] == files[f]);
            }
        }
    } else {
        let at = front.items.len() as int;
        match judged(rules, entry_path(entry), entry_is_dir(entry)) {
            Judgement::Settled(_) => {
                assert(state.items[at].rel_path == entry_path(entry));
            },
            Judgement::PerFile => {
                let listing = subtrees[front.used as int]->Ok_0;
                let files = file_items(rules, listing);
                if files.len() == 0 {
                    assert(state.items[at].rel_path == entry_path(entry));
                } else {
                    assert forall|f: int| 0 <= f < files.len() implies state.items.contains(
                        #[trigger] files[f],
                    ) by {
                        assert(state.items[at + f] == files[f]);
                    }
                    assert(file_items(rules, subtrees[front.used as int]->Ok_0).len() > 0);
                }
            },
        }
    }
}

/// An absolute path is protected whatever the rules are.
pub proof fn absolute_paths_are_protected(rules: Rules, path: Seq<char>, is_dir: bool)
    requires
        crate::paths::rooted(path),
    ensures
        judged(rules, path, is_dir) == Judgement::Settled(Classification::Protected),
{
}

/// A path that an ignore rule matches is protected even where the catalog
/// covers it.
pub proof fn ignore_rules_come_before_the_catalog(rules: Rules, path: Seq<char>, is_dir: bool)
    requires
        crate::ignore_rules::ignores(rules.ignore, path, is_dir),
    ensures
        judged(rules, path, is_dir) == Judgement::Settled(Classification::Protected),
{
}

/// Every exclusion reaches git: behind `clean -xfd` each one follows an `-e` of its
/// own, in order, and there is nothing else.
pub proof fn every_exclusion_reaches_git(exclusions: Seq<Seq<char>>)
    ensures
        clean_command(exclusions).len() == 2 + 2 * exclusions.len(),
        clean_command(exclusions)[0] == "clean"@,
        clean_command(exclusions)[1] == "-xfd"@,
        forall|k: int|
            0 <= k < exclusions.len() ==> clean_command(exclusions).subrange(2 + 2 * k, 4 + 2 * k)
                == seq!["-e"@, #[trigger] exclusions[k]],
    decreases exclusions.len(),
{
    if exclusions.len() > 0 {
        let front = exclusions.drop_last();
        every_exclusion_reaches_git(front);
        let before = clean_command(front);
        let all = clean_command(exclusions);
        assert forall|k: int| 0 <= k < exclusions.len() implies all.subrange(2 + 2 * k, 4 + 2 * k)
            == seq!["-e"@, #[trigger] exclusions[k]] by {
            if k < front.len() {
                assert(front[k] == exclusions[k]);
                assert(all.subrange(2 + 2 * k, 4 + 2 * k) =~= before.subrange(2 + 2 * k, 4 + 2 * k));
            } else {
                assert(all.subrange(2 + 2 * k, 4 + 2 * k) =~= seq!["-e"@, exclusions[k]]);
            }
        }
    }
}

/// Whether an item is kept from a clean run: it is protected, or it is surfaced and
/// neither the run is forced nor a path with the same components was approved.
pub open spec fn is_kept(item: Item, approved: Seq<Seq<char>>, force: bool) -> bool {
    ||| item.classification == Classification::Protected
    ||| item.classification == Classification::Surfaced && !force && forall|j: int|
        0 <= j < approved.len() ==> crate::paths::parts(#[trigger] approved[j])
            != crate::paths::parts(item.rel_path)
}

proof fn lemma_kept_must_stay(item: Item, approved: Seq<Seq<char>>, force: bool)
    ensures
        must_stay(item, approved, force) == is_kept(item, approved, force),
{
    if exists|j: int| 0 <= j < approved.len() && crate::paths::same_path(#[trigger] approved[j], item.rel_path) {
        let j = choose|j: int|
            0 <= j < approved.len() && crate::paths::same_path(#[trigger] approved[j], item.rel_path);
        assert(crate::paths::parts(approved[j]) == crate::paths::parts(item.rel_path));
    } else {
        assert forall|j: int| 0 <= j < approved.len() implies crate::paths::parts(
            #[trigger] approved[j],
        ) != crate::paths::parts(item.rel_path) by {
            assert(!crate::paths::same_path(approved[j], item.rel_path));
        }
    }
}

/// The exclusions are those of the items that are kept, all of them, in order.
pub proof fn the_kept_items_are_excluded_in_order(
    items: Seq<Item>,
    approved: Seq<Seq<char>>,
    force: bool,
)
    ensures
        exclusions_for(items, approved, force) == items.filter(
            |i: Item| is_kept(i, approved, force) && i.rel_path.len() > 0,
        ).map_values(|i: Item| exclusion(i.rel_path)),
    decreases items.len(),
{
    reveal(Seq::filter);
    let keep = |i: Item| is_kept(i, approved, force) && i.rel_path.len() > 0;
    let text = |i: Item| exclusion(i.rel_path);
    if items.len() > 0 {
        the_kept_items_are_excluded_in_order(items.drop_last(), approved, force);
        lemma_kept_must_stay(items.last(), approved, force);
        let before = items.drop_last().filter(keep);
        if keep(items.last()) {
            assert(before.push(items.last()).map_values(text) =~= before.map_values(text).push(
                exclusion(items.last().rel_path),
            ));
        }
    } else {
        assert(items.filter(keep).map_values(text) =~= Seq::<Seq<char>>::empty());
    }
}

/// What must stay survives: whatever is listed, approved and forced, the command
/// that git gets holds an `-e` right before the exclusion of every protected item,
/// and of every surfaced one that neither force nor an approval lets go.
pub proof fn what_is_kept_survives(
    items: Seq<Item>,
    approved: Seq<Seq<char>>,
    force: bool,
    i: int,
) -> (at: int)
    requires
        0 <= i < items.len(),
        is_kept(items[i], approved, force),
        items[i].rel_path.len() > 0,
    ensures
        ({
            let command = clean_command(exclusions_for(items, approved, force));
            &&& 2 <= at < command.len() - 1
            &&& command[at] == "-e"@
            &&& command[at + 1] == exclusion(items[i].rel_path)
        }),
{
    lemma_kept_must_stay(items[i], approved, force);
    what_must_stay_is_excluded(items, approved, force, i);
    let list = exclusions_for(items, approved, force);
    every_exclusion_reaches_git(list);
    let k = choose|k: int| 0 <= k < list.len() && list[k] == exclusion(items[i].rel_path);
    let pair = clean_command(list).subrange(2 + 2 * k, 4 + 2 * k);
    assert(pair == seq!["-e"@, list[k]]);
    assert(pair[0] == clean_command(list)[2 + 2 * k]);
    assert(pair[1] == clean_command(list)[3 + 2 * k]);
    2 + 2 * k
}

/// Nothing else is told to stay: whatever follows an `-e` is the exclusion of an item
/// that is kept, and never that of a safe item alone.
pub proof fn only_what_is_kept_is_told_to_stay(
    items: Seq<Item>,
    approved: Seq<Seq<char>>,
    force: bool,
    k: int,
) -> (i: int)
    requires
        0 <= k < exclusions_for(items, approved, force).len(),
    ensures
        0 <= i < items.len(),
        is_kept(items[i], approved, force),
        clean_command(exclusions_for(items, approved, force))[3 + 2 * k] == exclusion(
            items[i].rel_path,
        ),
{
    let list = exclusions_for(items, approved, force);
    every_exclusion_reaches_git(list);
    only_what_must_stay_is_excluded(items, approved, force, k);
    let i = choose|i: int|
        0 <= i < items.len() && must_stay(#[trigger] items[i], approved, force) && list[k]
            == exclusion(items[i].rel_path);
    lemma_kept_must_stay(items[i], approved, force);
    let pair = clean_command(list).subrange(2 + 2 * k, 4 + 2 * k);
    assert(pair == seq!["-e"@, list[k]]);
    assert(pair[1] == clean_command(list)[3 + 2 * k]);
    i
}

/// What is left to approve are the surfaced items that are kept, in order.
pub proof fn what_is_left_is_surfaced_and_kept(
    items: Seq<Item>,
    approved: Seq<Seq<char>>,
    force: bool,
)
    ensures
        unapproved(items, approved, force) == items.filter(
            |i: Item|
                i.classification == Classification::Surfaced && is_kept(i, approved, force),
        ),
    decreases items.len(),
{
    reveal(Seq::filter);
    if items.len() > 0 {
        what_is_left_is_surfaced_and_kept(items.drop_last(), approved, force);
        lemma_kept_must_stay(items.last(), approved, force);
    }
}

/// How one path is classified by itself: an absolute path and one that an ignore rule
/// matches are protected, of the others those in the catalog are safe, and the rest
/// are surfaced.
pub open spec fn class_of(rules: Rules, path: Seq<char>, is_dir: bool) -> Classification {
    if (path.len() > 0 && path[0] == '/') || crate::ignore_rules::ignored_by(
        rules.ignore,
        path,
        is_dir,
    ) {
        Classification::Protected
    } else if crate::ignore_rules::ignored_by(
        seq![crate::ignore_rules::LayerRules { anchor: Seq::empty(), rules: rules.safe }],
        path,
        is_dir,
    ) {
        Classification::Safe
    } else {
        Classification::Surfaced
    }
}

/// Whether an entry is a directory that is judged file by file: one that is surfaced
/// by itself.
pub open spec fn is_opened(rules: Rules, entry: Seq<char>) -> bool {
    entry.len() > 0 && entry.last() == '/' && class_of(rules, entry.drop_last(), true)
        == Classification::Surfaced
}

/// The directories that are judged file by file, in the order they come up.
pub open spec fn opened(rules: Rules, entries: Seq<Seq<char>>) -> Seq<Seq<char>> {
    entries.filter(|e: Seq<char>| is_opened(rules, e))
}

/// What an entry contributes, where `listing` lists the files below it: itself with its
/// class or, if it is judged file by file, each of its files with the class of that
/// file's own path. Such a directory without files is itself surfaced.
pub open spec fn contribution(rules: Rules, entry: Seq<char>, listing: Seq<char>) -> Seq<Item> {
    if is_opened(rules, entry) {
        if entries_of(listing).len() == 0 {
            seq![
                Item {
                    rel_path: entry.drop_last(),
                    is_dir: true,
                    classification: Classification::Surfaced,
                },
            ]
        } else {
            Seq::new(
                entries_of(listing).len(),
                |f: int|
                    Item {
                        rel_path: entries_of(listing)[f],
                        is_dir: false,
                        classification: class_of(rules, entries_of(listing)[f], false),
                    },
            )
        }
    } else if entry.len() > 0 && entry.last() == '/' {
        seq![
            Item {
                rel_path: entry.drop_last(),
                is_dir: true,
                classification: class_of(rules, entry.drop_last(), true),
            },
        ]
    } else {
        seq![
            Item {
                rel_path: entry,
                is_dir: false,
                classification: class_of(rules, entry, false),
            },
        ]
    }
}

/// The listing that goes with entry `i`: directories that are judged file by file take
/// the listings one after the other.
pub open spec fn listing_for(
    rules: Rules,
    entries: Seq<Seq<char>>,
    subtrees: Seq<Result<Seq<char>, Seq<char>>>,
    i: int,
) -> Seq<char> {
    subtrees[opened(rules, entries.take(i)).len() as int]->Ok_0
}

proof fn lemma_judged(rules: Rules, path: Seq<char>, is_dir: bool)
    ensures
        judged(rules, path, is_dir) == if is_dir && class_of(rules, path, is_dir)
            == Classification::Surfaced {
            Judgement::PerFile
        } else {
            Judgement::Settled(class_of(rules, path, is_dir))
        },
{
}

proof fn lemma_opened_push(rules: Rules, entries: Seq<Seq<char>>)
    requires
        entries.len() > 0,
    ensures
        opened(rules, entries) == if is_opened(rules, entries.last()) {
            opened(rules, entries.drop_last()).push(entries.last())
        } else {
            opened(rules, entries.drop_last())
        },
{
    reveal(Seq::filter);
}

/// An enumeration is finished exactly when every directory that is judged file by file
/// has its listing, and none of these failed. Where one failed, the first that did
/// fails the enumeration; where one is missing, it is asked for.
pub proof fn an_enumeration_needs_every_listing(
    rules: Rules,
    entries: Seq<Seq<char>>,
    subtrees: Seq<Result<Seq<char>, Seq<char>>>,
)
    ensures
        ({
            let state = enumerated(rules, entries, subtrees);
            let dirs = opened(rules, entries);
            match state.progress {
                Progress::Going => {
                    &&& state.used == dirs.len()
                    &&& dirs.len() <= subtrees.len()
                    &&& forall|j: int| 0 <= j < dirs.len() ==> #[trigger] subtrees[j] is Ok
                },
                Progress::Failed(e) => exists|n: int|
                    {
                        &&& 0 <= n < subtrees.len()
                        &&& n < dirs.len()
                        &&& #[trigger] subtrees[n] == Err::<Seq<char>, Seq<char>>(e)
                        &&& forall|j: int| 0 <= j < n ==> #[trigger] subtrees[j] is Ok
                    },
                Progress::Needs(dir) => {
                    &&& subtrees.len() < dirs.len()
                    &&& dir == dirs[subtrees.len() as int].drop_last()
                    &&& forall|j: int| 0 <= j < subtrees.len() ==> #[trigger] subtrees[j] is Ok
                },
            }
        }),
    decreases entries.len(),
{
    let state = enumerated(rules, entries, subtrees);
    let dirs = opened(rules, entries);
    if entries.len() == 0 {
        reveal(Seq::filter);
    } else {
        let front = entries.drop_last();
        an_enumeration_needs_every_listing(rules, front, subtrees);
        lemma_opened_push(rules, entries);
        let before = enumerated(rules, front, subtrees);
        let had = opened(rules, front);
        let path = entry_path(entries.last());
        let is_dir = entry_is_dir(entries.last());
        lemma_judged(rules, path, is_dir);
        if before.progress == Progress::Going {
            if is_opened(rules, entries.last()) {
                assert(dirs[had.len() as int] == entries.last());
                if before.used < subtrees.len() {
                    let n = before.used as int;
                    assert(subtrees[n] is Err ==> subtrees[n] == Err::<Seq<char>, Seq<char>>(
                        subtrees[n]->Err_0,
                    ));
                }
            }
        } else if let Progress::Failed(e) = before.progress {
            let n = choose|n: int|
                {
                    &&& 0 <= n < subtrees.len()
                    &&& n < had.len()
                    &&& #[trigger] subtrees[n] == Err::<Seq<char>, Seq<char>>(e)
                    &&& forall|j: int| 0 <= j < n ==> #[trigger] subtrees[j] is Ok
                };
            assert(n < dirs.len());
            assert(state.progress == Progress::Failed(e));
        } else {
            assert(dirs[subtrees.len() as int] == had[subtrees.len() as int]);
        }
    }
}

/// A finished enumeration is what its entries contribute, one after the other: every
/// entry and, of a directory that is judged file by file, every listed file is an item
/// with the class of its own path, and there are no other items.
pub proof fn items_are_what_the_entries_contribute(
    rules: Rules,
    entries: Seq<Seq<char>>,
    subtrees: Seq<Result<Seq<char>, Seq<char>>>,
)
    requires
        enumerated(rules, entries, subtrees).progress == Progress::Going,
    ensures
        enumerated(rules, entries, subtrees).items == Seq::new(
            entries.len(),
            |i: int|
                contribution(rules, entries[i], listing_for(rules, entries, subtrees, i)),
        ).flatten_alt(),
    decreases entries.len(),
{
    let blocks = Seq::new(
        entries.len(),
        |i: int| contribution(rules, entries[i], listing_for(rules, entries, subtrees, i)),
    );
    if entries.len() == 0 {
        assert(blocks.flatten_alt() =~= Seq::<Item>::empty());
    } else {
        let front = entries.drop_last();
        let n = front.len() as int;
        let before = enumerated(rules, front, subtrees);
        items_are_what_the_entries_contribute(rules, front, subtrees);
        an_enumeration_needs_every_listing(rules, front, subtrees);
        let shorter = Seq::new(
            front.len(),
            |i: int| contribution(rules, front[i], listing_for(rules, front, subtrees, i)),
        );
        assert(blocks.drop_last() =~= shorter) by {
            assert forall|i: int| 0 <= i < n implies #[trigger] blocks[i] == shorter[i] by {
                assert(front.take(i) =~= entries.take(i));
            }
        }
        assert(entries.take(n) =~= front);
        let entry = entries.last();
        let listing = listing_for(rules, entries, subtrees, n);
        assert(blocks.last() == contribution(rules, entry, listing));
        lemma_judged(rules, entry_path(entry), entry_is_dir(entry));
        let added = contribution(rules, entry, listing);
        if is_opened(rules, entry) {
            assert(subtrees[before.used as int] == Ok::<Seq<char>, Seq<char>>(listing));
            if entries_of(listing).len() > 0 {
                assert forall|f: int| 0 <= f < entries_of(listing).len() implies file_items(
                    rules,
                    listing,
                )[f] == #[trigger] added[f] by {
                    lemma_judged(rules, entries_of(listing)[f], false);
                }
                assert(file_items(rules, listing) =~= added);
            }
            assert(enumerated(rules, entries, subtrees).items =~= before.items + added);
        } else {
            assert(enumerated(rules, entries, subtrees).items =~= before.items + added);
        }
    }
}

proof fn lemma_block_in_flat(blocks: Seq<Seq<Item>>, i: int, item: Item)
    requires
        0 <= i < blocks.len(),
        blocks[i].contains(item),
    ensures
        blocks.flatten_alt().contains(item),
    decreases blocks.len(),
{
    let front = blocks.drop_last();
    let flat = blocks.flatten_alt();
    if i == blocks.len() - 1 {
        let k = choose|k: int| 0 <= k < blocks[i].len() && blocks[i][k] == item;
        assert(flat[front.flatten_alt().len() + k] == item);
    } else {
        assert(front[i] == blocks[i]);
        lemma_block_in_flat(front, i, item);
        let k = choose|k: int| 0 <= k < front.flatten_alt().len() && front.flatten_alt()[k] == item;
        assert(flat[k] == item);
    }
}

/// In a finished enumeration every file of a directory that is judged file by file is
/// itself an item, with the class of its own path; a file that an ignore rule matches
/// is a protected item, however the directory around it is named.
pub proof fn every_listed_file_is_an_item(
    rules: Rules,
    entries: Seq<Seq<char>>,
    subtrees: Seq<Result<Seq<char>, Seq<char>>>,
    i: int,
    f: int,
)
    requires
        enumerated(rules, entries, subtrees).progress == Progress::Going,
        0 <= i < entries.len(),
        is_opened(rules, entries[i]),
        0 <= f < entries_of(listing_for(rules, entries, subtrees, i)).len(),
    ensures
        ({
            let file = entries_of(listing_for(rules, entries, subtrees, i))[f];
            &&& enumerated(rules, entries, subtrees).items.contains(
                Item { rel_path: file, is_dir: false, classification: class_of(rules, file, false) },
            )
            &&& crate::ignore_rules::ignored_by(rules.ignore, file, false) ==> enumerated(
                rules,
                entries,
                subtrees,
            ).items.contains(
                Item {
                    rel_path: file,
                    is_dir: false,
                    classification: Classification::Protected,
                },
            )
        }),
{
    items_are_what_the_entries_contribute(rules, entries, subtrees);
    let blocks = Seq::new(
        entries.len(),
        |i: int| contribution(rules, entries[i], listing_for(rules, entries, subtrees, i)),
    );
    let file = entries_of(listing_for(rules, entries, subtrees, i))[f];
    let item = Item {
        rel_path: file,
        is_dir: false,
        classification: class_of(rules, file, false),
    };
    assert(blocks[i][f] == item);
    lemma_block_in_flat(blocks, i, item);
}

/// The entries of a listing are what stands between its NULs, empty pieces left out:
/// each NUL ends an entry.
pub proof fn a_nul_ends_an_entry(entry: Seq<char>, rest: Seq<char>)
    requires
        !entry.contains('\0'),
        entry.len() > 0,
    ensures
        entries_of(Seq::empty()) == Seq::<Seq<char>>::empty(),
        entries_of(entry) == seq![entry],
        entries_of(entry + seq!['\0'] + rest) == seq![entry] + entries_of(rest),
{
    let none = Seq::<char>::empty();
    crate::text::a_separator_ends_a_piece(entry, rest, '\0');
    crate::text::only_empty_pieces_are_left_out(seq![none]);
    crate::text::only_empty_pieces_are_left_out(seq![entry]);
    let tail = crate::text::split_on(rest, '\0');
    crate::text::only_empty_pieces_are_left_out(tail);
    crate::text::only_empty_pieces_are_left_out(seq![entry] + tail);
    let keep = |p: Seq<char>| p.len() > 0;
    assert(crate::text::split_on(none, '\0') =~= seq![none]);
    assert(seq![none].filter(keep) =~= Seq::<Seq<char>>::empty()) by {
        reveal(Seq::filter);
        let front = seq![none].drop_last();
        assert(front =~= Seq::<Seq<char>>::empty());
        assert(front.filter(keep) =~= Seq::<Seq<char>>::empty());
        assert(seq![none].last() == none);
        assert(!keep(seq![none].last()));
    }
    assert(seq![entry].filter(keep) =~= seq![entry]) by {
        reveal(Seq::filter);
        let front = seq![entry].drop_last();
        assert(front =~= Seq::<Seq<char>>::empty());
        assert(front.filter(keep) =~= Seq::<Seq<char>>::empty());
        assert(seq![entry].last() == entry);
        assert(keep(seq![entry].last()));
    }
    Seq::<Seq<char>>::filter_distributes_over_add(seq![entry], tail, keep);
}

/// An item stands for what it holds, and a list of items for all of them in order.
pub proof fn items_stand_for_what_they_hold(items: Seq<CleanItem>, i: int)
    requires
        0 <= i < items.len(),
    ensures
        item_views(items).len() == items.len(),
        item_views(items)[i].rel_path == items[i].rel_path@,
        item_views(items)[i].is_dir == items[i].is_dir,
        item_views(items)[i].classification == items[i].classification,
{
}

/// An enumeration goes by what git listed, and ends with git's error where git failed.
pub proof fn an_enumeration_goes_by_what_git_listed(
    rules: Rules,
    listing: Result<String, String>,
    subtrees: Seq<Result<String, String>>,
)
    ensures
        listing is Err ==> enumeration_of(rules, listing, subtrees).progress == Progress::Failed(
            listing->Err_0@,
        ),
        listing is Ok ==> enumeration_of(rules, listing, subtrees) == enumerated(
            rules,
            entries_of(listing->Ok_0@),
            subtrees.map_values(
                |r: Result<String, String>|
                    if r is Ok {
                        Ok::<Seq<char>, Seq<char>>(r->Ok_0@)
                    } else {
                        Err(r->Err_0@)
                    },
            ),
        ),
{
    assert(subtrees.map_values(|r: Result<String, String>| reply_text(r)) =~= subtrees.map_values(
        |r: Result<String, String>|
            if r is Ok {
                Ok::<Seq<char>, Seq<char>>(r->Ok_0@)
            } else {
                Err(r->Err_0@)
            },
    ));
}

} // verus!
