//! Discovery: which of the folders under the workspace roots are projects.
//!
//! A folder is a project if one of its entries is a marker, unless it lies
//! inside a git project of the same root: everything in there, nested
//! repositories included, belongs to that project. Folders named like build
//! artifacts, and `.git` itself, are not walked into; a root is walked whatever
//! its name.
//!
//! The caller reads the disk and hands in what it saw; the rules are here.

use vstd::prelude::*;

use ::glob::Pattern;

use crate::config::Config;
use crate::paths::{
    contains_path, has_root, join_names, join_path, normalized_absolute, parent, path_below,
    paths_equal,
};
use crate::safelist::built_in;
use crate::text::{cat2, cat3, chars_of, holds_text, same, starts_with, string_of, trim};

verus! {

/// A compiled pattern of the `glob` crate.
#[verifier::external_type_specification]
#[verifier::external_body]
pub struct ExPattern(::glob::Pattern);

/// The text that a pattern was compiled from.
pub uninterp spec fn pattern_text(p: Pattern) -> Seq<char>;

/// The message with which `Pattern::new` refuses a pattern, `None` for one that
/// it compiles.
pub uninterp spec fn glob_error(pattern: Seq<char>) -> Option<Seq<char>>;

/// Whether `Pattern::matches` accepts a name for a pattern.
pub uninterp spec fn glob_accepts(pattern: Seq<char>, name: Seq<char>) -> bool;

/// `Pattern::new`: compiles a pattern, or refuses it with a message.
#[verifier::external_body]
fn new_pattern(pattern: &str) -> (r: Result<Pattern, String>)
    ensures
        match r {
            Ok(p) => glob_error(pattern@) is None && pattern_text(p) == pattern@,
            Err(e) => glob_error(pattern@) == Some(e@),
        },
{
    match Pattern::new(pattern) {
        Ok(p) => Ok(p),
        Err(e) => Err(e.to_string()),
    }
}

/// `Pattern::as_str`: the text that the pattern was compiled from.
#[verifier::external_body]
fn source(p: &Pattern) -> (r: &str)
    ensures
        r@ == pattern_text(*p),
{
    p.as_str()
}

/// `Pattern::matches`: whether the pattern accepts a name. The pattern's text
/// decides, as everything else in a compiled pattern is made from it.
#[verifier::external_body]
fn accepts(p: &Pattern, name: &str) -> (r: bool)
    ensures
        r == glob_accepts(pattern_text(*p), name@),
{
    p.matches(name)
}

/// The texts that patterns were compiled from.
pub open spec fn sources(v: Seq<Pattern>) -> Seq<Seq<char>> {
    v.map_values(|p: Pattern| pattern_text(p))
}

/// Whether a character makes a marker a glob.
pub open spec fn is_glob_char(c: char) -> bool {
    c == '*' || c == '?' || c == '[' || c == '{'
}

/// Whether a marker is a glob.
pub open spec fn is_glob(s: Seq<char>) -> bool {
    exists|i: int| 0 <= i < s.len() && is_glob_char(#[trigger] s[i])
}

/// Whether a marker is a glob: it holds one of `*`, `?`, `[` and `{`.
pub fn contains_glob_meta(s: &str) -> (r: bool)
    ensures
        r == is_glob(s@),
{
    let all = chars_of(s);
    let mut i: usize = 0;
    while i < all.len()
        invariant
            i <= all@.len(),
            all@ == s@,
            forall|k: int| 0 <= k < i ==> !is_glob_char(#[trigger] s@[k]),
        decreases all@.len() - i,
    {
        let c = all[i];
        if c == '*' || c == '?' || c == '[' || c == '{' {
            assert(is_glob_char(s@[i as int]));
            return true;
        }
        i = i + 1;
    }
    false
}

/// The markers that are plain names, in order.
pub open spec fn plain_markers(entries: Seq<Seq<char>>) -> Seq<Seq<char>>
    decreases entries.len(),
{
    if entries.len() == 0 {
        Seq::empty()
    } else {
        let before = plain_markers(entries.drop_last());
        if is_glob(entries.last()) {
            before
        } else {
            before.push(entries.last())
        }
    }
}

/// The markers that are globs, in order.
pub open spec fn glob_markers(entries: Seq<Seq<char>>) -> Seq<Seq<char>>
    decreases entries.len(),
{
    if entries.len() == 0 {
        Seq::empty()
    } else {
        let before = glob_markers(entries.drop_last());
        if is_glob(entries.last()) {
            before.push(entries.last())
        } else {
            before
        }
    }
}

/// The message for the first glob that does not compile.
pub open spec fn first_glob_error(entries: Seq<Seq<char>>) -> Option<Seq<char>>
    decreases entries.len(),
{
    if entries.len() == 0 {
        None
    } else {
        let before = first_glob_error(entries.drop_last());
        if before is Some {
            before
        } else if is_glob(entries.last()) {
            glob_error(entries.last())
        } else {
            None
        }
    }
}

/// The first glob that accepts a name.
pub open spec fn first_accepting(globs: Seq<Seq<char>>, name: Seq<char>) -> Option<Seq<char>>
    decreases globs.len(),
{
    if globs.len() == 0 {
        None
    } else {
        let before = first_accepting(globs.drop_last(), name);
        if before is Some {
            before
        } else if glob_accepts(globs.last(), name) {
            Some(globs.last())
        } else {
            None
        }
    }
}

/// The markers to look for.
pub struct Markers {
    pub literals: Seq<Seq<char>>,
    pub globs: Seq<Seq<char>>,
}

/// The marker that a file name is an instance of: itself, if it is one of the
/// plain names, else the first glob that accepts it.
pub open spec fn marker_of(m: Markers, name: Seq<char>) -> Option<Seq<char>> {
    if m.literals.contains(name) {
        Some(name)
    } else {
        first_accepting(m.globs, name)
    }
}

/// The markers of a list of entries.
pub open spec fn markers_of(entries: Seq<Seq<char>>) -> Markers {
    Markers { literals: plain_markers(entries), globs: glob_markers(entries) }
}

/// The markers to look for: plain names, and globs ready to match.
pub struct MarkerSet {
    literals: Vec<String>,
    globs: Vec<Pattern>,
}

impl View for MarkerSet {
    type V = Markers;

    closed spec fn view(&self) -> Markers {
        Markers { literals: crate::text::texts(self.literals@), globs: sources(self.globs@) }
    }
}

impl MarkerSet {
    /// The set of the given markers. A glob that does not compile is an error;
    /// the first one is reported.
    pub fn from_entries(entries: &[String]) -> (r: Result<Self, String>)
        ensures
            match r {
                Ok(m) => first_glob_error(crate::text::texts(entries@)) is None && m@
                    == markers_of(crate::text::texts(entries@)),
                Err(e) => first_glob_error(crate::text::texts(entries@)) == Some(e@),
            },
    {
        let ghost all = crate::text::texts(entries@);
        let mut literals: Vec<String> = Vec::new();
        let mut globs: Vec<Pattern> = Vec::new();
        let mut i: usize = 0;
        assert(crate::text::texts(literals@) =~= plain_markers(all.take(0)));
        assert(sources(globs@) =~= glob_markers(all.take(0)));
        while i < entries.len()
            invariant
                i <= entries@.len(),
                all == crate::text::texts(entries@),
                crate::text::texts(literals@) == plain_markers(all.take(i as int)),
                sources(globs@) == glob_markers(all.take(i as int)),
                first_glob_error(all.take(i as int)) is None,
            decreases entries@.len() - i,
        {
            assert(all.take(i + 1).drop_last() =~= all.take(i as int));
            assert(all.take(i + 1).last() == entries@[i as int]@);
            if contains_glob_meta(entries[i].as_str()) {
                match new_pattern(entries[i].as_str()) {
                    Ok(p) => {
                        globs.push(p);
                        assert(sources(globs@) =~= glob_markers(all.take(i + 1)));
                    },
                    Err(e) => {
                        proof {
                            lemma_first_error_stays(all, i + 1);
                        }
                        return Err(e);
                    },
                }
            } else {
                literals.push(entries[i].clone());
                assert(crate::text::texts(literals@) =~= plain_markers(all.take(i + 1)));
            }
            i = i + 1;
        }
        assert(all.take(i as int) =~= all);
        Ok(MarkerSet { literals, globs })
    }

    /// The marker that a file name is an instance of.
    pub fn matches(&self, file_name: &str) -> (r: Option<&str>)
        ensures
            match r {
                Some(m) => marker_of(self@, file_name@) == Some(m@),
                None => marker_of(self@, file_name@) is None,
            },
    {
        let ghost literals = crate::text::texts(self.literals@);
        let ghost globs = sources(self.globs@);
        let mut i: usize = 0;
        while i < self.literals.len()
            invariant
                i <= self.literals@.len(),
                literals == crate::text::texts(self.literals@),
                literals == self@.literals,
                forall|k: int| 0 <= k < i ==> #[trigger] literals[k] != file_name@,
            decreases self.literals@.len() - i,
        {
            if same(self.literals[i].as_str(), file_name) {
                assert(literals[i as int] == file_name@);
                return Some(self.literals[i].as_str());
            }
            i = i + 1;
        }
        assert(!literals.contains(file_name@));
        let mut j: usize = 0;
        assert(first_accepting(globs.take(0), file_name@) is None);
        while j < self.globs.len()
            invariant
                j <= self.globs@.len(),
                globs == sources(self.globs@),
                globs == self@.globs,
                !self@.literals.contains(file_name@),
                first_accepting(globs.take(j as int), file_name@) is None,
            decreases self.globs@.len() - j,
        {
            assert(globs.take(j + 1).drop_last() =~= globs.take(j as int));
            assert(globs.take(j + 1).last() == pattern_text(self.globs@[j as int]));
            if accepts(&self.globs[j], file_name) {
                proof {
                    lemma_first_accepting_stays(globs, file_name@, j + 1);
                }
                return Some(source(&self.globs[j]));
            }
            j = j + 1;
        }
        assert(globs.take(j as int) =~= globs);
        None
    }
}

proof fn lemma_first_error_stays(entries: Seq<Seq<char>>, n: int)
    requires
        0 <= n <= entries.len(),
        first_glob_error(entries.take(n)) is Some,
    ensures
        first_glob_error(entries) == first_glob_error(entries.take(n)),
    decreases entries.len(),
{
    if n < entries.len() {
        assert(entries.drop_last().take(n) =~= entries.take(n));
        lemma_first_error_stays(entries.drop_last(), n);
    } else {
        assert(entries.take(n) =~= entries);
    }
}

proof fn lemma_first_accepting_stays(globs: Seq<Seq<char>>, name: Seq<char>, n: int)
    requires
        0 <= n <= globs.len(),
        first_accepting(globs.take(n), name) is Some,
    ensures
        first_accepting(globs, name) == first_accepting(globs.take(n), name),
    decreases globs.len(),
{
    if n < globs.len() {
        assert(globs.drop_last().take(n) =~= globs.take(n));
        lemma_first_accepting_stays(globs.drop_last(), name, n);
    } else {
        assert(globs.take(n) =~= globs);
    }
}

/// The marker of the first child that has one.
pub open spec fn first_marker(m: Markers, children: Seq<Seq<char>>) -> Option<Seq<char>>
    decreases children.len(),
{
    if children.len() == 0 {
        None
    } else {
        let before = first_marker(m, children.drop_last());
        if before is Some {
            before
        } else {
            marker_of(m, children.last())
        }
    }
}

/// Whether some child is an instance of the marker `.git`.
pub open spec fn has_git_marker(m: Markers, children: Seq<Seq<char>>) -> bool {
    exists|i: int| 0 <= i < children.len() && marker_of(m, #[trigger] children[i]) == Some(".git"@)
}

/// The marker of a folder with these children: `.git` if there is one, else
/// the first found.
pub open spec fn folder_marker(m: Markers, children: Seq<Seq<char>>) -> Option<Seq<char>> {
    if has_git_marker(m, children) {
        Some(".git"@)
    } else {
        first_marker(m, children)
    }
}

/// The children of a folder as texts; a folder that cannot be read has none.
pub open spec fn child_texts(children: Option<Vec<String>>) -> Seq<Seq<char>> {
    match children {
        Some(v) => crate::text::texts(v@),
        None => Seq::empty(),
    }
}

/// The marker of a folder with these children, in the order in which they were
/// listed; `None` for a folder that cannot be read.
pub fn find_marker_in(children: &Option<Vec<String>>, markers: &MarkerSet) -> (r: Option<String>)
    ensures
        crate::text::opt_text(r) == folder_marker(markers@, child_texts(*children)),
{
    let names: &Vec<String> = match children {
        Some(v) => v,
        None => {
            return None;
        },
    };
    let ghost all = crate::text::texts(names@);
    let mut first: Option<String> = None;
    let mut i: usize = 0;
    while i < names.len()
        invariant
            i <= names@.len(),
            all == crate::text::texts(names@),
            all == child_texts(*children),
            crate::text::opt_text(first) == first_marker(markers@, all.take(i as int)),
            forall|k: int| 0 <= k < i ==> marker_of(markers@, #[trigger] all[k]) != Some(".git"@),
        decreases names@.len() - i,
    {
        assert(all.take(i + 1).drop_last() =~= all.take(i as int));
        assert(all.take(i + 1).last() == names@[i as int]@);
        match markers.matches(names[i].as_str()) {
            Some(m) => {
                if same(m, ".git") {
                    assert(marker_of(markers@, all[i as int]) == Some(".git"@));
                    return Some(m.to_owned());
                }
                if first.is_none() {
                    first = Some(m.to_owned());
                }
            },
            None => {},
        }
        i = i + 1;
    }
    assert(all.take(i as int) =~= all);
    first
}

/// The folder name that a catalog pattern rules out, if it is the pattern of a
/// single name at any depth: `name` or `**/name`, without globs or negation.
pub open spec fn pruned_name(pattern: Seq<char>) -> Option<Seq<char>> {
    let name = if "**/"@.is_prefix_of(pattern) {
        pattern.skip(3)
    } else {
        pattern
    };
    if name.len() > 0 && !name.contains('/') && name[0] != '!' && !is_glob(name) {
        Some(name)
    } else {
        None
    }
}

/// Whether folders of this name are not walked into.
pub open spec fn is_pruned(name: Seq<char>, patterns: Seq<Seq<char>>) -> bool {
    name == ".git"@ || exists|i: int|
        0 <= i < patterns.len() && pruned_name(#[trigger] patterns[i]) == Some(name)
}

fn name_to_prune(pattern: &str) -> (r: Option<String>)
    ensures
        crate::text::opt_text(r) == pruned_name(pattern@),
{
    let all = chars_of(pattern);
    proof {
        reveal_strlit("**/");
    }
    let from: usize = if starts_with(&all, "**/") {
        3
    } else {
        0
    };
    let count: usize = all.len();
    let ghost name = if "**/"@.is_prefix_of(pattern@) {
        pattern@.skip(3)
    } else {
        pattern@
    };
    assert(name =~= all@.subrange(from as int, count as int));
    let rest = string_of(&all, from, count);
    if from == count {
        return None;
    }
    if all[from] == '!' {
        assert(name[0] == '!');
        return None;
    }
    let mut i: usize = from;
    while i < count
        invariant
            from <= i <= count,
            from < count,
            count == all@.len(),
            name == all@.subrange(from as int, count as int),
            all@ == pattern@,
            name == (if "**/"@.is_prefix_of(pattern@) {
                pattern@.skip(3)
            } else {
                pattern@
            }),
            forall|k: int| from <= k < i ==> #[trigger] all@[k] != '/',
        decreases count - i,
    {
        if all[i] == '/' {
            assert(name[i - from] == '/');
            assert(name.contains('/'));
            return None;
        }
        i = i + 1;
    }
    assert(!name.contains('/')) by {
        assert forall|k: int| 0 <= k < name.len() implies name[k] != '/' by {
            assert(name[k] == all@[from + k]);
        }
    }
    if contains_glob_meta(rest.as_str()) {
        None
    } else {
        Some(rest)
    }
}

spec fn prunes_so_far(set: Seq<Seq<char>>, patterns: Seq<Seq<char>>) -> bool {
    &&& set.no_duplicates()
    &&& forall|name: Seq<char>| #[trigger] set.contains(name) <==> is_pruned(name, patterns)
}

proof fn lemma_one_more_pattern(patterns: Seq<Seq<char>>, i: int, name: Seq<char>)
    requires
        0 <= i < patterns.len(),
    ensures
        is_pruned(name, patterns.take(i + 1)) <==> is_pruned(name, patterns.take(i))
            || pruned_name(patterns[i]) == Some(name),
{
    let less = patterns.take(i);
    let more = patterns.take(i + 1);
    if is_pruned(name, more) && name != ".git"@ {
        let k = choose|k: int| 0 <= k < more.len() && pruned_name(#[trigger] more[k]) == Some(name);
        if k < i {
            assert(less[k] == more[k]);
        }
    }
    if is_pruned(name, less) && name != ".git"@ {
        let k = choose|k: int| 0 <= k < less.len() && pruned_name(#[trigger] less[k]) == Some(name);
        assert(more[k] == less[k]);
    }
    assert(more[i] == patterns[i]);
}

fn insert_name(set: &mut Vec<String>, pattern: &str, Ghost(patterns): Ghost<Seq<Seq<char>>>, Ghost(
    i,
): Ghost<int>)
    requires
        0 <= i < patterns.len(),
        patterns[i] == pattern@,
        prunes_so_far(crate::text::texts(old(set)@), patterns.take(i)),
    ensures
        prunes_so_far(crate::text::texts(final(set)@), patterns.take(i + 1)),
{
    let ghost before = crate::text::texts(set@);
    assert forall|n: Seq<char>|
        is_pruned(n, patterns.take(i + 1)) <==> is_pruned(n, patterns.take(i)) || pruned_name(
            patterns[i],
        ) == Some(n) by {
        lemma_one_more_pattern(patterns, i, n);
    }
    match name_to_prune(pattern) {
        Some(name) => {
            if !holds_text(set, name.as_str()) {
                let ghost n = name@;
                set.push(name);
                let ghost after = crate::text::texts(set@);
                assert(after =~= before.push(n));
                assert(!before.contains(n));
                assert forall|x: Seq<char>| #[trigger] after.contains(x) <==> is_pruned(
                    x,
                    patterns.take(i + 1),
                ) by {
                    if before.contains(x) {
                        let k = choose|k: int| 0 <= k < before.len() && before[k] == x;
                        assert(after[k] == x);
                    }
                    assert(after[before.len() as int] == n);
                }
            }
        },
        None => {},
    }
}

/// The names of folders that are not walked into: `.git`, and every folder name
/// that the built-in patterns or the user's rule out. Other patterns hold when
/// cleaning, not here.
pub fn build_prune_set(user_patterns: &[String]) -> (set: Vec<String>)
    ensures
        crate::text::texts(set@).no_duplicates(),
        forall|name: Seq<char>| #[trigger]
            crate::text::texts(set@).contains(name) <==> is_pruned(
                name,
                crate::safelist::built_in_defaults() + crate::text::texts(user_patterns@),
            ),
{
    let ghost known = crate::safelist::built_in_defaults();
    let ghost all = known + crate::text::texts(user_patterns@);
    let mut set: Vec<String> = Vec::new();
    set.push(".git".to_owned());
    assert(crate::text::texts(set@) =~= seq![".git"@]);
    assert forall|name: Seq<char>| #[trigger]
        crate::text::texts(set@).contains(name) <==> is_pruned(name, all.take(0)) by {
        assert(seq![".git"@][0] == ".git"@);
    }
    let defaults = built_in();
    let mut i: usize = 0;
    while i < defaults.len()
        invariant
            i <= defaults@.len(),
            crate::text::str_texts(defaults@) == known,
            all == known + crate::text::texts(user_patterns@),
            prunes_so_far(crate::text::texts(set@), all.take(i as int)),
        decreases defaults@.len() - i,
    {
        assert(all[i as int] == crate::text::str_texts(defaults@)[i as int]);
        insert_name(&mut set, defaults[i], Ghost(all), Ghost(i as int));
        i = i + 1;
    }
    let mut j: usize = 0;
    let ghost n = known.len() as int;
    while j < user_patterns.len()
        invariant
            j <= user_patterns@.len(),
            n == known.len(),
            all == known + crate::text::texts(user_patterns@),
            prunes_so_far(crate::text::texts(set@), all.take(n + j)),
        decreases user_patterns@.len() - j,
    {
        assert(all[n + j] == user_patterns@[j as int]@);
        insert_name(&mut set, user_patterns[j].as_str(), Ghost(all), Ghost(n + j));
        j = j + 1;
    }
    assert(all.take(n + j) =~= all);
    set
}

/// Whether a walk takes in an entry: the root always, any other unless its
/// name is pruned.
pub fn enters(depth: usize, name: &str, prune_basenames: &Vec<String>) -> (r: bool)
    ensures
        r == (depth == 0 || !crate::text::texts(prune_basenames@).contains(name@)),
{
    depth == 0 || !holds_text(prune_basenames, name)
}

/// Whether a folder above `dir`, up to and including `root`, is in `with_git`.
pub open spec fn git_above(dir: Seq<char>, root: Seq<char>, with_git: Seq<Seq<char>>) -> bool
    decreases dir.len(),
{
    if crate::paths::same_path(dir, root) {
        false
    } else {
        proof {
            crate::paths::lemma_parent_is_shorter(dir);
        }
        match crate::paths::parent_of(dir) {
            Some(above) => crate::paths::holds_path(with_git, above) || git_above(
                above,
                root,
                with_git,
            ),
            None => false,
        }
    }
}

/// Whether a folder lies inside a git project of its root: some folder above
/// `dir`, up to and including `root`, is one of `with_git`, the folders that
/// hold a `.git`. What `dir` itself holds makes no difference.
pub fn has_ancestor_git(dir: &str, root: &str, with_git: &Vec<String>) -> (r: bool)
    ensures
        r == git_above(dir@, root@, crate::text::texts(with_git@)),
{
    if paths_equal(dir, root) {
        return false;
    }
    let ghost dirs = crate::text::texts(with_git@);
    let mut current: String = dir.to_owned();
    loop
        invariant
            dirs == crate::text::texts(with_git@),
            !crate::paths::same_path(current@, root@),
            git_above(dir@, root@, dirs) == git_above(current@, root@, dirs),
        decreases current@.len(),
    {
        proof {
            crate::paths::lemma_parent_is_shorter(current@);
        }
        match parent(current.as_str()) {
            Some(above) => {
                if contains_path(with_git, above.as_str()) {
                    return true;
                }
                if paths_equal(above.as_str(), root) {
                    assert(!git_above(above@, root@, dirs));
                    return false;
                }
                current = above;
            },
            None => {
                return false;
            },
        }
    }
}

/// A project that was found: where it is, and the marker that gave it away.
#[derive(Debug, Clone, PartialEq)]
pub struct DiscoveredProject {
    pub path: String,
    pub marker: String,
}

/// What a found project is.
#[verifier::ext_equal]
pub struct Found {
    pub path: Seq<char>,
    pub marker: Seq<char>,
}

impl View for DiscoveredProject {
    type V = Found;

    open spec fn view(&self) -> Found {
        Found { path: self.path@, marker: self.marker@ }
    }
}

/// What found projects are.
pub open spec fn found_views(v: Seq<DiscoveredProject>) -> Seq<Found> {
    v.map_values(|p: DiscoveredProject| p@)
}

/// An entry that the walk of a root came by.
pub struct WalkEntry {
    /// The names that lead to it from the root; none for the root itself.
    pub names: Vec<String>,
    /// Whether it is a folder.
    pub is_dir: bool,
    /// Whether there is a `.git` in it.
    pub has_git: bool,
    /// The names in it as they were listed, if it could be read.
    pub children: Option<Vec<String>>,
}

/// The walk of a root: whether the root is a folder at all, and the entries in
/// the order in which they came, an error where one could not be read.
pub struct RootWalk {
    pub is_dir: bool,
    pub entries: Vec<Result<WalkEntry, String>>,
}

/// The first error of a walk.
pub open spec fn walk_error(entries: Seq<Result<WalkEntry, String>>) -> Option<Seq<char>>
    decreases entries.len(),
{
    if entries.len() == 0 {
        None
    } else {
        let before = walk_error(entries.drop_last());
        if before is Some {
            before
        } else {
            match entries.last() {
                Ok(_) => None,
                Err(e) => Some(e@),
            }
        }
    }
}

/// The entries of a walk before its first error.
pub open spec fn before_error(entries: Seq<Result<WalkEntry, String>>) -> Seq<
    Result<WalkEntry, String>,
>
    decreases entries.len(),
{
    if walk_error(entries) is None {
        entries
    } else {
        before_error(entries.drop_last())
    }
}

/// The folders of a walk that hold a `.git`.
pub open spec fn git_dirs(root: Seq<char>, entries: Seq<Result<WalkEntry, String>>) -> Seq<
    Seq<char>,
>
    decreases entries.len(),
{
    if entries.len() == 0 {
        Seq::empty()
    } else {
        let before = git_dirs(root, entries.drop_last());
        match entries.last() {
            Ok(e) => if e.is_dir && e.has_git {
                before.push(path_below(root, crate::text::texts(e.names@)))
            } else {
                before
            },
            Err(_) => before,
        }
    }
}

/// Whether a walk takes in an entry: it lies within the depth, and no name on
/// the way to it is pruned.
pub open spec fn in_walk(names: Seq<Seq<char>>, max_depth: nat, pruned: Set<Seq<char>>) -> bool {
    names.len() <= max_depth && forall|i: int|
        0 <= i < names.len() ==> !pruned.contains(#[trigger] names[i])
}

/// What the rules of discovery rest on.
pub struct WalkRules {
    pub max_depth: nat,
    pub markers: Markers,
    pub pruned: Set<Seq<char>>,
}

/// The project that an entry is, if it is one: a folder in the walk with a
/// marker, and no git project above it.
pub open spec fn entry_project(
    root: Seq<char>,
    entry: WalkEntry,
    with_git: Seq<Seq<char>>,
    rules: WalkRules,
) -> Option<Found> {
    let names = crate::text::texts(entry.names@);
    let path = path_below(root, names);
    if entry.is_dir && in_walk(names, rules.max_depth, rules.pruned) && !git_above(
        path,
        root,
        with_git,
    ) {
        match folder_marker(rules.markers, child_texts(entry.children)) {
            Some(marker) => Some(Found { path, marker }),
            None => None,
        }
    } else {
        None
    }
}

/// The projects among the entries of a walk, in order.
pub open spec fn projects_in(
    root: Seq<char>,
    entries: Seq<Result<WalkEntry, String>>,
    with_git: Seq<Seq<char>>,
    rules: WalkRules,
) -> Seq<Found>
    decreases entries.len(),
{
    if entries.len() == 0 {
        Seq::empty()
    } else {
        let before = projects_in(root, entries.drop_last(), with_git, rules);
        match entries.last() {
            Ok(e) => match entry_project(root, e, with_git, rules) {
                Some(p) => before.push(p),
                None => before,
            },
            Err(_) => before,
        }
    }
}

/// The projects that the walk of a root gives: all of them or, where the walk
/// fails, those it came by before.
pub open spec fn walk_found(root: Seq<char>, walk: RootWalk, rules: WalkRules) -> Seq<Found> {
    if !walk.is_dir {
        Seq::empty()
    } else {
        projects_in(root, before_error(walk.entries@), git_dirs(root, walk.entries@), rules)
    }
}

/// What the walk of a root comes to: its projects, or why it failed.
pub open spec fn walk_outcome(root: Seq<char>, walk: RootWalk, rules: WalkRules) -> Result<
    Seq<Found>,
    Seq<char>,
> {
    if !walk.is_dir {
        Err("workspace root not found: "@ + root)
    } else {
        match walk_error(walk.entries@) {
            Some(e) => Err(e),
            None => Ok(projects_in(root, walk.entries@, git_dirs(root, walk.entries@), rules)),
        }
    }
}

fn is_in_walk(names: &Vec<String>, max_depth: usize, pruned: &Vec<String>) -> (r: bool)
    ensures
        r == in_walk(
            crate::text::texts(names@),
            max_depth as nat,
            crate::text::texts(pruned@).to_set(),
        ),
{
    let ghost all = crate::text::texts(names@);
    if names.len() > max_depth {
        return false;
    }
    let mut i: usize = 0;
    while i < names.len()
        invariant
            i <= names@.len(),
            all == crate::text::texts(names@),
            forall|k: int|
                0 <= k < i ==> !crate::text::texts(pruned@).contains(#[trigger] all[k]),
        decreases names@.len() - i,
    {
        if holds_text(pruned, names[i].as_str()) {
            assert(crate::text::texts(pruned@).contains(all[i as int]));
            return false;
        }
        i = i + 1;
    }
    true
}

/// Adds the projects of a walked root to `out`. A root that is no folder is an
/// error, and so is an entry that could not be read; the first one is
/// reported, and `out` keeps the projects that the walk came by before it.
pub fn walk_root(
    root: &str,
    max_depth: usize,
    markers: &MarkerSet,
    prune_basenames: &Vec<String>,
    walk: &RootWalk,
    out: &mut Vec<DiscoveredProject>,
) -> (r: Result<(), String>)
    ensures
        match walk_outcome(
            root@,
            *walk,
            WalkRules {
                max_depth: max_depth as nat,
                markers: markers@,
                pruned: crate::text::texts(prune_basenames@).to_set(),
            },
        ) {
            Ok(found) => r is Ok && found_views(final(out)@) == found_views(old(out)@) + found,
            Err(e) => r is Err && r->Err_0@ == e,
        },
        found_views(final(out)@) == found_views(old(out)@) + walk_found(
            root@,
            *walk,
            WalkRules {
                max_depth: max_depth as nat,
                markers: markers@,
                pruned: crate::text::texts(prune_basenames@).to_set(),
            },
        ),
{
    if !walk.is_dir {
        assert(found_views(out@) + Seq::<Found>::empty() =~= found_views(out@));
        return Err(cat2("workspace root not found: ", root));
    }
    let ghost rules = WalkRules {
        max_depth: max_depth as nat,
        markers: markers@,
        pruned: crate::text::texts(prune_basenames@).to_set(),
    };
    let ghost all = walk.entries@;
    let mut with_git: Vec<String> = Vec::new();
    let mut i: usize = 0;
    assert(crate::text::texts(with_git@) =~= git_dirs(root@, all.take(0)));
    while i < walk.entries.len()
        invariant
            i <= walk.entries@.len(),
            all == walk.entries@,
            crate::text::texts(with_git@) == git_dirs(root@, all.take(i as int)),
        decreases walk.entries@.len() - i,
    {
        assert(all.take(i + 1).drop_last() =~= all.take(i as int));
        assert(all.take(i + 1).last() == all[i as int]);
        match &walk.entries[i] {
            Ok(e) => {
                if e.is_dir && e.has_git {
                    crate::text::push_line(&mut with_git, join_names(root, &e.names));
                }
            },
            Err(_) => {},
        }
        i = i + 1;
    }
    assert(all.take(i as int) =~= all);
    let ghost before = found_views(out@);
    let ghost dirs = crate::text::texts(with_git@);
    let mut j: usize = 0;
    assert(before + projects_in(root@, all.take(0), dirs, rules) =~= before);
    while j < walk.entries.len()
        invariant
            j <= walk.entries@.len(),
            all == walk.entries@,
            dirs == crate::text::texts(with_git@),
            dirs == git_dirs(root@, all),
            walk.is_dir,
            walk_error(all.take(j as int)) is None,
            before == found_views(old(out)@),
            rules == (WalkRules {
                max_depth: max_depth as nat,
                markers: markers@,
                pruned: crate::text::texts(prune_basenames@).to_set(),
            }),
            found_views(out@) == before + projects_in(root@, all.take(j as int), dirs, rules),
        decreases walk.entries@.len() - j,
    {
        assert(all.take(j + 1).drop_last() =~= all.take(j as int));
        assert(all.take(j + 1).last() == all[j as int]);
        match &walk.entries[j] {
            Ok(e) => {
                if e.is_dir && is_in_walk(&e.names, max_depth, prune_basenames) {
                    let path = join_names(root, &e.names);
                    match find_marker_in(&e.children, markers) {
                        Some(marker) => {
                            if !has_ancestor_git(path.as_str(), root, &with_git) {
                                let ghost so_far = found_views(out@);
                                let project = DiscoveredProject { path, marker };
                                let ghost p = project@;
                                out.push(project);
                                assert(found_views(out@) =~= so_far.push(p));
                                assert(so_far.push(p) =~= before + projects_in(
                                    root@,
                                    all.take(j as int),
                                    dirs,
                                    rules,
                                ).push(p));
                            }
                        },
                        None => {},
                    }
                }
            },
            Err(e) => {
                proof {
                    lemma_walk_error_stays(all, j + 1);
                    assert(before_error(all.take(j as int)) == all.take(j as int));
                    assert(before_error(all.take(j + 1)) == all.take(j as int));
                }
                return Err(e.clone());
            },
        }
        j = j + 1;
    }
    assert(all.take(j as int) =~= all);
    Ok(())
}

proof fn lemma_walk_error_stays(entries: Seq<Result<WalkEntry, String>>, n: int)
    requires
        0 <= n <= entries.len(),
        walk_error(entries.take(n)) is Some,
    ensures
        walk_error(entries) == walk_error(entries.take(n)),
        before_error(entries) == before_error(entries.take(n)),
    decreases entries.len(),
{
    if n < entries.len() {
        assert(entries.drop_last().take(n) =~= entries.take(n));
        lemma_walk_error_stays(entries.drop_last(), n);
    } else {
        assert(entries.take(n) =~= entries);
    }
}

/// What the walks of the first roots come to together.
pub open spec fn walks_outcome(
    roots: Seq<Seq<char>>,
    walks: Seq<RootWalk>,
    rules: WalkRules,
) -> Result<Seq<Found>, Seq<char>>
    decreases walks.len(),
{
    if walks.len() == 0 {
        Ok(Seq::empty())
    } else {
        match walks_outcome(roots, walks.drop_last(), rules) {
            Err(e) => Err(e),
            Ok(before) => match walk_outcome(roots[walks.len() - 1], walks.last(), rules) {
                Ok(found) => Ok(before + found),
                Err(e) => Err(e),
            },
        }
    }
}

/// Where discovery stands.
pub enum Discovery {
    /// The root with this number is to be walked next.
    NeedsWalk(usize),
    /// All roots are walked; these are the projects.
    Found(Vec<DiscoveredProject>),
    /// Discovery failed.
    Failed(String),
}

/// The names of the folders that a configuration rules out.
pub open spec fn pruned_names(cfg: Config) -> Set<Seq<char>> {
    Set::new(
        |name: Seq<char>|
            is_pruned(
                name,
                crate::safelist::built_in_defaults() + crate::text::texts(cfg.safe_delete@),
            ),
    )
}

/// The rules that a configuration gives.
pub open spec fn rules_of(cfg: Config) -> WalkRules {
    WalkRules {
        max_depth: cfg.max_depth as nat,
        markers: markers_of(crate::text::texts(cfg.project_markers@)),
        pruned: pruned_names(cfg),
    }
}

/// What discovery comes to after these walks.
pub open spec fn discovered(cfg: Config, walks: Seq<RootWalk>) -> Result<Seq<Found>, Seq<char>> {
    match first_glob_error(crate::text::texts(cfg.project_markers@)) {
        Some(e) => Err(e),
        None => walks_outcome(crate::text::texts(cfg.workspace_roots@), walks, rules_of(cfg)),
    }
}

/// The projects under the configured roots. `walks` are the walks of the roots
/// so far, in order; discovery asks for one root after the other and stops at
/// the first that fails. A marker that does not compile fails it before any
/// root is walked.
pub fn discover(cfg: &Config, walks: &Vec<RootWalk>) -> (d: Discovery)
    requires
        walks@.len() <= cfg.workspace_roots@.len(),
    ensures
        match discovered(*cfg, walks@) {
            Err(e) => d matches Discovery::Failed(m) && m@ == e,
            Ok(found) => if walks@.len() < cfg.workspace_roots@.len() {
                d == Discovery::NeedsWalk(walks@.len() as usize)
            } else {
                d matches Discovery::Found(v) && found_views(v@) == found
            },
        },
{
    let prune = build_prune_set(cfg.safe_delete.as_slice());
    assert(crate::text::texts(prune@).to_set() =~= pruned_names(*cfg));
    let markers = match MarkerSet::from_entries(cfg.project_markers.as_slice()) {
        Ok(m) => m,
        Err(e) => {
            return Discovery::Failed(e);
        },
    };
    let ghost roots = crate::text::texts(cfg.workspace_roots@);
    let ghost rules = rules_of(*cfg);
    let mut found: Vec<DiscoveredProject> = Vec::new();
    let mut i: usize = 0;
    assert(found_views(found@) =~= Seq::<Found>::empty());
    while i < walks.len()
        invariant
            i <= walks@.len(),
            walks@.len() <= cfg.workspace_roots@.len(),
            roots == crate::text::texts(cfg.workspace_roots@),
            crate::text::texts(prune@).to_set() == pruned_names(*cfg),
            rules == rules_of(*cfg),
            markers@ == rules.markers,
            first_glob_error(crate::text::texts(cfg.project_markers@)) is None,
            walks_outcome(roots, walks@.take(i as int), rules) == Ok::<Seq<Found>, Seq<char>>(
                found_views(found@),
            ),
        decreases walks@.len() - i,
    {
        assert(walks@.take(i + 1).drop_last() =~= walks@.take(i as int));
        assert(walks@.take(i + 1).last() == walks@[i as int]);
        let root = cfg.workspace_roots[i].as_str();
        assert(roots[i as int] == root@);
        match walk_root(root, cfg.max_depth, &markers, &prune, &walks[i], &mut found) {
            Ok(_) => {},
            Err(e) => {
                proof {
                    lemma_walks_error_stays(roots, walks@, rules, i + 1);
                }
                return Discovery::Failed(e);
            },
        }
        i = i + 1;
    }
    assert(walks@.take(i as int) =~= walks@);
    if walks.len() < cfg.workspace_roots.len() {
        Discovery::NeedsWalk(walks.len())
    } else {
        Discovery::Found(found)
    }
}

proof fn lemma_walks_error_stays(
    roots: Seq<Seq<char>>,
    walks: Seq<RootWalk>,
    rules: WalkRules,
    n: int,
)
    requires
        0 <= n <= walks.len(),
        walks_outcome(roots, walks.take(n), rules) is Err,
    ensures
        walks_outcome(roots, walks, rules) == walks_outcome(roots, walks.take(n), rules),
    decreases walks.len(),
{
    if n < walks.len() {
        assert(walks.drop_last().take(n) =~= walks.take(n));
        lemma_walks_error_stays(roots, walks.drop_last(), rules, n);
    } else {
        assert(walks.take(n) =~= walks);
    }
}

/// What is said when no root is configured.
pub fn no_roots_notice() -> (s: &'static str)
    ensures
        s@
            == "discovery: no workspace roots configured; nothing to walk — try `offcut init <path>` to create a config file"@,
{
    "discovery: no workspace roots configured; nothing to walk — try `offcut init <path>` to create a config file"
}

/// A path made absolute: `canonical` where the file system gave one, else the
/// path normalized, from the working directory if it is relative.
pub open spec fn resolution(
    path: Seq<char>,
    canonical: Option<Seq<char>>,
    cwd: Result<String, String>,
) -> Result<Seq<char>, Seq<char>> {
    match canonical {
        Some(c) => Ok(c),
        None => if crate::paths::rooted(path) {
            Ok(crate::paths::normalized(path, Seq::empty()))
        } else {
            match cwd {
                Ok(dir) => Ok(crate::paths::normalized(path, dir@)),
                Err(e) => Err(
                    "cannot resolve relative path "@ + path
                        + ": the current directory is unavailable ("@ + e@ + ")"@,
                ),
            }
        },
    }
}

/// A path made absolute. `canonical` is what the file system makes of it, if
/// anything; `cwd` is the working directory, or why it cannot be told, and
/// matters for a relative path only.
pub fn resolve_path(path: &str, canonical: &Option<String>, cwd: &Result<String, String>) -> (r:
    Result<String, String>)
    ensures
        match resolution(path@, crate::text::opt_text(*canonical), *cwd) {
            Ok(p) => r is Ok && r->Ok_0@ == p,
            Err(e) => r is Err && r->Err_0@ == e,
        },
{
    match canonical {
        Some(c) => Ok(c.clone()),
        None => if has_root(path) {
            proof {
                reveal_strlit("");
                assert(""@ =~= Seq::<char>::empty());
            }
            Ok(normalized_absolute(path, ""))
        } else {
            match cwd {
                Ok(dir) => Ok(normalized_absolute(path, dir.as_str())),
                Err(e) => {
                    let mut msg = cat3(
                        "cannot resolve relative path ",
                        path,
                        ": the current directory is unavailable (",
                    );
                    msg.append(e.as_str());
                    msg.append(")");
                    Err(msg)
                },
            }
        },
    }
}

/// The root of the git project that git names: nothing where git names none.
pub open spec fn toplevel(output: Option<Seq<char>>) -> Option<Seq<char>> {
    match output {
        Some(text) => {
            let top = crate::text::trimmed(text);
            if top.len() == 0 {
                None
            } else {
                Some(top)
            }
        },
        None => None,
    }
}

/// The root of the git project that git names in its output; `None` where git
/// failed or named none.
pub fn git_toplevel(output: &Option<String>) -> (r: Option<String>)
    ensures
        crate::text::opt_text(r) == toplevel(crate::text::opt_text(*output)),
{
    match output {
        Some(text) => {
            let top = trim(text.as_str());
            if top.as_str().is_empty() {
                None
            } else {
                Some(top)
            }
        },
        None => None,
    }
}

/// The arguments with which git is asked for the root of the project that
/// `dir` lies in.
pub fn toplevel_args(dir: &str) -> (args: Vec<String>)
    ensures
        crate::text::texts(args@) == seq!["-C"@, dir@, "rev-parse"@, "--show-toplevel"@],
{
    let mut args: Vec<String> = Vec::new();
    args.push("-C".to_owned());
    args.push(dir.to_owned());
    args.push("rev-parse".to_owned());
    args.push("--show-toplevel".to_owned());
    assert(crate::text::texts(args@) =~= seq!["-C"@, dir@, "rev-parse"@, "--show-toplevel"@]);
    args
}

/// What is known of a path that was named as the one project to work on.
pub struct Target {
    /// The path as it was given.
    pub path: String,
    /// Whether it is a folder.
    pub is_dir: bool,
    /// What the file system makes of it.
    pub canonical: Option<String>,
    /// The working directory, or why it cannot be told.
    pub cwd: Result<String, String>,
    /// What git says the root of the project is, if it says anything.
    pub git_output: Option<String>,
    /// What the file system makes of that root.
    pub git_canonical: Option<String>,
    /// The names in the folder as they were listed, if it could be read.
    pub children: Option<Vec<String>>,
}

/// The root of the git project that a target lies in, made absolute.
pub open spec fn git_root_of(t: Target) -> Option<Seq<char>> {
    match toplevel(crate::text::opt_text(t.git_output)) {
        Some(top) => match resolution(top, crate::text::opt_text(t.git_canonical), t.cwd) {
            Ok(p) => Some(p),
            Err(_) => None,
        },
        None => None,
    }
}

/// The root of the git project that a target lies in, made absolute.
pub fn enclosing_git_root(t: &Target) -> (r: Option<String>)
    ensures
        crate::text::opt_text(r) == git_root_of(*t),
{
    match git_toplevel(&t.git_output) {
        Some(top) => match resolve_path(top.as_str(), &t.git_canonical, &t.cwd) {
            Ok(p) => Some(p),
            Err(_) => None,
        },
        None => None,
    }
}

/// The message for a target that is no folder.
pub open spec fn no_folder_message(path: Seq<char>) -> Seq<char> {
    let msg = "project path not found or not a directory: "@ + path;
    if path.len() > 0 && path[0] == '~' {
        msg
            + "\n  hint: `~` is expanded by your shell — pass an absolute path, or leave `~` unquoted so the shell expands it"@
    } else {
        msg
    }
}

/// The message for a target inside a git project.
pub open spec fn not_root_message(path: Seq<char>, git_root: Seq<char>) -> Seq<char> {
    "project path is not a project root: "@ + path + "\nit is inside the git project at "@ + git_root
        + " — pass that path instead"@
}

/// What a target comes to.
pub open spec fn target_outcome(t: Target, cfg: Config) -> Result<Found, Seq<char>> {
    if !t.is_dir {
        Err(no_folder_message(t.path@))
    } else {
        match resolution(t.path@, crate::text::opt_text(t.canonical), t.cwd) {
            Err(e) => Err(e),
            Ok(path) => if git_root_of(t) matches Some(root) && !crate::paths::same_path(
                root,
                path,
            ) {
                Err(not_root_message(path, git_root_of(t)->0))
            } else {
                let entries = crate::text::texts(cfg.project_markers@);
                match first_glob_error(entries) {
                    Some(e) => Err(e),
                    None => Ok(
                        Found {
                            path,
                            marker: match folder_marker(
                                markers_of(entries),
                                child_texts(t.children),
                            ) {
                                Some(m) => m,
                                None => "(none)"@,
                            },
                        },
                    ),
                }
            },
        }
    }
}

/// The one project that was named, without walking any root. It must be a
/// folder, and if it lies in a git project it must be that project's root. A
/// folder without a marker is taken too, under the marker `(none)`.
pub fn discover_single(t: &Target, cfg: &Config) -> (r: Result<DiscoveredProject, String>)
    ensures
        match target_outcome(*t, *cfg) {
            Ok(found) => r is Ok && r->Ok_0@ == found,
            Err(e) => r is Err && r->Err_0@ == e,
        },
{
    if !t.is_dir {
        let mut msg = cat2("project path not found or not a directory: ", t.path.as_str());
        let chars = chars_of(t.path.as_str());
        if chars.len() > 0 && chars[0] == '~' {
            msg.append(
                "\n  hint: `~` is expanded by your shell — pass an absolute path, or leave `~` unquoted so the shell expands it",
            );
        }
        return Err(msg);
    }
    let resolved = match resolve_path(t.path.as_str(), &t.canonical, &t.cwd) {
        Ok(p) => p,
        Err(e) => {
            return Err(e);
        },
    };
    match enclosing_git_root(t) {
        Some(root) => {
            if !paths_equal(root.as_str(), resolved.as_str()) {
                let mut msg = cat3(
                    "project path is not a project root: ",
                    resolved.as_str(),
                    "\nit is inside the git project at ",
                );
                msg.append(root.as_str());
                msg.append(" — pass that path instead");
                return Err(msg);
            }
        },
        None => {},
    }
    let markers = match MarkerSet::from_entries(cfg.project_markers.as_slice()) {
        Ok(m) => m,
        Err(e) => {
            return Err(e);
        },
    };
    let marker = match find_marker_in(&t.children, &markers) {
        Some(m) => m,
        None => "(none)".to_owned(),
    };
    Ok(DiscoveredProject { path: resolved, marker })
}

/// The git internals are never walked into, whatever the catalog holds.
pub proof fn git_internals_are_pruned(patterns: Seq<Seq<char>>)
    ensures
        is_pruned(".git"@, patterns),
{
}

/// A folder with a `.git` is reported under that marker, in whatever order its
/// entries were listed.
pub proof fn git_marker_wins(m: Markers, children: Seq<Seq<char>>, shuffled: Seq<Seq<char>>)
    requires
        has_git_marker(m, children),
        forall|name: Seq<char>| #[trigger] children.contains(name) ==> shuffled.contains(name),
    ensures
        folder_marker(m, shuffled) == Some(".git"@),
{
    let i = choose|i: int|
        0 <= i < children.len() && marker_of(m, #[trigger] children[i]) == Some(".git"@);
    assert(children.contains(children[i]));
    let j = choose|j: int| 0 <= j < shuffled.len() && shuffled[j] == children[i];
    assert(marker_of(m, shuffled[j]) == Some(".git"@));
}

proof fn lemma_path_below_parts(root: Seq<char>, names: Seq<Seq<char>>)
    requires
        crate::paths::all_names(names),
    ensures
        crate::paths::parts(path_below(root, names)) == crate::paths::parts(root)
            + crate::paths::names(names),
    decreases names.len(),
{
    if names.len() == 0 {
        assert(crate::paths::parts(root) + crate::paths::names(names) =~= crate::paths::parts(
            root,
        ));
    } else {
        let front = names.drop_last();
        lemma_front_names(names);
        lemma_path_below_parts(root, front);
        assert(crate::paths::is_name(names[names.len() - 1]));
        crate::paths::joining_adds_a_component(path_below(root, front), names.last());
        assert(crate::paths::parts(root) + crate::paths::names(names) =~= (crate::paths::parts(root)
            + crate::paths::names(front)).push(crate::paths::Part::Name(names.last())));
    }
}

proof fn lemma_front_names(names: Seq<Seq<char>>)
    requires
        crate::paths::all_names(names),
        names.len() > 0,
    ensures
        crate::paths::all_names(names.drop_last()),
{
    let front = names.drop_last();
    assert forall|i: int| 0 <= i < front.len() implies crate::paths::is_name(
        #[trigger] front[i],
    ) by {
        assert(crate::paths::is_name(names[i]));
    }
}

proof fn lemma_same_holds(with_git: Seq<Seq<char>>, a: Seq<char>, b: Seq<char>)
    requires
        crate::paths::same_path(a, b),
    ensures
        crate::paths::holds_path(with_git, a) == crate::paths::holds_path(with_git, b),
{
}

proof fn lemma_parts_of_parent(p: Seq<char>)
    requires
        crate::paths::parts(p).len() > 0,
        crate::paths::parts(p).last() is Name,
    ensures
        crate::paths::parent_of(p) is Some,
        crate::paths::parts(crate::paths::parent_of(p)->0) == crate::paths::parts(p).drop_last(),
{
    crate::paths::lemma_name_has_parent(p);
    crate::paths::parent_drops_the_last_component(p);
}

/// The folders above an entry of a walk are those on the way to it from the
/// root: one of them is in `with_git` if and only if the entry lies inside a
/// git project.
pub proof fn git_above_means_on_the_way(
    p: Seq<char>,
    root: Seq<char>,
    names: Seq<Seq<char>>,
    with_git: Seq<Seq<char>>,
)
    requires
        crate::paths::all_names(names),
        crate::paths::same_path(p, path_below(root, names)),
    ensures
        git_above(p, root, with_git) <==> exists|k: int|
            0 <= k < names.len() && crate::paths::holds_path(
                with_git,
                #[trigger] path_below(root, names.take(k)),
            ),
    decreases names.len(),
{
    lemma_path_below_parts(root, names);
    let base = crate::paths::parts(root);
    if names.len() == 0 {
        assert(crate::paths::parts(p) =~= base);
    } else {
        assert(crate::paths::parts(p).len() != base.len());
        assert(crate::paths::parts(p).last() == crate::paths::Part::Name(names.last()));
        lemma_parts_of_parent(p);
        let above = crate::paths::parent_of(p)->0;
        let front = names.drop_last();
        lemma_front_names(names);
        lemma_path_below_parts(root, front);
        assert(crate::paths::parts(above) =~= base + crate::paths::names(front));
        git_above_means_on_the_way(above, root, front, with_git);
        lemma_same_holds(with_git, above, path_below(root, front));
        let last = names.len() - 1;
        assert(names.take(last) =~= front);
        if git_above(p, root, with_git) {
            if !crate::paths::holds_path(with_git, above) {
                let k = choose|k: int|
                    0 <= k < front.len() && crate::paths::holds_path(
                        with_git,
                        #[trigger] path_below(root, front.take(k)),
                    );
                assert(front.take(k) =~= names.take(k));
                assert(crate::paths::holds_path(with_git, path_below(root, names.take(k))));
            } else {
                assert(crate::paths::holds_path(with_git, path_below(root, names.take(last))));
            }
        }
        if exists|k: int|
            0 <= k < names.len() && crate::paths::holds_path(
                with_git,
                #[trigger] path_below(root, names.take(k)),
            ) {
            let k = choose|k: int|
                0 <= k < names.len() && crate::paths::holds_path(
                    with_git,
                    #[trigger] path_below(root, names.take(k)),
                );
            if k < last {
                assert(front.take(k) =~= names.take(k));
                assert(crate::paths::holds_path(with_git, path_below(root, front.take(k))));
            }
        }
    }
}

proof fn lemma_git_dir_listed(root: Seq<char>, entries: Seq<Result<WalkEntry, String>>, i: int)
    requires
        0 <= i < entries.len(),
        entries[i] is Ok,
        entries[i]->Ok_0.is_dir,
        entries[i]->Ok_0.has_git,
    ensures
        git_dirs(root, entries).contains(
            path_below(root, crate::text::texts(entries[i]->Ok_0.names@)),
        ),
    decreases entries.len(),
{
    let path = path_below(root, crate::text::texts(entries[i]->Ok_0.names@));
    let all = git_dirs(root, entries);
    let front = entries.drop_last();
    if i < entries.len() - 1 {
        lemma_git_dir_listed(root, front, i);
        let k = choose|k: int|
            0 <= k < git_dirs(root, front).len() && git_dirs(root, front)[k] == path;
        assert(all[k] == path);
    } else {
        assert(all[all.len() - 1] == path);
    }
}

/// The nesting rule: an entry below a folder that holds a `.git` is no project
/// of its own, whatever marks it, a `.git` of its own included.
pub proof fn nothing_inside_a_git_project_is_reported(
    root: Seq<char>,
    entries: Seq<Result<WalkEntry, String>>,
    rules: WalkRules,
    inner: int,
    outer: int,
)
    requires
        0 <= inner < entries.len(),
        0 <= outer < entries.len(),
        entries[inner] is Ok,
        entries[outer] is Ok,
        entries[outer]->Ok_0.is_dir,
        entries[outer]->Ok_0.has_git,
        crate::paths::all_names(crate::text::texts(entries[inner]->Ok_0.names@)),
        entries[outer]->Ok_0.names@.len() < entries[inner]->Ok_0.names@.len(),
        crate::text::texts(entries[outer]->Ok_0.names@).is_prefix_of(
            crate::text::texts(entries[inner]->Ok_0.names@),
        ),
    ensures
        entry_project(root, entries[inner]->Ok_0, git_dirs(root, entries), rules) is None,
{
    let names = crate::text::texts(entries[inner]->Ok_0.names@);
    let above = crate::text::texts(entries[outer]->Ok_0.names@);
    let with_git = git_dirs(root, entries);
    lemma_git_dir_listed(root, entries, outer);
    git_above_means_on_the_way(path_below(root, names), root, names, with_git);
    let k = above.len() as int;
    assert(names.take(k) =~= above);
    let at = choose|at: int| 0 <= at < with_git.len() && with_git[at] == path_below(root, above);
    assert(crate::paths::same_path(with_git[at], path_below(root, names.take(k))));
    assert(crate::paths::holds_path(with_git, path_below(root, names.take(k))));
}

/// Every project that a walk reports is one of its folders, within the depth,
/// with no pruned name on the way to it.
pub proof fn projects_are_entries_of_the_walk(
    root: Seq<char>,
    entries: Seq<Result<WalkEntry, String>>,
    with_git: Seq<Seq<char>>,
    rules: WalkRules,
    n: int,
) -> (i: int)
    requires
        0 <= n < projects_in(root, entries, with_git, rules).len(),
    ensures
        0 <= i < entries.len(),
        entries[i] is Ok,
        entries[i]->Ok_0.is_dir,
        in_walk(crate::text::texts(entries[i]->Ok_0.names@), rules.max_depth, rules.pruned),
        projects_in(root, entries, with_git, rules)[n].path == path_below(
            root,
            crate::text::texts(entries[i]->Ok_0.names@),
        ),
    decreases entries.len(),
{
    let front = entries.drop_last();
    if n < projects_in(root, front, with_git, rules).len() {
        projects_are_entries_of_the_walk(root, front, with_git, rules, n)
    } else {
        entries.len() - 1
    }
}

/// The path of an entry is absolute exactly when its root is.
pub proof fn paths_are_rooted_as_their_root(root: Seq<char>, names: Seq<Seq<char>>)
    requires
        crate::paths::all_names(names),
    ensures
        crate::paths::rooted(path_below(root, names)) == crate::paths::rooted(root),
    decreases names.len(),
{
    if names.len() > 0 {
        let front = names.drop_last();
        assert forall|i: int| 0 <= i < front.len() implies crate::paths::is_name(
            #[trigger] front[i],
        ) by {
            assert(front[i] == names[i]);
        }
        paths_are_rooted_as_their_root(root, front);
        let name = names[names.len() - 1];
        assert(crate::paths::is_name(name));
        assert(name[0] != '/') by {
            assert(name.contains(name[0]));
        }
    }
}

/// Whether a marker is read as a glob: it holds `*`, `?`, `[` or `{`.
pub open spec fn reads_as_glob(marker: Seq<char>) -> bool {
    marker.contains('*') || marker.contains('?') || marker.contains('[') || marker.contains('{')
}

proof fn lemma_reads_as_glob(s: Seq<char>)
    ensures
        is_glob(s) == reads_as_glob(s),
{
    if is_glob(s) {
        let i = choose|i: int| 0 <= i < s.len() && is_glob_char(#[trigger] s[i]);
        assert(s.contains(s[i]));
    }
    if reads_as_glob(s) {
        let c = if s.contains('*') {
            '*'
        } else if s.contains('?') {
            '?'
        } else if s.contains('[') {
            '['
        } else {
            '{'
        };
        let i = choose|i: int| 0 <= i < s.len() && s[i] == c;
        assert(is_glob_char(s[i]));
    }
}

/// Markers are told apart by their characters: those that read as globs are matched as
/// globs, all others as plain names, each kind in the order of the configuration.
pub proof fn markers_are_plain_names_or_globs(entries: Seq<Seq<char>>)
    ensures
        markers_of(entries).literals == entries.filter(|m: Seq<char>| !reads_as_glob(m)),
        markers_of(entries).globs == entries.filter(|m: Seq<char>| reads_as_glob(m)),
    decreases entries.len(),
{
    reveal(Seq::filter);
    if entries.len() > 0 {
        markers_are_plain_names_or_globs(entries.drop_last());
        lemma_reads_as_glob(entries.last());
    }
}

/// Markers are refused exactly when one that reads as a glob does not compile, with the
/// message of the first such one.
pub proof fn the_first_bad_glob_is_reported(entries: Seq<Seq<char>>)
    ensures
        first_glob_error(entries) is None <==> forall|i: int|
            0 <= i < entries.len() && reads_as_glob(#[trigger] entries[i]) ==> glob_error(
                entries[i],
            ) is None,
        first_glob_error(entries) is Some ==> exists|n: int|
            {
                &&& 0 <= n < entries.len()
                &&& reads_as_glob(#[trigger] entries[n])
                &&& glob_error(entries[n]) == first_glob_error(entries)
                &&& forall|i: int|
                    0 <= i < n && reads_as_glob(#[trigger] entries[i]) ==> glob_error(entries[i])
                        is None
            },
    decreases entries.len(),
{
    if entries.len() > 0 {
        let front = entries.drop_last();
        let last = entries.len() - 1;
        the_first_bad_glob_is_reported(front);
        lemma_reads_as_glob(entries.last());
        assert(entries[last] == entries.last());
        if first_glob_error(front) is Some {
            let n = choose|n: int|
                {
                    &&& 0 <= n < front.len()
                    &&& reads_as_glob(#[trigger] front[n])
                    &&& glob_error(front[n]) == first_glob_error(front)
                    &&& forall|i: int|
                        0 <= i < n && reads_as_glob(#[trigger] front[i]) ==> glob_error(front[i])
                            is None
                };
            assert(reads_as_glob(entries[n]));
            assert forall|i: int| 0 <= i < n && reads_as_glob(
                #[trigger] entries[i],
            ) implies glob_error(entries[i]) is None by {
                assert(front[i] == entries[i]);
            }
        } else {
            assert forall|i: int| 0 <= i < last && reads_as_glob(
                #[trigger] entries[i],
            ) implies glob_error(entries[i]) is None by {
                assert(front[i] == entries[i]);
            }
        }
    }
}

proof fn lemma_first_accepting(globs: Seq<Seq<char>>, name: Seq<char>)
    ensures
        match first_accepting(globs, name) {
            None => forall|i: int| 0 <= i < globs.len() ==> !glob_accepts(#[trigger] globs[i], name),
            Some(g) => exists|n: int|
                {
                    &&& 0 <= n < globs.len()
                    &&& #[trigger] globs[n] == g
                    &&& glob_accepts(g, name)
                    &&& forall|i: int| 0 <= i < n ==> !glob_accepts(#[trigger] globs[i], name)
                },
        },
    decreases globs.len(),
{
    if globs.len() > 0 {
        let front = globs.drop_last();
        lemma_first_accepting(front, name);
        assert(globs[globs.len() - 1] == globs.last());
        match first_accepting(front, name) {
            Some(g) => {
                let n = choose|n: int|
                    {
                        &&& 0 <= n < front.len()
                        &&& #[trigger] front[n] == g
                        &&& glob_accepts(g, name)
                        &&& forall|i: int| 0 <= i < n ==> !glob_accepts(#[trigger] front[i], name)
                    };
                assert(globs[n] == g);
                assert forall|i: int| 0 <= i < n implies !glob_accepts(
                    #[trigger] globs[i],
                    name,
                ) by {
                    assert(front[i] == globs[i]);
                }
            },
            None => {
                assert forall|i: int| 0 <= i < globs.len() - 1 implies !glob_accepts(
                    #[trigger] globs[i],
                    name,
                ) by {
                    assert(front[i] == globs[i]);
                }
            },
        }
    }
}

/// A name is an instance of the marker that equals it, if there is one, else of the
/// first glob that accepts it, and of none only where there is neither.
pub proof fn a_name_is_matched_by_itself_or_the_first_glob(m: Markers, name: Seq<char>)
    ensures
        m.literals.contains(name) ==> marker_of(m, name) == Some(name),
        !m.literals.contains(name) ==> match marker_of(m, name) {
            None => forall|i: int|
                0 <= i < m.globs.len() ==> !glob_accepts(#[trigger] m.globs[i], name),
            Some(g) => exists|n: int|
                {
                    &&& 0 <= n < m.globs.len()
                    &&& #[trigger] m.globs[n] == g
                    &&& glob_accepts(g, name)
                    &&& forall|i: int| 0 <= i < n ==> !glob_accepts(#[trigger] m.globs[i], name)
                },
        },
{
    lemma_first_accepting(m.globs, name);
}

/// A folder has a marker exactly when one of its children is an instance of one: `.git`
/// if any child is an instance of that, else the marker of the first child with one.
pub proof fn a_folder_is_marked_by_its_children(m: Markers, children: Seq<Seq<char>>)
    ensures
        (exists|i: int| 0 <= i < children.len() && marker_of(m, #[trigger] children[i]) == Some(
            ".git"@,
        )) ==> folder_marker(m, children) == Some(".git"@),
        folder_marker(m, children) is None <==> forall|i: int|
            0 <= i < children.len() ==> marker_of(m, #[trigger] children[i]) is None,
        folder_marker(m, children) is Some && folder_marker(m, children) != Some(".git"@)
            ==> exists|n: int|
            {
                &&& 0 <= n < children.len()
                &&& marker_of(m, #[trigger] children[n]) == folder_marker(m, children)
                &&& forall|i: int| 0 <= i < n ==> marker_of(m, #[trigger] children[i]) is None
            },
{
    lemma_first_marker(m, children);
}

proof fn lemma_first_marker(m: Markers, children: Seq<Seq<char>>)
    ensures
        match first_marker(m, children) {
            None => forall|i: int|
                0 <= i < children.len() ==> marker_of(m, #[trigger] children[i]) is None,
            Some(g) => exists|n: int|
                {
                    &&& 0 <= n < children.len()
                    &&& marker_of(m, #[trigger] children[n]) == Some(g)
                    &&& forall|i: int| 0 <= i < n ==> marker_of(m, #[trigger] children[i]) is None
                },
        },
    decreases children.len(),
{
    if children.len() > 0 {
        let front = children.drop_last();
        lemma_first_marker(m, front);
        assert(children[children.len() - 1] == children.last());
        match first_marker(m, front) {
            Some(g) => {
                let n = choose|n: int|
                    {
                        &&& 0 <= n < front.len()
                        &&& marker_of(m, #[trigger] front[n]) == Some(g)
                        &&& forall|i: int|
                            0 <= i < n ==> marker_of(m, #[trigger] front[i]) is None
                    };
                assert(marker_of(m, children[n]) == Some(g));
                assert forall|i: int| 0 <= i < n implies marker_of(
                    m,
                    #[trigger] children[i],
                ) is None by {
                    assert(front[i] == children[i]);
                }
            },
            None => {
                assert forall|i: int| 0 <= i < children.len() - 1 implies marker_of(
                    m,
                    #[trigger] children[i],
                ) is None by {
                    assert(front[i] == children[i]);
                }
            },
        }
    }
}

/// The names of an entry on the way from the root.
pub open spec fn names_of(entry: Result<WalkEntry, String>) -> Seq<Seq<char>> {
    crate::text::texts(entry->Ok_0.names@)
}

/// Whether an entry of a walk is a project: it could be read, is a folder no deeper than
/// asked for, no name on the way to it is pruned, no folder above it holds a `.git`, and
/// one of its children is an instance of a marker.
pub open spec fn is_project(
    root: Seq<char>,
    entry: Result<WalkEntry, String>,
    with_git: Seq<Seq<char>>,
    rules: WalkRules,
) -> bool {
    &&& entry is Ok
    &&& entry->Ok_0.is_dir
    &&& names_of(entry).len() <= rules.max_depth
    &&& forall|i: int|
        0 <= i < names_of(entry).len() ==> !rules.pruned.contains(#[trigger] names_of(entry)[i])
    &&& !git_above(path_below(root, names_of(entry)), root, with_git)
    &&& exists|i: int|
        0 <= i < child_texts(entry->Ok_0.children).len() && marker_of(
            rules.markers,
            #[trigger] child_texts(entry->Ok_0.children)[i],
        ) is Some
}

/// The projects that a walk reports are those of its entries that are projects, all of
/// them, in the order of the walk, each at its own path and with its own marker.
pub proof fn every_project_of_a_walk_is_reported(
    root: Seq<char>,
    entries: Seq<Result<WalkEntry, String>>,
    with_git: Seq<Seq<char>>,
    rules: WalkRules,
)
    ensures
        projects_in(root, entries, with_git, rules) == entries.filter(
            |e: Result<WalkEntry, String>| is_project(root, e, with_git, rules),
        ).map_values(
            |e: Result<WalkEntry, String>|
                Found {
                    path: path_below(root, names_of(e)),
                    marker: folder_marker(rules.markers, child_texts(e->Ok_0.children))->0,
                },
        ),
    decreases entries.len(),
{
    reveal(Seq::filter);
    let keep = |e: Result<WalkEntry, String>| is_project(root, e, with_git, rules);
    let found = |e: Result<WalkEntry, String>|
        Found {
            path: path_below(root, names_of(e)),
            marker: folder_marker(rules.markers, child_texts(e->Ok_0.children))->0,
        };
    if entries.len() > 0 {
        let front = entries.drop_last();
        let last = entries.last();
        every_project_of_a_walk_is_reported(root, front, with_git, rules);
        let before = front.filter(keep);
        if last is Ok {
            let children = child_texts(last->Ok_0.children);
            a_folder_is_marked_by_its_children(rules.markers, children);
            assert(keep(last) == (entry_project(root, last->Ok_0, with_git, rules) is Some)) by {
                if folder_marker(rules.markers, children) is Some {
                    let i = choose|i: int|
                        0 <= i < children.len() && marker_of(rules.markers, #[trigger] children[i])
                            is Some;
                    assert(marker_of(rules.markers, children[i]) is Some);
                }
            }
        }
        if keep(last) {
            assert(before.push(last).map_values(found) =~= before.map_values(found).push(
                found(last),
            ));
        }
    } else {
        assert(entries.filter(keep).map_values(found) =~= Seq::<Found>::empty());
    }
}

/// An entry that is a project is among those that the walk reports, at its own path and
/// with its marker, whatever stands before or after it.
pub proof fn a_project_is_not_left_out(
    root: Seq<char>,
    entries: Seq<Result<WalkEntry, String>>,
    with_git: Seq<Seq<char>>,
    rules: WalkRules,
    i: int,
)
    requires
        0 <= i < entries.len(),
        is_project(root, entries[i], with_git, rules),
    ensures
        projects_in(root, entries, with_git, rules).contains(
            Found {
                path: path_below(root, names_of(entries[i])),
                marker: folder_marker(rules.markers, child_texts(entries[i]->Ok_0.children))->0,
            },
        ),
{
    every_project_of_a_walk_is_reported(root, entries, with_git, rules);
    let keep = |e: Result<WalkEntry, String>| is_project(root, e, with_git, rules);
    let kept = entries.filter(keep);
    assert(keep(entries[i]));
    assert(kept.contains(entries[i])) by {
        broadcast use vstd::seq_lib::group_filter_ensures;

        assert(entries.contains(entries[i]));
    }
    let k = choose|k: int| 0 <= k < kept.len() && kept[k] == entries[i];
    let all = projects_in(root, entries, with_git, rules);
    assert(all[k] == Found {
        path: path_below(root, names_of(entries[i])),
        marker: folder_marker(rules.markers, child_texts(entries[i]->Ok_0.children))->0,
    });
}

/// The folders with a `.git` are all those of the walk that could be read and hold one.
pub proof fn every_folder_with_git_counts(
    root: Seq<char>,
    entries: Seq<Result<WalkEntry, String>>,
)
    ensures
        git_dirs(root, entries) == entries.filter(
            |e: Result<WalkEntry, String>| e is Ok && e->Ok_0.is_dir && e->Ok_0.has_git,
        ).map_values(|e: Result<WalkEntry, String>| path_below(root, names_of(e))),
    decreases entries.len(),
{
    reveal(Seq::filter);
    let keep = |e: Result<WalkEntry, String>| e is Ok && e->Ok_0.is_dir && e->Ok_0.has_git;
    let path = |e: Result<WalkEntry, String>| path_below(root, names_of(e));
    if entries.len() > 0 {
        let front = entries.drop_last();
        every_folder_with_git_counts(root, front);
        let before = front.filter(keep);
        if keep(entries.last()) {
            assert(before.push(entries.last()).map_values(path) =~= before.map_values(path).push(
                path(entries.last()),
            ));
        }
    } else {
        assert(entries.filter(keep).map_values(path) =~= Seq::<Seq<char>>::empty());
    }
}

/// A walk fails exactly when some entry could not be read, with the message of the first
/// such one; what counts is what comes before it.
pub proof fn the_first_error_of_a_walk_counts(entries: Seq<Result<WalkEntry, String>>)
    ensures
        walk_error(entries) is None <==> forall|i: int|
            0 <= i < entries.len() ==> #[trigger] entries[i] is Ok,
        walk_error(entries) is None ==> before_error(entries) == entries,
        walk_error(entries) is Some ==> exists|n: int|
            {
                &&& 0 <= n < entries.len()
                &&& #[trigger] entries[n] is Err
                &&& walk_error(entries) == Some(entries[n]->Err_0@)
                &&& before_error(entries) == entries.take(n)
                &&& forall|i: int| 0 <= i < n ==> #[trigger] entries[i] is Ok
            },
    decreases entries.len(),
{
    if entries.len() > 0 {
        let front = entries.drop_last();
        let last = entries.len() - 1;
        the_first_error_of_a_walk_counts(front);
        assert(entries[last] == entries.last());
        if walk_error(front) is Some {
            let n = choose|n: int|
                {
                    &&& 0 <= n < front.len()
                    &&& #[trigger] front[n] is Err
                    &&& walk_error(front) == Some(front[n]->Err_0@)
                    &&& before_error(front) == front.take(n)
                    &&& forall|i: int| 0 <= i < n ==> #[trigger] front[i] is Ok
                };
            assert(entries[n] is Err);
            assert(front.take(n) =~= entries.take(n));
            assert forall|i: int| 0 <= i < n implies #[trigger] entries[i] is Ok by {
                assert(front[i] == entries[i]);
            }
        } else {
            assert forall|i: int| 0 <= i < last implies #[trigger] entries[i] is Ok by {
                assert(front[i] == entries[i]);
            }
            assert(entries.take(last) =~= front);
        }
    }
}

/// Roots are walked independently of each other: what they come to together is what each
/// comes to by itself, one after the other; the first that fails fails them all.
pub proof fn roots_add_up(
    roots: Seq<Seq<char>>,
    walks: Seq<RootWalk>,
    rules: WalkRules,
)
    requires
        walks.len() <= roots.len(),
    ensures
        match walks_outcome(roots, walks, rules) {
            Ok(found) => {
                &&& forall|i: int|
                    0 <= i < walks.len() ==> walk_outcome(roots[i], #[trigger] walks[i], rules)
                        is Ok
                &&& found == Seq::new(
                    walks.len(),
                    |i: int| walk_outcome(roots[i], walks[i], rules)->Ok_0,
                ).flatten_alt()
            },
            Err(e) => exists|n: int|
                {
                    &&& 0 <= n < walks.len()
                    &&& walk_outcome(roots[n], #[trigger] walks[n], rules) == Err::<
                        Seq<Found>,
                        Seq<char>,
                    >(e)
                    &&& forall|i: int|
                        0 <= i < n ==> walk_outcome(roots[i], #[trigger] walks[i], rules) is Ok
                },
        },
    decreases walks.len(),
{
    let each = Seq::new(walks.len(), |i: int| walk_outcome(roots[i], walks[i], rules)->Ok_0);
    if walks.len() == 0 {
        assert(each.flatten_alt() =~= Seq::<Found>::empty());
    } else {
        let front = walks.drop_last();
        let last = walks.len() - 1;
        roots_add_up(roots, front, rules);
        assert(walks[last] == walks.last());
        let fewer = Seq::new(front.len(), |i: int| walk_outcome(roots[i], front[i], rules)->Ok_0);
        assert(each.drop_last() =~= fewer) by {
            assert forall|i: int| 0 <= i < last implies #[trigger] each[i] == fewer[i] by {
                assert(front[i] == walks[i]);
            }
        }
        match walks_outcome(roots, front, rules) {
            Err(e) => {
                let n = choose|n: int|
                    {
                        &&& 0 <= n < front.len()
                        &&& walk_outcome(roots[n], #[trigger] front[n], rules) == Err::<
                            Seq<Found>,
                            Seq<char>,
                        >(e)
                        &&& forall|i: int|
                            0 <= i < n ==> walk_outcome(roots[i], #[trigger] front[i], rules) is Ok
                    };
                assert(walk_outcome(roots[n], walks[n], rules) == Err::<Seq<Found>, Seq<char>>(e));
                assert forall|i: int| 0 <= i < n implies walk_outcome(
                    roots[i],
                    #[trigger] walks[i],
                    rules,
                ) is Ok by {
                    assert(front[i] == walks[i]);
                }
            },
            Ok(_) => {
                assert forall|i: int| 0 <= i < last implies walk_outcome(
                    roots[i],
                    #[trigger] walks[i],
                    rules,
                ) is Ok by {
                    assert(front[i] == walks[i]);
                }
                assert(each.last() == walk_outcome(roots[last], walks[last], rules)->Ok_0);
            },
        }
    }
}

/// A root that is no folder fails; a root whose entries could all be read gives its
/// projects; else the first error fails it.
pub proof fn a_walk_comes_to_its_projects(root: Seq<char>, walk: RootWalk, rules: WalkRules)
    ensures
        walk_outcome(root, walk, rules) is Ok <==> walk.is_dir && forall|i: int|
            0 <= i < walk.entries@.len() ==> #[trigger] walk.entries@[i] is Ok,
        walk_outcome(root, walk, rules) is Ok ==> walk_outcome(root, walk, rules)->Ok_0
            == walk_found(root, walk, rules) && walk_outcome(root, walk, rules)->Ok_0
            == walk.entries@.filter(
            |e: Result<WalkEntry, String>|
                is_project(root, e, git_dirs(root, walk.entries@), rules),
        ).map_values(
            |e: Result<WalkEntry, String>|
                Found {
                    path: path_below(root, names_of(e)),
                    marker: folder_marker(rules.markers, child_texts(e->Ok_0.children))->0,
                },
        ),
        !walk.is_dir ==> walk_found(root, walk, rules) == Seq::<Found>::empty(),
{
    the_first_error_of_a_walk_counts(walk.entries@);
    every_project_of_a_walk_is_reported(
        root,
        walk.entries@,
        git_dirs(root, walk.entries@),
        rules,
    );
}

/// A folder is not walked into exactly when it is `.git`, or the catalog has a pattern for
/// its plain name alone: the name itself, or the name behind `**/`. A name with a slash
/// or a glob in it, and one behind a `!`, is never pruned by a pattern.
pub proof fn only_plain_names_are_pruned(name: Seq<char>, patterns: Seq<Seq<char>>)
    ensures
        is_pruned(name, patterns) <==> name == ".git"@ || (name.len() > 0 && !name.contains('/')
            && name[0] != '!' && !reads_as_glob(name) && (patterns.contains(name)
            || patterns.contains("**/"@ + name))),
{
    reveal_strlit("**/");
    let deep = "**/"@;
    lemma_reads_as_glob(name);
    assert((deep + name).skip(3) =~= name);
    assert(deep.is_prefix_of(deep + name));
    if name != ".git"@ && is_pruned(name, patterns) {
        let i = choose|i: int|
            0 <= i < patterns.len() && pruned_name(#[trigger] patterns[i]) == Some(name);
        if deep.is_prefix_of(patterns[i]) {
            assert(patterns[i] =~= deep + name);
            assert(patterns.contains(deep + name));
        } else {
            assert(patterns.contains(name));
        }
    }
    if name.len() > 0 && !name.contains('/') && name[0] != '!' && !reads_as_glob(name) {
        assert(!deep.is_prefix_of(name)) by {
            if deep.is_prefix_of(name) {
                assert(name[2] == deep[2]);
                assert(name.contains(name[2]));
            }
        }
        if patterns.contains(name) {
            let i = choose|i: int| 0 <= i < patterns.len() && patterns[i] == name;
            assert(pruned_name(patterns[i]) == Some(name));
        }
        if patterns.contains(deep + name) {
            let i = choose|i: int| 0 <= i < patterns.len() && patterns[i] == deep + name;
            assert(pruned_name(patterns[i]) == Some(name));
        }
    }
}

/// A target that lies in a git project but is not its root is refused, and so is one that
/// is no folder; any other folder is a project at its real path, with the marker of its
/// children, or `(none)`.
pub proof fn only_whole_projects_are_targets(t: Target, cfg: Config, path: Seq<char>)
    requires
        t.canonical is Some,
        t.canonical->0@ == path,
        first_glob_error(crate::text::texts(cfg.project_markers@)) is None,
    ensures
        target_outcome(t, cfg) is Ok <==> t.is_dir && (git_root_of(t) is None
            || crate::paths::parts(git_root_of(t)->0) == crate::paths::parts(path)),
        target_outcome(t, cfg) is Ok ==> {
            let marker = folder_marker(
                markers_of(crate::text::texts(cfg.project_markers@)),
                child_texts(t.children),
            );
            target_outcome(t, cfg)->Ok_0.path == path && target_outcome(t, cfg)->Ok_0.marker
                == if marker is Some {
                marker->0
            } else {
                "(none)"@
            }
        },
        t.git_output is None || crate::classify::is_blank(t.git_output->0@) ==> git_root_of(t)
            is None,
        t.git_output is Some && !crate::classify::is_blank(t.git_output->0@) && t.git_canonical
            is Some ==> git_root_of(t) == Some(t.git_canonical->0@),
{
    if t.git_output is Some {
        let r = crate::text::trimming_takes_off_white_ends(t.git_output->0@);
    }
}

/// The rules of a walk are those of the configuration: its depth, its markers, and as
/// pruned names `.git` and the plain names of the built-in and the configured patterns.
pub proof fn walks_go_by_the_configuration(cfg: Config, name: Seq<char>)
    ensures
        rules_of(cfg).max_depth == cfg.max_depth,
        rules_of(cfg).markers == markers_of(crate::text::texts(cfg.project_markers@)),
        rules_of(cfg).pruned.contains(".git"@),
        rules_of(cfg).pruned.contains(name) <==> is_pruned(
            name,
            crate::safelist::built_in_defaults() + crate::text::texts(cfg.safe_delete@),
        ),
{
}

/// A path resolves to what the file system makes of it; where that says nothing, to its
/// normal form, which a relative path has only where the current directory is known.
pub proof fn paths_resolve_where_they_can(
    path: Seq<char>,
    canonical: Option<Seq<char>>,
    cwd: Result<String, String>,
)
    ensures
        resolution(path, canonical, cwd) is Err <==> canonical is None && !(path.len() > 0
            && path[0] == '/') && cwd is Err,
        canonical is Some ==> resolution(path, canonical, cwd)->Ok_0 == canonical->0,
        canonical is None && cwd is Ok ==> resolution(path, canonical, cwd)
            == Ok::<Seq<char>, Seq<char>>(crate::paths::normalized(path, cwd->Ok_0@)),
{
}

/// A run discovers what the walks of its roots come to under its own configuration, and
/// fails on the first bad marker before it walks anything.
pub proof fn discovery_goes_by_the_configuration(cfg: Config, walks: Seq<RootWalk>)
    requires
        walks.len() <= cfg.workspace_roots@.len(),
    ensures
        first_glob_error(crate::text::texts(cfg.project_markers@)) is None && discovered(
            cfg,
            walks,
        ) is Ok ==> discovered(cfg, walks)->Ok_0 == Seq::new(
            walks.len(),
            |i: int|
                walk_outcome(cfg.workspace_roots@[i]@, walks[i], rules_of(cfg))->Ok_0,
        ).flatten_alt(),
        discovered(cfg, walks) is Ok <==> first_glob_error(
            crate::text::texts(cfg.project_markers@),
        ) is None && forall|i: int|
            0 <= i < walks.len() ==> walk_outcome(
                cfg.workspace_roots@[i]@,
                #[trigger] walks[i],
                rules_of(cfg),
            ) is Ok,
{
    let roots = crate::text::texts(cfg.workspace_roots@);
    let rules = rules_of(cfg);
    roots_add_up(roots, walks, rules);
    assert(forall|i: int| 0 <= i < roots.len() ==> roots[i] == cfg.workspace_roots@[i]@);
    if walks_outcome(roots, walks, rules) is Ok {
        assert(Seq::new(walks.len(), |i: int| walk_outcome(roots[i], walks[i], rules)->Ok_0)
            =~= Seq::new(
            walks.len(),
            |i: int| walk_outcome(cfg.workspace_roots@[i]@, walks[i], rules_of(cfg))->Ok_0,
        ));
    }
}

/// A project stands for what it holds, and a list of projects for all of them in order.
pub proof fn finds_stand_for_what_they_hold(v: Seq<DiscoveredProject>, i: int)
    requires
        0 <= i < v.len(),
    ensures
        found_views(v).len() == v.len(),
        found_views(v)[i].path == v[i].path@,
        found_views(v)[i].marker == v[i].marker@,
{
}

/// What git says of the top of a tree counts without the white space around it, and only
/// if anything is left.
pub proof fn a_blank_toplevel_is_none(text: Seq<char>)
    ensures
        toplevel(None) is None,
        toplevel(Some(text)) is Some <==> exists|i: int|
            0 <= i < text.len() && !crate::text::is_white(#[trigger] text[i]),
        toplevel(Some(text)) is Some ==> toplevel(Some(text))->0 == crate::text::trimmed(text),
{
    let (from, to) = crate::text::trimming_takes_off_white_ends(text);
    if toplevel(Some(text)) is Some {
        assert(!crate::text::is_white(text[from]));
    }
}

} // verus!
