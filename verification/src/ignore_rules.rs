//! Ignore rules: which paths of a project are protected.
//!
//! Rules are written in gitignore syntax, in layers. The weakest layer is the
//! user's global file, anchored at the project root; every `.devcleanignore`
//! inside the project adds a layer anchored at its own directory. A path is
//! judged by the innermost layer that has a verdict on it, and inside one
//! layer a path without a rule of its own takes the verdict of the directory
//! it lies in, up to the layer's anchor.
//!
//! Paths are relative to the project root throughout. A layer's anchor is
//! stripped here, so every matcher is built with an empty root.

use vstd::prelude::*;

use ::ignore::gitignore::{Gitignore, GitignoreBuilder};

use crate::paths::{absolute_path, has_root, join_path, strip_prefix};
use crate::text::{chars_of, lines, same, starts_with, trim};

verus! {

/// The name of an ignore file.
pub const IGNORE_FILE: &'static str = ".devcleanignore";

/// A compiled matcher of the `ignore` crate.
#[verifier::external_type_specification]
#[verifier::external_body]
pub struct ExGitignore(::ignore::gitignore::Gitignore);

/// A matcher of the `ignore` crate that is still taking lines.
#[verifier::external_type_specification]
#[verifier::external_body]
pub struct ExGitignoreBuilder(::ignore::gitignore::GitignoreBuilder);

/// The lines that a matcher was compiled from.
pub uninterp spec fn rules_of(matcher: Gitignore) -> Seq<Seq<char>>;

/// The lines that a builder has taken so far.
pub uninterp spec fn lines_taken(builder: GitignoreBuilder) -> Seq<Seq<char>>;

/// The message with which `GitignoreBuilder::add_line` refuses a line, `None`
/// for a line that it takes.
pub uninterp spec fn line_error(line: Seq<char>) -> Option<Seq<char>>;

/// The message with which `GitignoreBuilder::build` refuses the lines taken,
/// `None` for lines that it compiles.
pub uninterp spec fn rules_error(rules: Seq<Seq<char>>) -> Option<Seq<char>>;

/// What the rules say of one path by themselves, its parents aside:
/// `Some(true)` to ignore it, `Some(false)` to take it back with `!`.
pub uninterp spec fn own_verdict(
    rules: Seq<Seq<char>>,
    path: Seq<char>,
    is_dir: bool,
) -> Option<bool>;

/// The path without the `./` that may lead it.
pub open spec fn without_dot_slash(p: Seq<char>) -> Seq<char> {
    if seq!['.', '/'].is_prefix_of(p) {
        let rest = p.skip(2);
        if crate::paths::rooted(rest) {
            rest.skip(1)
        } else {
            rest
        }
    } else {
        p
    }
}

/// Whether a path can be matched: it is relative, and stays so when the `./`
/// that may lead it is taken off.
pub open spec fn matchable(p: Seq<char>) -> bool {
    !crate::paths::rooted(p) && !seq!['.', '/', '/', '/'].is_prefix_of(p)
}

/// What the rules say of a path: their own verdict on it or, failing that,
/// what they say of the directory it lies in.
pub open spec fn inherited(rules: Seq<Seq<char>>, path: Seq<char>, is_dir: bool) -> Option<bool>
    decreases path.len(),
{
    let own = own_verdict(rules, path, is_dir);
    if own is Some {
        own
    } else {
        proof {
            crate::paths::lemma_parent_is_shorter(path);
        }
        match crate::paths::parent_of(path) {
            Some(dir) => inherited(rules, dir, true),
            None => None,
        }
    }
}

/// One layer of rules: the directory it is anchored at and its lines.
pub struct LayerRules {
    pub anchor: Seq<char>,
    pub rules: Seq<Seq<char>>,
}

/// The path as a layer anchored at `anchor` sees it; `None` for a path that
/// does not lie below the anchor.
pub open spec fn below(anchor: Seq<char>, path: Seq<char>) -> Option<Seq<char>> {
    if anchor.len() == 0 {
        Some(path)
    } else {
        crate::paths::stripped(path, anchor)
    }
}

/// What one layer says of a path. A layer without rules says nothing.
pub open spec fn layer_verdict(layer: LayerRules, path: Seq<char>, is_dir: bool) -> Option<bool> {
    match below(layer.anchor, path) {
        Some(rel) => if layer.rules.len() == 0 {
            None
        } else {
            inherited(layer.rules, without_dot_slash(rel), is_dir)
        },
        None => None,
    }
}

/// Whether the layers ignore a path: the innermost (last) layer that has a
/// verdict decides.
pub open spec fn ignored_by(layers: Seq<LayerRules>, path: Seq<char>, is_dir: bool) -> bool
    decreases layers.len(),
{
    if layers.len() == 0 {
        false
    } else {
        match layer_verdict(layers.last(), path, is_dir) {
            Some(verdict) => verdict,
            None => ignored_by(layers.drop_last(), path, is_dir),
        }
    }
}

/// Whether the layers ignore a path that must be relative to the project root;
/// an absolute path is not ignored.
pub open spec fn ignores(layers: Seq<LayerRules>, path: Seq<char>, is_dir: bool) -> bool {
    !crate::paths::rooted(path) && ignored_by(layers, path, is_dir)
}

/// The message for the first of `rules` that is refused.
pub open spec fn first_line_error(rules: Seq<Seq<char>>) -> Option<Seq<char>>
    decreases rules.len(),
{
    if rules.len() == 0 {
        None
    } else {
        let before = first_line_error(rules.drop_last());
        if before is Some {
            before
        } else {
            line_error(rules.last())
        }
    }
}

/// Why `rules` cannot be compiled, `None` where they can.
pub open spec fn refusal(rules: Seq<Seq<char>>) -> Option<Seq<char>> {
    let line = first_line_error(rules);
    if line is Some {
        line
    } else {
        rules_error(rules)
    }
}

/// Whether a line of an ignore file carries a pattern: it is neither blank
/// nor a comment.
pub open spec fn has_pattern(line: Seq<char>) -> bool {
    let t = crate::text::trimmed(line);
    t.len() > 0 && t[0] != '#'
}

/// The lines of an ignore file that carry a pattern.
pub open spec fn pattern_lines(all: Seq<Seq<char>>) -> Seq<Seq<char>>
    decreases all.len(),
{
    if all.len() == 0 {
        Seq::empty()
    } else {
        let before = pattern_lines(all.drop_last());
        if has_pattern(all.last()) {
            before.push(all.last())
        } else {
            before
        }
    }
}

/// `GitignoreBuilder::new` with an empty root: a builder that has taken no
/// line.
#[verifier::external_body]
fn new_builder() -> (builder: GitignoreBuilder)
    ensures
        lines_taken(builder) == Seq::<Seq<char>>::empty(),
{
    GitignoreBuilder::new("")
}

/// `GitignoreBuilder::add_line`: takes the line, or refuses it with a message
/// and leaves the builder as it was. Which of the two depends on the line
/// alone; `from` is only recorded.
#[verifier::external_body]
fn add_line(builder: &mut GitignoreBuilder, from: &str, line: &str) -> (r: Result<(), String>)
    ensures
        r is Ok ==> line_error(line@) is None && lines_taken(*final(builder)) == lines_taken(
            *old(builder),
        ).push(line@),
        r is Err ==> line_error(line@) == Some(r->Err_0@) && *final(builder) == *old(builder),
{
    match builder.add_line(Some(std::path::PathBuf::from(from)), line) {
        Ok(_) => Ok(()),
        Err(e) => Err(e.to_string()),
    }
}

/// `GitignoreBuilder::build`: compiles the lines taken, or refuses them with a
/// message. No lines always compile.
#[verifier::external_body]
fn build(builder: &GitignoreBuilder) -> (r: Result<Gitignore, String>)
    ensures
        r is Ok ==> rules_error(lines_taken(*builder)) is None && rules_of(r->Ok_0) == lines_taken(
            *builder,
        ),
        r is Err ==> rules_error(lines_taken(*builder)) == Some(r->Err_0@) && lines_taken(
            *builder,
        ).len() > 0,
{
    builder.build().map_err(|e| e.to_string())
}

/// `Gitignore::matched_path_or_any_parents`: the rules' own verdict on the
/// path, else on its parent taken as a directory, and so on up. A matcher
/// without rules has no verdict on anything. A `./` that leads the path is
/// dropped first; a path that is rooted after that makes the call panic and is
/// left out.
#[verifier::external_body]
fn matched(matcher: &Gitignore, path: &str, is_dir: bool) -> (r: Option<bool>)
    requires
        matchable(path@),
    ensures
        ({
            let rules = rules_of(*matcher);
            let p = without_dot_slash(path@);
            r == match own_verdict(rules, p, is_dir) {
                Some(verdict) => Some(verdict),
                None => match crate::paths::parent_of(p) {
                    Some(dir) => inherited(rules, dir, true),
                    None => None,
                },
            }
        }),
        rules_of(*matcher).len() == 0 ==> r is None,
{
    match matcher.matched_path_or_any_parents(path, is_dir) {
        ::ignore::Match::None => None,
        ::ignore::Match::Ignore(_) => Some(true),
        ::ignore::Match::Whitelist(_) => Some(false),
    }
}

/// `Gitignore::clone`: a matcher of the same rules.
pub assume_specification[ <Gitignore as Clone>::clone ](matcher: &Gitignore) -> (r: Gitignore)
    ensures
        rules_of(r) == rules_of(*matcher),
;

/// Whether a path can be matched (see [`matchable`]); one that cannot must
/// not be handed to [`IgnoreSet::is_ignored_path`].
pub fn is_matchable(path: &str) -> (r: bool)
    ensures
        r == (crate::paths::rooted(path@) || matchable(path@)),
{
    proof {
        reveal_strlit(".///");
        assert(".///"@ =~= seq!['.', '/', '/', '/']);
        if seq!['.', '/', '/', '/'].is_prefix_of(path@) {
            assert(path@[0] == seq!['.', '/', '/', '/'][0]);
        }
    }
    !starts_with(&chars_of(path), ".///")
}

/// The global ignore file of a user with this home directory; `None` for a user
/// without one.
pub fn global_ignore_path_in(home: Option<String>) -> (out: Option<String>)
    ensures
        crate::text::opt_text(out) == match home {
            Some(h) => Some(crate::paths::joined_path(h@, IGNORE_FILE@)),
            None => None,
        },
{
    match home {
        Some(h) => Some(join_path(h.as_str(), IGNORE_FILE)),
        None => None,
    }
}

/// The global ignore file of the current user. It need not be there.
pub fn global_ignore_path() -> (out: Option<String>)
    ensures
        out matches Some(p) ==> exists|h: Seq<char>|
            p@ == #[trigger] crate::paths::joined_path(h, IGNORE_FILE@),
{
    let home = crate::output::home_dir();
    let ghost h = crate::text::opt_text(home);
    let out = global_ignore_path_in(home);
    assert(out is Some ==> out->0@ == crate::paths::joined_path(h->0, IGNORE_FILE@));
    out
}

/// One layer of rules.
#[derive(Debug)]
struct Layer {
    anchor: String,
    matcher: Gitignore,
}

/// The root that a set looks paths up below: the project root made absolute, or
/// as it was given where that cannot be.
pub open spec fn absolute_root(project_root: Seq<char>, cwd: Option<Seq<char>>) -> Seq<char> {
    match crate::paths::made_absolute(project_root, cwd) {
        Some(root) => root,
        None => project_root,
    }
}

fn root_in(project_root: &str, cwd: Option<&str>) -> (out: String)
    ensures
        out@ == absolute_root(project_root@, crate::text::str_text(cwd)),
{
    match absolute_path(project_root, cwd) {
        Some(root) => root,
        None => project_root.to_owned(),
    }
}

/// The ignore rules of one project, outermost layer first.
#[derive(Debug)]
pub struct IgnoreSet {
    root: String,
    layers: Vec<Layer>,
}

fn copy_layer(layer: &Layer) -> (r: Layer)
    ensures
        layer_view(r) == layer_view(*layer),
{
    Layer { anchor: layer.anchor.clone(), matcher: layer.matcher.clone() }
}

spec fn layer_view(layer: Layer) -> LayerRules {
    LayerRules { anchor: layer.anchor@, rules: rules_of(layer.matcher) }
}

spec fn layer_views(layers: Seq<Layer>) -> Seq<LayerRules> {
    layers.map_values(|l: Layer| layer_view(l))
}

/// The layer that a pair of an anchor and patterns stands for.
pub open spec fn layer_of(pair: (&str, &[&str])) -> LayerRules {
    LayerRules { anchor: pair.0@, rules: crate::text::str_texts(pair.1@) }
}

/// The message for the first of `layers` whose rules do not compile.
pub open spec fn first_refusal(layers: Seq<LayerRules>) -> Option<Seq<char>>
    decreases layers.len(),
{
    if layers.len() == 0 {
        None
    } else {
        let before = first_refusal(layers.drop_last());
        if before is Some {
            before
        } else {
            refusal(layers.last().rules)
        }
    }
}

/// An ignore file of a project: the directory it lies in and its text.
pub struct IgnoreFile {
    pub dir: String,
    pub text: String,
}

/// The anchor of the layer for an ignore file in `dir`.
pub open spec fn anchor_of(project_root: Seq<char>, dir: Seq<char>) -> Seq<char> {
    match crate::paths::stripped(dir, project_root) {
        Some(rel) => rel,
        None => Seq::empty(),
    }
}

/// The layers that ignore files give, in order; a file without patterns gives
/// none.
pub open spec fn layers_of_files(
    project_root: Seq<char>,
    files: Seq<IgnoreFile>,
) -> Seq<LayerRules>
    decreases files.len(),
{
    if files.len() == 0 {
        Seq::empty()
    } else {
        let before = layers_of_files(project_root, files.drop_last());
        let rules = pattern_lines(crate::text::lines_of(files.last().text@));
        if rules.len() == 0 {
            before
        } else {
            before.push(LayerRules { anchor: anchor_of(project_root, files.last().dir@), rules })
        }
    }
}

/// The layer of the global ignore file, if it has any patterns.
pub open spec fn global_layers(global: Option<&str>) -> Seq<LayerRules> {
    match global {
        Some(text) => {
            let rules = pattern_lines(crate::text::lines_of(text@));
            if rules.len() == 0 {
                Seq::empty()
            } else {
                seq![LayerRules { anchor: Seq::empty(), rules }]
            }
        },
        None => Seq::empty(),
    }
}

/// Compiles `rules` in order, stopping at the first line that is refused.
fn compile(from: &str, rules: &[&str]) -> (r: Result<Gitignore, String>)
    ensures
        r is Ok ==> refusal(crate::text::str_texts(rules@)) is None && rules_of(r->Ok_0)
            == crate::text::str_texts(rules@),
        r is Err ==> refusal(crate::text::str_texts(rules@)) == Some(r->Err_0@),
        rules@.len() == 0 ==> r is Ok,
{
    let mut b = new_builder();
    let ghost all = crate::text::str_texts(rules@);
    let mut i: usize = 0;
    assert(all.take(0) =~= Seq::<Seq<char>>::empty());
    while i < rules.len()
        invariant
            i <= rules@.len(),
            all == crate::text::str_texts(rules@),
            lines_taken(b) == all.take(i as int),
            first_line_error(all.take(i as int)) is None,
        decreases rules@.len() - i,
    {
        assert(all.take(i + 1).drop_last() =~= all.take(i as int));
        assert(all[i as int] == rules@[i as int]@);
        match add_line(&mut b, from, rules[i]) {
            Ok(()) => {
                assert(lines_taken(b) =~= all.take(i + 1));
            },
            Err(e) => {
                proof {
                    lemma_first_error_stays(all, i + 1);
                }
                return Err(e);
            },
        }
        i = i + 1;
    }
    assert(all.take(i as int) =~= all);
    build(&b)
}

proof fn lemma_first_error_stays(rules: Seq<Seq<char>>, n: int)
    requires
        0 <= n <= rules.len(),
        first_line_error(rules.take(n)) is Some,
    ensures
        first_line_error(rules) == first_line_error(rules.take(n)),
    decreases rules.len(),
{
    if n < rules.len() {
        assert(rules.drop_last().take(n) =~= rules.take(n));
        lemma_first_error_stays(rules.drop_last(), n);
    } else {
        assert(rules.take(n) =~= rules);
    }
}

proof fn lemma_first_refusal_stays(layers: Seq<LayerRules>, n: int)
    requires
        0 <= n <= layers.len(),
        first_refusal(layers.take(n)) is Some,
    ensures
        first_refusal(layers) == first_refusal(layers.take(n)),
    decreases layers.len(),
{
    if n < layers.len() {
        assert(layers.drop_last().take(n) =~= layers.take(n));
        lemma_first_refusal_stays(layers.drop_last(), n);
    } else {
        assert(layers.take(n) =~= layers);
    }
}

/// The lines of an ignore file that carry a pattern.
fn patterns_in(text: &str) -> (out: Vec<String>)
    ensures
        crate::text::texts(out@) == pattern_lines(crate::text::lines_of(text@)),
{
    let all = lines(text);
    let mut out: Vec<String> = Vec::new();
    let ghost ls = crate::text::texts(all@);
    let mut i: usize = 0;
    assert(crate::text::texts(out@) =~= pattern_lines(ls.take(0)));
    while i < all.len()
        invariant
            i <= all@.len(),
            ls == crate::text::texts(all@),
            crate::text::texts(out@) == pattern_lines(ls.take(i as int)),
        decreases all@.len() - i,
    {
        assert(ls.take(i + 1).drop_last() =~= ls.take(i as int));
        assert(ls[i as int] == all@[i as int]@);
        let line = trim(all[i].as_str());
        if line.as_str().unicode_len() > 0 && line.as_str().get_char(0) != '#' {
            let ghost before = crate::text::texts(out@);
            out.push(all[i].clone());
            assert(crate::text::texts(out@) =~= before.push(all@[i as int]@));
        }
        i = i + 1;
    }
    assert(ls.take(i as int) =~= ls);
    out
}

/// The matcher for an ignore file's text; `None` for a text without patterns.
fn build_matcher(from: &str, text: &str) -> (r: Result<Option<Gitignore>, String>)
    ensures
        ({
            let rules = pattern_lines(crate::text::lines_of(text@));
            match r {
                Ok(Some(m)) => rules.len() > 0 && refusal(rules) is None && rules_of(m)
                    == rules,
                Ok(None) => rules.len() == 0,
                Err(e) => rules.len() > 0 && refusal(rules) == Some(e@),
            }
        }),
{
    let rules = patterns_in(text);
    assert(crate::text::texts(rules@).len() == rules@.len());
    if rules.len() == 0 {
        return Ok(None);
    }
    let mut refs: Vec<&str> = Vec::new();
    let mut i: usize = 0;
    while i < rules.len()
        invariant
            i <= rules@.len(),
            crate::text::str_texts(refs@) == crate::text::texts(rules@).take(i as int),
        decreases rules@.len() - i,
    {
        let ghost before = crate::text::str_texts(refs@);
        refs.push(rules[i].as_str());
        assert(crate::text::str_texts(refs@) =~= before.push(rules@[i as int]@));
        i = i + 1;
        assert(before.push(rules@[i - 1]@) =~= crate::text::texts(rules@).take(i as int));
    }
    assert(crate::text::texts(rules@).take(i as int) =~= crate::text::texts(rules@));
    match compile(from, refs.as_slice()) {
        Ok(m) => Ok(Some(m)),
        Err(e) => Err(e),
    }
}

/// Whether the search for ignore files goes into a directory entry: symbolic
/// links are not followed and `.git` is never entered.
pub fn searches_into(name: &str, is_dir: bool, is_symlink: bool) -> (r: bool)
    ensures
        r == (is_dir && !is_symlink && name@ != ".git"@),
{
    is_dir && !is_symlink && !same(name, ".git")
}

impl IgnoreSet {
    /// The root of the project that the set was made for (see
    /// [`absolute_root`]).
    pub closed spec fn root(&self) -> Seq<char> {
        self.root@
    }

    /// The layers of the set, outermost first.
    pub closed spec fn layers(&self) -> Seq<LayerRules> {
        layer_views(self.layers@)
    }

    /// A set that ignores nothing.
    pub fn empty() -> (set: Self)
        ensures
            set.root() == Seq::<char>::empty(),
            set.layers() == Seq::<LayerRules>::empty(),
    {
        let set = IgnoreSet { root: String::new(), layers: Vec::new() };
        assert(set.layers() =~= Seq::<LayerRules>::empty());
        set
    }

    /// A set from pairs of an anchor and patterns, weakest first. The anchors
    /// are relative to `project_root`; the empty one is the root itself.
    ///
    /// The first pattern that does not compile makes the whole set an error.
    /// `cwd` is the working directory, if it can be told; a relative root starts
    /// from it, so that later lookups do not shift when it changes.
    pub fn from_layers(
        project_root: &str,
        cwd: Option<&str>,
        layers: &[(&str, &[&str])],
    ) -> (r: Result<Self, String>)
        ensures
            ({
                let wanted = layers@.map_values(|p: (&str, &[&str])| layer_of(p));
                match r {
                    Ok(set) => first_refusal(wanted) is None && set.root() == absolute_root(
                        project_root@,
                        crate::text::str_text(cwd),
                    ) && set.layers() == wanted,
                    Err(e) => first_refusal(wanted) == Some(e@),
                }
            }),
    {
        let mut set = IgnoreSet { root: root_in(project_root, cwd), layers: Vec::new() };
        let ghost wanted = layers@.map_values(|p: (&str, &[&str])| layer_of(p));
        let mut i: usize = 0;
        assert(set.layers() =~= wanted.take(0));
        while i < layers.len()
            invariant
                i <= layers@.len(),
                wanted == layers@.map_values(|p: (&str, &[&str])| layer_of(p)),
                set.root() == absolute_root(project_root@, crate::text::str_text(cwd)),
                set.layers() == wanted.take(i as int),
                first_refusal(wanted.take(i as int)) is None,
            decreases layers@.len() - i,
        {
            let (anchor, patterns) = layers[i];
            assert(wanted.take(i + 1).drop_last() =~= wanted.take(i as int));
            assert(wanted[i as int] == layer_of(layers@[i as int]));
            match compile(anchor, patterns) {
                Ok(matcher) => {
                    let ghost before = set.layers();
                    let layer = Layer { anchor: anchor.to_owned(), matcher };
                    assert(layer_view(layer) == wanted[i as int]);
                    set.layers.push(layer);
                    assert(set.layers() =~= before.push(wanted[i as int]));
                    assert(set.layers() =~= wanted.take(i + 1));
                },
                Err(e) => {
                    proof {
                        lemma_first_refusal_stays(wanted, i + 1);
                    }
                    return Err(e);
                },
            }
            i = i + 1;
        }
        assert(wanted.take(i as int) =~= wanted);
        Ok(set)
    }

    /// The set for a project from the text of the global ignore file and the
    /// ignore files found in the project, in the order they were found. The
    /// global layer is the weakest and is anchored at the project root. `cwd` is
    /// the working directory, if it can be told.
    pub fn load(
        project_root: &str,
        cwd: Option<&str>,
        global: Option<&str>,
        files: &[IgnoreFile],
    ) -> (r: Result<Self, String>)
        ensures
            ({
                let wanted = global_layers(global) + layers_of_files(project_root@, files@);
                match r {
                    Ok(set) => first_refusal(wanted) is None && set.root() == absolute_root(
                        project_root@,
                        crate::text::str_text(cwd),
                    ) && set.layers() == wanted,
                    Err(e) => first_refusal(wanted) == Some(e@),
                }
            }),
    {
        let mut set = IgnoreSet { root: root_in(project_root, cwd), layers: Vec::new() };
        let ghost first = global_layers(global);
        let ghost wanted = first + layers_of_files(project_root@, files@);
        assert(set.layers() =~= Seq::<LayerRules>::empty());
        assert(first_refusal(Seq::<LayerRules>::empty()) is None);
        if let Some(text) = global {
            match build_matcher(IGNORE_FILE, text) {
                Ok(Some(matcher)) => {
                    let layer = Layer { anchor: String::new(), matcher };
                    assert(layer_view(layer).anchor =~= Seq::<char>::empty());
                    assert(layer_view(layer) == first[0]);
                    set.layers.push(layer);
                    assert(set.layers() =~= first);
                    assert(first.drop_last() =~= Seq::<LayerRules>::empty());
                },
                Ok(None) => {
                    assert(set.layers() =~= first);
                },
                Err(e) => {
                    assert(first.drop_last() =~= Seq::<LayerRules>::empty());
                    assert(wanted.take(1) =~= first);
                    proof {
                        lemma_first_refusal_stays(wanted, 1);
                    }
                    return Err(e);
                },
            }
        }
        assert(set.layers() =~= first + layers_of_files(project_root@, files@.take(0)));
        let mut i: usize = 0;
        while i < files.len()
            invariant
                i <= files@.len(),
                first == global_layers(global),
                wanted == first + layers_of_files(project_root@, files@),
                set.root() == absolute_root(project_root@, crate::text::str_text(cwd)),
                set.layers() == first + layers_of_files(project_root@, files@.take(i as int)),
                first_refusal(set.layers()) is None,
            decreases files@.len() - i,
        {
            let file = &files[i];
            let anchor = match strip_prefix(file.dir.as_str(), project_root) {
                Some(rel) => rel,
                None => String::new(),
            };
            let ghost before = layers_of_files(project_root@, files@.take(i as int));
            let ghost rules = pattern_lines(crate::text::lines_of(file.text@));
            let ghost next = LayerRules { anchor: anchor@, rules };
            assert(files@.take(i + 1).drop_last() =~= files@.take(i as int));
            assert(anchor@ =~= anchor_of(project_root@, file.dir@));
            let ghost after = layers_of_files(project_root@, files@.take(i + 1));
            match build_matcher(file.dir.as_str(), file.text.as_str()) {
                Ok(Some(matcher)) => {
                    let layer = Layer { anchor, matcher };
                    assert(layer_view(layer) == next);
                    let ghost old_layers = set.layers();
                    set.layers.push(layer);
                    assert(set.layers() =~= old_layers.push(next));
                    assert(set.layers() =~= first + after);
                    assert(set.layers().drop_last() =~= old_layers);
                },
                Ok(None) => {},
                Err(e) => {
                    proof {
                        let upto = (first + before).push(next);
                        assert(upto =~= first + after);
                        assert(upto.drop_last() =~= first + before);
                        assert(first_refusal(upto) == Some(e@));
                        lemma_files_prefix(project_root@, files@, i + 1);
                        assert(wanted.take(upto.len() as int) =~= upto);
                        lemma_first_refusal_stays(wanted, upto.len() as int);
                    }
                    return Err(e);
                },
            }
            i = i + 1;
        }
        assert(files@.take(i as int) =~= files@);
        Ok(set)
    }

    /// Whether `rel_path`, relative to the project root, is ignored. `is_dir`
    /// says whether it is a directory, which rules that end in `/` ask for.
    ///
    /// The innermost layer with a verdict decides; without any verdict the
    /// path is not ignored, and neither is an absolute path.
    pub fn is_ignored_path(&self, rel_path: &str, is_dir: bool) -> (r: bool)
        requires
            crate::paths::rooted(rel_path@) || matchable(rel_path@),
        ensures
            r == ignores(self.layers(), rel_path@, is_dir),
    {
        if has_root(rel_path) {
            return false;
        }
        let ghost all = self.layers();
        let mut i: usize = self.layers.len();
        assert(all.take(i as int) =~= all);
        while i > 0
            invariant
                i <= self.layers@.len(),
                all == self.layers(),
                matchable(rel_path@),
                ignored_by(all, rel_path@, is_dir) == ignored_by(
                    all.take(i as int),
                    rel_path@,
                    is_dir,
                ),
            decreases i,
        {
            i = i - 1;
            let layer = &self.layers[i];
            assert(all[i as int] == layer_view(*layer));
            assert(all.take(i + 1).drop_last() =~= all.take(i as int));
            assert(all.take(i + 1).last() == all[i as int]);
            let rel = if layer.anchor.as_str().is_empty() {
                Some(rel_path.to_owned())
            } else {
                strip_prefix(rel_path, layer.anchor.as_str())
            };
            assert(crate::text::opt_text(rel) == below(layer.anchor@, rel_path@));
            if let Some(rel) = rel {
                proof {
                    if layer.anchor@.len() > 0 {
                        crate::paths::lemma_stripped_is_plain(rel_path@, layer.anchor@);
                    }
                }
                match matched(&layer.matcher, rel.as_str(), is_dir) {
                    Some(verdict) => {
                        return verdict;
                    },
                    None => {},
                }
            }
        }
        assert(all.take(0) =~= Seq::<LayerRules>::empty());
        false
    }

    /// The path to look up on disk to learn whether `rel_path` is a directory;
    /// `None` when the set has no layers, so that nothing hangs on it.
    pub fn lookup_path(&self, rel_path: &str) -> (out: Option<String>)
        ensures
            crate::text::opt_text(out) == if self.layers().len() == 0 {
                None::<Seq<char>>
            } else {
                Some(crate::paths::joined_path(self.root(), rel_path@))
            },
    {
        assert(self.layers().len() == self.layers@.len());
        if self.layers.len() == 0 {
            None
        } else {
            Some(join_path(self.root.as_str(), rel_path))
        }
    }

    /// Whether `rel_path` is ignored, where `is_dir` is what the disk says of
    /// [`IgnoreSet::lookup_path`]; a path that cannot be looked up counts as a
    /// file.
    pub fn is_ignored(&self, rel_path: &str, is_dir: bool) -> (r: bool)
        requires
            crate::paths::rooted(rel_path@) || matchable(rel_path@),
        ensures
            r == ignores(self.layers(), rel_path@, is_dir),
    {
        assert(self.layers().len() == self.layers@.len());
        if self.layers.len() == 0 {
            return false;
        }
        self.is_ignored_path(rel_path, is_dir)
    }

    /// The number of layers.
    pub fn layer_count(&self) -> (n: usize)
        ensures
            n == self.layers().len(),
    {
        assert(self.layers().len() == self.layers@.len());
        self.layers.len()
    }
}

impl Clone for IgnoreSet {
    /// A set of the same rules for the same root.
    fn clone(&self) -> (r: Self)
        ensures
            r.root() == self.root(),
            r.layers() == self.layers(),
    {
        let mut layers: Vec<Layer> = Vec::new();
        let mut i: usize = 0;
        assert(layer_views(layers@) =~= self.layers().take(0));
        while i < self.layers.len()
            invariant
                i <= self.layers@.len(),
                layer_views(layers@) == self.layers().take(i as int),
            decreases self.layers@.len() - i,
        {
            let ghost before = layer_views(layers@);
            let layer = copy_layer(&self.layers[i]);
            let ghost next = layer_view(layer);
            layers.push(layer);
            assert(next == self.layers()[i as int]);
            assert(layer_views(layers@) =~= before.push(next));
            i = i + 1;
            assert(before.push(next) =~= self.layers().take(i as int));
        }
        assert(self.layers().take(i as int) =~= self.layers());
        IgnoreSet { root: self.root.clone(), layers }
    }
}

impl Default for IgnoreSet {
    /// A set that ignores nothing.
    fn default() -> (set: Self)
        ensures
            set.root() == Seq::<char>::empty(),
            set.layers() == Seq::<LayerRules>::empty(),
    {
        IgnoreSet::empty()
    }
}

proof fn lemma_files_prefix(root: Seq<char>, files: Seq<IgnoreFile>, n: int)
    requires
        0 <= n <= files.len(),
    ensures
        layers_of_files(root, files.take(n)).is_prefix_of(layers_of_files(root, files)),
    decreases files.len(),
{
    if n < files.len() {
        lemma_files_prefix(root, files.drop_last(), n);
        assert(files.drop_last().take(n) =~= files.take(n));
        let a = layers_of_files(root, files.take(n));
        let b = layers_of_files(root, files.drop_last());
        let c = layers_of_files(root, files);
        assert(a =~= c.subrange(0, a.len() as int));
    } else {
        assert(files.take(n) =~= files);
    }
}

/// The innermost layer that has a verdict on a path decides, whatever the
/// layers around it say.
pub proof fn innermost_verdict_decides(
    outer: Seq<LayerRules>,
    layer: LayerRules,
    inner: Seq<LayerRules>,
    path: Seq<char>,
    is_dir: bool,
)
    requires
        !crate::paths::rooted(path),
        layer_verdict(layer, path, is_dir) is Some,
        forall|i: int|
            0 <= i < inner.len() ==> layer_verdict(#[trigger] inner[i], path, is_dir) is None,
    ensures
        ignores(outer.push(layer) + inner, path, is_dir) == layer_verdict(layer, path, is_dir)->0,
    decreases inner.len(),
{
    let all = outer.push(layer) + inner;
    if inner.len() == 0 {
        assert(all =~= outer.push(layer));
    } else {
        let front = inner.drop_last();
        assert forall|i: int| 0 <= i < front.len() implies layer_verdict(
            #[trigger] front[i],
            path,
            is_dir,
        ) is None by {
            assert(front[i] == inner[i]);
        }
        innermost_verdict_decides(outer, layer, front, path, is_dir);
        assert(all.drop_last() =~= outer.push(layer) + front);
        assert(all.last() == inner[inner.len() - 1]);
    }
}

/// A path that no layer has a verdict on is not ignored.
pub proof fn silence_ignores_nothing(layers: Seq<LayerRules>, path: Seq<char>, is_dir: bool)
    requires
        forall|i: int|
            0 <= i < layers.len() ==> layer_verdict(#[trigger] layers[i], path, is_dir) is None,
    ensures
        !ignores(layers, path, is_dir),
    decreases layers.len(),
{
    if layers.len() > 0 {
        let front = layers.drop_last();
        assert forall|i: int| 0 <= i < front.len() implies layer_verdict(
            #[trigger] front[i],
            path,
            is_dir,
        ) is None by {
            assert(front[i] == layers[i]);
        }
        silence_ignores_nothing(front, path, is_dir);
        assert(layers[layers.len() - 1] == layers.last());
    }
}

/// A layer without rules changes nothing, wherever it stands among the layers.
pub proof fn a_layer_without_rules_is_silent(
    outer: Seq<LayerRules>,
    layer: LayerRules,
    inner: Seq<LayerRules>,
    path: Seq<char>,
    is_dir: bool,
)
    requires
        layer.rules.len() == 0,
    ensures
        layer_verdict(layer, path, is_dir) is None,
        ignores(outer.push(layer) + inner, path, is_dir) == ignores(outer + inner, path, is_dir),
    decreases inner.len(),
{
    let with = outer.push(layer) + inner;
    let without = outer + inner;
    if inner.len() == 0 {
        assert(with =~= outer.push(layer));
        assert(with.drop_last() =~= without);
        assert(without =~= outer);
    } else {
        a_layer_without_rules_is_silent(outer, layer, inner.drop_last(), path, is_dir);
        assert(with.drop_last() =~= outer.push(layer) + inner.drop_last());
        assert(without.drop_last() =~= outer + inner.drop_last());
    }
}

/// What is looked up for a set does not hang on the working directory at the
/// time: once it was told at the making of the set, every lookup is absolute, and
/// lies below the project root as it was then.
pub proof fn lookups_are_absolute(project_root: Seq<char>, cwd: Seq<char>, rel_path: Seq<char>)
    requires
        crate::paths::rooted(cwd),
        project_root.len() > 0,
    ensures
        crate::paths::rooted(absolute_root(project_root, Some(cwd))),
        crate::paths::rooted(
            crate::paths::joined_path(absolute_root(project_root, Some(cwd)), rel_path),
        ),
        crate::paths::same_path(
            absolute_root(project_root, Some(cwd)),
            crate::paths::joined_path(cwd, project_root),
        ),
{
    crate::paths::made_absolute_is_absolute(project_root, Some(cwd));
    crate::paths::making_absolute_keeps_the_components(project_root, cwd);
}

/// Whether a path lies below a directory, with no rule for it or for anything
/// on the way.
pub open spec fn lies_quietly_below(
    rules: Seq<Seq<char>>,
    path: Seq<char>,
    is_dir: bool,
    dir: Seq<char>,
) -> bool
    decreases path.len(),
{
    proof {
        crate::paths::lemma_parent_is_shorter(path);
    }
    own_verdict(rules, path, is_dir) is None && match crate::paths::parent_of(path) {
        Some(up) => up == dir || lies_quietly_below(rules, up, true, dir),
        None => false,
    }
}

/// What the rules of a layer say of a directory they say of everything below
/// it that they have no rule for.
pub proof fn a_directory_speaks_for_its_contents(
    rules: Seq<Seq<char>>,
    path: Seq<char>,
    is_dir: bool,
    dir: Seq<char>,
)
    requires
        lies_quietly_below(rules, path, is_dir, dir),
    ensures
        inherited(rules, path, is_dir) == inherited(rules, dir, true),
    decreases path.len(),
{
    crate::paths::lemma_parent_is_shorter(path);
    let up = crate::paths::parent_of(path)->0;
    if up != dir {
        a_directory_speaks_for_its_contents(rules, up, true, dir);
    }
}

/// Whether a line says anything: its first character that is not white space is there
/// and is no `#`.
pub open spec fn says_something(line: Seq<char>) -> bool {
    exists|i: int|
        {
            &&& 0 <= i < line.len()
            &&& !crate::text::is_white(#[trigger] line[i])
            &&& line[i] != '#'
            &&& forall|j: int| 0 <= j < i ==> crate::text::is_white(#[trigger] line[j])
        }
}

proof fn lemma_says_something(line: Seq<char>)
    ensures
        has_pattern(line) == says_something(line),
{
    let r = crate::text::trimming_takes_off_white_ends(line);
    let t = crate::text::trimmed(line);
    if t.len() > 0 {
        assert(t[0] == line[r.0]);
        if t[0] != '#' {
            assert(!crate::text::is_white(line[r.0]));
        }
    }
    if says_something(line) {
        let i = choose|i: int|
            {
                &&& 0 <= i < line.len()
                &&& !crate::text::is_white(#[trigger] line[i])
                &&& line[i] != '#'
                &&& forall|j: int| 0 <= j < i ==> crate::text::is_white(#[trigger] line[j])
            };
        assert(t.len() > 0);
        assert(!crate::text::is_white(line[r.0]));
        assert(i == r.0);
    }
}

/// The rules that an ignore file gives are its lines that say anything, all of them, in
/// order: only blank lines and comments are left out.
pub proof fn every_line_that_says_something_is_a_rule(all: Seq<Seq<char>>)
    ensures
        pattern_lines(all) == all.filter(|l: Seq<char>| says_something(l)),
        forall|i: int|
            0 <= i < all.len() && says_something(#[trigger] all[i]) ==> pattern_lines(all).contains(
                all[i],
            ),
    decreases all.len(),
{
    let rules = pattern_lines(all);
    if all.len() > 0 {
        let front = all.drop_last();
        every_line_that_says_something_is_a_rule(front);
        lemma_says_something(all.last());
        let before = pattern_lines(front);
        assert forall|i: int| 0 <= i < all.len() && says_something(
            #[trigger] all[i],
        ) implies rules.contains(all[i]) by {
            if i < front.len() {
                assert(front[i] == all[i]);
                let k = choose|k: int| 0 <= k < before.len() && before[k] == all[i];
                assert(rules[k] == all[i]);
            } else {
                assert(rules[rules.len() - 1] == all[i]);
            }
        }
    }
    reveal(Seq::filter);
}

/// The layers of a project are one for each ignore file that has any rules, in the
/// order of the files, each with all the rules of its file.
pub proof fn every_file_with_rules_is_a_layer(project_root: Seq<char>, files: Seq<IgnoreFile>)
    ensures
        layers_of_files(project_root, files) == files.filter(
            |f: IgnoreFile|
                crate::text::lines_of(f.text@).filter(|l: Seq<char>| says_something(l)).len() > 0,
        ).map_values(
            |f: IgnoreFile|
                LayerRules {
                    anchor: anchor_of(project_root, f.dir@),
                    rules: crate::text::lines_of(f.text@).filter(
                        |l: Seq<char>| says_something(l),
                    ),
                },
        ),
    decreases files.len(),
{
    reveal(Seq::filter);
    let keep = |f: IgnoreFile|
        crate::text::lines_of(f.text@).filter(|l: Seq<char>| says_something(l)).len() > 0;
    let layer = |f: IgnoreFile|
        LayerRules {
            anchor: anchor_of(project_root, f.dir@),
            rules: crate::text::lines_of(f.text@).filter(|l: Seq<char>| says_something(l)),
        };
    if files.len() > 0 {
        let front = files.drop_last();
        every_file_with_rules_is_a_layer(project_root, front);
        every_line_that_says_something_is_a_rule(crate::text::lines_of(files.last().text@));
        let before = front.filter(keep);
        if keep(files.last()) {
            assert(before.push(files.last()).map_values(layer) =~= before.map_values(layer).push(
                layer(files.last()),
            ));
        }
    } else {
        assert(files.filter(keep).map_values(layer) =~= Seq::<LayerRules>::empty());
    }
}

/// The rules of the global file come first, anchored at the project root; a file
/// without rules gives no layer.
pub proof fn the_global_file_is_one_layer_at_the_root(text: &str)
    ensures
        global_layers(None) == Seq::<LayerRules>::empty(),
        ({
            let rules = crate::text::lines_of(text@).filter(|l: Seq<char>| says_something(l));
            &&& rules.len() == 0 ==> global_layers(Some(text)) == Seq::<LayerRules>::empty()
            &&& rules.len() > 0 ==> global_layers(Some(text)) == seq![
                LayerRules { anchor: Seq::empty(), rules },
            ]
        }),
{
    every_line_that_says_something_is_a_rule(crate::text::lines_of(text@));
}

/// Rules compile exactly when every line is taken and the lines compile together; else
/// the message is that of the first line that is refused.
pub proof fn the_first_refused_line_is_reported(rules: Seq<Seq<char>>)
    ensures
        first_line_error(rules) is None <==> forall|i: int|
            0 <= i < rules.len() ==> line_error(#[trigger] rules[i]) is None,
        first_line_error(rules) is Some ==> exists|n: int|
            {
                &&& 0 <= n < rules.len()
                &&& line_error(#[trigger] rules[n]) == first_line_error(rules)
                &&& forall|i: int| 0 <= i < n ==> line_error(#[trigger] rules[i]) is None
            },
        refusal(rules) is None <==> rules_error(rules) is None && forall|i: int|
            0 <= i < rules.len() ==> line_error(#[trigger] rules[i]) is None,
    decreases rules.len(),
{
    if rules.len() > 0 {
        let front = rules.drop_last();
        the_first_refused_line_is_reported(front);
        assert(forall|i: int| 0 <= i < front.len() ==> front[i] == rules[i]);
        if first_line_error(front) is Some {
            let n = choose|n: int|
                {
                    &&& 0 <= n < front.len()
                    &&& line_error(#[trigger] front[n]) == first_line_error(front)
                    &&& forall|i: int| 0 <= i < n ==> line_error(#[trigger] front[i]) is None
                };
            assert(line_error(rules[n]) == first_line_error(rules));
            assert forall|i: int| 0 <= i < n implies line_error(#[trigger] rules[i]) is None by {
                assert(front[i] == rules[i]);
            }
        } else {
            assert forall|i: int| 0 <= i < rules.len() - 1 implies line_error(
                #[trigger] rules[i],
            ) is None by {
                assert(front[i] == rules[i]);
            }
            assert(line_error(rules[rules.len() - 1]) == first_line_error(rules));
        }
    }
}

/// A set is refused exactly when the rules of some layer are, with the message of the
/// first such layer.
pub proof fn the_first_refused_layer_is_reported(layers: Seq<LayerRules>)
    ensures
        first_refusal(layers) is None <==> forall|i: int|
            0 <= i < layers.len() ==> refusal((#[trigger] layers[i]).rules) is None,
        first_refusal(layers) is Some ==> exists|n: int|
            {
                &&& 0 <= n < layers.len()
                &&& refusal((#[trigger] layers[n]).rules) == first_refusal(layers)
                &&& forall|i: int| 0 <= i < n ==> refusal((#[trigger] layers[i]).rules) is None
            },
    decreases layers.len(),
{
    if layers.len() > 0 {
        let front = layers.drop_last();
        the_first_refused_layer_is_reported(front);
        assert(forall|i: int| 0 <= i < front.len() ==> front[i] == layers[i]);
        if first_refusal(front) is Some {
            let n = choose|n: int|
                {
                    &&& 0 <= n < front.len()
                    &&& refusal((#[trigger] front[n]).rules) == first_refusal(front)
                    &&& forall|i: int| 0 <= i < n ==> refusal((#[trigger] front[i]).rules) is None
                };
            assert(refusal(layers[n].rules) == first_refusal(layers));
            assert forall|i: int| 0 <= i < n implies refusal(
                (#[trigger] layers[i]).rules,
            ) is None by {
                assert(front[i] == layers[i]);
            }
        } else {
            assert forall|i: int| 0 <= i < layers.len() - 1 implies refusal(
                (#[trigger] layers[i]).rules,
            ) is None by {
                assert(front[i] == layers[i]);
            }
            assert(refusal(layers[layers.len() - 1].rules) == first_refusal(layers));
        }
    }
}

/// A layer has a say on a path below its anchor and on no other: there its rules' own
/// verdict decides or, where they have none on the path itself, what they say of the
/// directory around it.
pub proof fn a_layer_judges_what_lies_below_its_anchor(
    layer: LayerRules,
    path: Seq<char>,
    is_dir: bool,
)
    requires
        layer.rules.len() > 0,
    ensures
        layer.anchor.len() > 0 && !crate::paths::parts(layer.anchor).is_prefix_of(
            crate::paths::parts(path),
        ) ==> layer_verdict(layer, path, is_dir) is None,
        layer.anchor.len() == 0 && !seq!['.', '/'].is_prefix_of(path) && own_verdict(
            layer.rules,
            path,
            is_dir,
        ) is Some ==> layer_verdict(layer, path, is_dir) == own_verdict(
            layer.rules,
            path,
            is_dir,
        ),
        layer.anchor.len() == 0 && !seq!['.', '/'].is_prefix_of(path) && own_verdict(
            layer.rules,
            path,
            is_dir,
        ) is None ==> layer_verdict(layer, path, is_dir) == match crate::paths::parent_of(path) {
            Some(dir) => inherited(layer.rules, dir, true),
            None => None,
        },
{
}

/// What the rules say of a path is the verdict on the innermost of the path and the
/// directories around it that they have one on, each directory taken as such.
pub proof fn the_innermost_directory_with_a_verdict_decides(
    rules: Seq<Seq<char>>,
    path: Seq<char>,
    is_dir: bool,
)
    ensures
        own_verdict(rules, path, is_dir) is Some ==> inherited(rules, path, is_dir) == own_verdict(
            rules,
            path,
            is_dir,
        ),
        own_verdict(rules, path, is_dir) is None ==> inherited(rules, path, is_dir)
            == match crate::paths::parent_of(path) {
            Some(dir) => inherited(rules, dir, true),
            None => None,
        },
{
}

/// Layers ignore a path exactly when some layer does and no later one has a verdict on
/// it; an absolute path is never ignored.
pub proof fn the_last_verdict_decides(layers: Seq<LayerRules>, path: Seq<char>, is_dir: bool)
    ensures
        ignores(layers, path, is_dir) <==> !(path.len() > 0 && path[0] == '/') && exists|n: int|
            {
                &&& 0 <= n < layers.len()
                &&& layer_verdict(#[trigger] layers[n], path, is_dir) == Some(true)
                &&& forall|i: int|
                    n < i < layers.len() ==> layer_verdict(#[trigger] layers[i], path, is_dir)
                        is None
            },
    decreases layers.len(),
{
    if layers.len() > 0 {
        let front = layers.drop_last();
        the_last_verdict_decides(front, path, is_dir);
        let last = layer_verdict(layers.last(), path, is_dir);
        assert(layers[layers.len() - 1] == layers.last());
        if last is None {
            if ignores(front, path, is_dir) {
                let n = choose|n: int|
                    {
                        &&& 0 <= n < front.len()
                        &&& layer_verdict(#[trigger] front[n], path, is_dir) == Some(true)
                        &&& forall|i: int|
                            n < i < front.len() ==> layer_verdict(#[trigger] front[i], path, is_dir)
                                is None
                    };
                assert(layer_verdict(layers[n], path, is_dir) == Some(true));
                assert forall|i: int| n < i < layers.len() implies layer_verdict(
                    #[trigger] layers[i],
                    path,
                    is_dir,
                ) is None by {
                    if i < front.len() {
                        assert(front[i] == layers[i]);
                    }
                }
            }
            if exists|n: int|
                {
                    &&& 0 <= n < layers.len()
                    &&& layer_verdict(#[trigger] layers[n], path, is_dir) == Some(true)
                    &&& forall|i: int|
                        n < i < layers.len() ==> layer_verdict(#[trigger] layers[i], path, is_dir)
                            is None
                } {
                let n = choose|n: int|
                    {
                        &&& 0 <= n < layers.len()
                        &&& layer_verdict(#[trigger] layers[n], path, is_dir) == Some(true)
                        &&& forall|i: int|
                            n < i < layers.len() ==> layer_verdict(
                                #[trigger] layers[i],
                                path,
                                is_dir,
                            ) is None
                    };
                assert(front[n] == layers[n]);
                assert forall|i: int| n < i < front.len() implies layer_verdict(
                    #[trigger] front[i],
                    path,
                    is_dir,
                ) is None by {
                    assert(front[i] == layers[i]);
                }
            }
        } else {
            if last == Some(true) {
                assert(layer_verdict(layers[layers.len() - 1], path, is_dir) == Some(true));
            }
        }
    }
}

/// A file's rules are anchored at the directory it lies in: the components of the anchor
/// are those of the directory behind the project root's.
pub proof fn files_are_anchored_where_they_lie(project_root: Seq<char>, dir: Seq<char>)
    requires
        crate::paths::parts(project_root).len() > 0,
    ensures
        crate::paths::parts(project_root).is_prefix_of(crate::paths::parts(dir))
            ==> crate::paths::parts(dir) == crate::paths::parts(project_root)
            + crate::paths::parts(anchor_of(project_root, dir)),
        !crate::paths::parts(project_root).is_prefix_of(crate::paths::parts(dir)) ==> anchor_of(
            project_root,
            dir,
        ) == Seq::<char>::empty(),
{
    crate::paths::what_is_stripped_can_be_put_back(dir, project_root);
}

/// A layer sees a path without its anchor: the components behind those of the anchor.
pub proof fn a_layer_sees_what_lies_behind_its_anchor(anchor: Seq<char>, path: Seq<char>)
    requires
        crate::paths::parts(anchor).len() > 0,
        anchor.len() > 0,
    ensures
        below(anchor, path) is Some <==> crate::paths::parts(anchor).is_prefix_of(
            crate::paths::parts(path),
        ),
        below(anchor, path) is Some ==> crate::paths::parts(path) == crate::paths::parts(anchor)
            + crate::paths::parts(below(anchor, path)->0),
        below(Seq::empty(), path) == Some(path),
{
    crate::paths::what_is_stripped_can_be_put_back(path, anchor);
}

/// A `./` that leads a path is taken off, with one slash more if that is there; any other
/// path is left as it is.
pub proof fn only_a_leading_dot_slash_is_taken_off(p: Seq<char>)
    ensures
        !(p.len() >= 2 && p[0] == '.' && p[1] == '/') ==> without_dot_slash(p) == p,
        !(p.len() > 0 && p[0] == '/') ==> without_dot_slash(seq!['.', '/'] + p) == p,
        without_dot_slash(seq!['.', '/', '/'] + p) == p,
{
    let two = seq!['.', '/'];
    if two.is_prefix_of(p) {
        assert(p[0] == two[0]);
        assert(p[1] == two[1]);
    }
    let a = two + p;
    assert(two =~= a.subrange(0, 2));
    assert(a.skip(2) =~= p);
    let b = seq!['.', '/', '/'] + p;
    assert(two =~= b.subrange(0, 2));
    assert(b.skip(2)[0] == '/');
    assert(b.skip(2).skip(1) =~= p);
}

} // verus!
