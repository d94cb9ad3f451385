//! The safe-to-delete catalog: paths that may be removed without asking.
//!
//! The catalog is a list of gitignore patterns, the built-in ones first and
//! the user's after them. The user's patterns extend the catalog; they do not
//! replace it.

use vstd::prelude::*;

use crate::config::Config;
use crate::ignore_rules::IgnoreSet;
use crate::text::copy_texts;

verus! {

/// The built-in patterns. Each matches a directory name at any depth.
pub open spec fn built_in_defaults() -> Seq<Seq<char>> {
    seq![
        "**/node_modules"@,
        "**/target"@,
        "**/.next"@,
        "**/.turbo"@,
        "**/dist"@,
        "**/build"@,
        "**/__pycache__"@,
        "**/.venv"@,
        "**/venv"@,
        "**/.pytest_cache"@,
        "**/.mypy_cache"@,
        "**/.gradle"@,
        "**/bin/obj"@,
        "**/out"@,
        "**/coverage"@,
        "**/.nuxt"@,
        "**/.svelte-kit"@,
        "**/.cache"@,
        "**/.parcel-cache"@,
    ]
}

/// The built-in patterns.
pub fn built_in() -> (v: Vec<&'static str>)
    ensures
        crate::text::str_texts(v@) == built_in_defaults(),
{
    let v = vec![
        "**/node_modules",
        "**/target",
        "**/.next",
        "**/.turbo",
        "**/dist",
        "**/build",
        "**/__pycache__",
        "**/.venv",
        "**/venv",
        "**/.pytest_cache",
        "**/.mypy_cache",
        "**/.gradle",
        "**/bin/obj",
        "**/out",
        "**/coverage",
        "**/.nuxt",
        "**/.svelte-kit",
        "**/.cache",
        "**/.parcel-cache",
    ];
    assert(crate::text::str_texts(v@) =~= built_in_defaults());
    v
}

/// A compiled catalog: its patterns, and one layer of rules made of them.
#[derive(Debug)]
pub struct SafeSet {
    patterns: Vec<String>,
    matcher: IgnoreSet,
}

impl SafeSet {
    /// The patterns of the set, built-in ones first.
    pub closed spec fn pattern_texts(&self) -> Seq<Seq<char>> {
        crate::text::texts(self.patterns@)
    }

    /// The root that paths are relative to.
    pub closed spec fn root(&self) -> Seq<char> {
        self.matcher.root()
    }

    #[verifier::type_invariant]
    spec fn wf(&self) -> bool {
        self.matcher.layers() == catalog_layers(crate::text::texts(self.patterns@))
    }

    /// The catalog of a configuration: the built-in patterns and the
    /// configured ones. A pattern that does not compile is an error. `cwd` is the
    /// working directory, if it can be told (see [`IgnoreSet::from_layers`]).
    pub fn from_config(project_root: &str, cwd: Option<&str>, cfg: &Config) -> (r: Result<
        Self,
        String,
    >)
        ensures
            merged(
                r,
                crate::ignore_rules::absolute_root(project_root@, crate::text::str_text(cwd)),
                built_in_defaults(),
                crate::text::texts(cfg.safe_delete@),
            ),
    {
        let known = built_in();
        SafeSet::merge(project_root, cwd, known.as_slice(), cfg.safe_delete.as_slice())
    }

    /// The catalog of the given built-in and user patterns, in that order.
    pub fn merge(
        project_root: &str,
        cwd: Option<&str>,
        built_in: &[&str],
        user: &[String],
    ) -> (r: Result<Self, String>)
        ensures
            merged(
                r,
                crate::ignore_rules::absolute_root(project_root@, crate::text::str_text(cwd)),
                crate::text::str_texts(built_in@),
                crate::text::texts(user@),
            ),
    {
        let mut patterns: Vec<String> = Vec::new();
        let ghost known = crate::text::str_texts(built_in@);
        let ghost extra = crate::text::texts(user@);
        let mut i: usize = 0;
        while i < built_in.len()
            invariant
                i <= built_in@.len(),
                known == crate::text::str_texts(built_in@),
                crate::text::texts(patterns@) == known.take(i as int),
            decreases built_in@.len() - i,
        {
            let ghost before = crate::text::texts(patterns@);
            patterns.push(built_in[i].to_owned());
            assert(crate::text::texts(patterns@) =~= before.push(known[i as int]));
            i = i + 1;
            assert(before.push(known[i - 1]) =~= known.take(i as int));
        }
        assert(known.take(i as int) =~= known);
        let mut copies = copy_texts(user);
        let ghost had = crate::text::texts(patterns@);
        patterns.append(&mut copies);
        assert(crate::text::texts(patterns@) =~= known + extra);
        let mut refs: Vec<&str> = Vec::new();
        let mut k: usize = 0;
        while k < patterns.len()
            invariant
                k <= patterns@.len(),
                crate::text::str_texts(refs@) == crate::text::texts(patterns@).take(k as int),
            decreases patterns@.len() - k,
        {
            let ghost before = crate::text::str_texts(refs@);
            refs.push(patterns[k].as_str());
            assert(crate::text::str_texts(refs@) =~= before.push(patterns@[k as int]@));
            k = k + 1;
            assert(before.push(patterns@[k - 1]@) =~= crate::text::texts(patterns@).take(k as int));
        }
        let ghost all = known + extra;
        assert(crate::text::texts(patterns@).take(k as int) =~= all);
        proof {
            reveal_strlit("");
            assert(""@ =~= Seq::<char>::empty());
        }
        let pairs: Vec<(&str, &[&str])> = vec![("", refs.as_slice())];
        let r = IgnoreSet::from_layers(project_root, cwd, pairs.as_slice());
        let ghost wanted = pairs@.map_values(
            |p: (&str, &[&str])| crate::ignore_rules::layer_of(p),
        );
        assert(wanted =~= catalog_layers(all)) by {
            assert(wanted[0].rules =~= all);
        }
        proof {
            lemma_one_layer(all);
        }
        match r {
            Ok(matcher) => Ok(SafeSet { patterns, matcher }),
            Err(e) => Err(e),
        }
    }

    /// The number of patterns.
    pub fn len(&self) -> (n: usize)
        ensures
            n == self.pattern_texts().len(),
    {
        self.patterns.len()
    }

    /// Whether the set has no patterns.
    pub fn is_empty(&self) -> (r: bool)
        ensures
            r == (self.pattern_texts().len() == 0),
    {
        self.patterns.len() == 0
    }

    /// The patterns of the set, built-in ones first.
    pub fn patterns(&self) -> (v: &[String])
        ensures
            crate::text::texts(v@) == self.pattern_texts(),
    {
        self.patterns.as_slice()
    }

    /// Whether `rel_path` may be removed without asking. `is_dir` says whether
    /// it is a directory, which patterns that end in `/` ask for.
    pub fn is_safe_to_delete(&self, rel_path: &str, is_dir: bool) -> (r: bool)
        requires
            crate::paths::rooted(rel_path@) || crate::ignore_rules::matchable(rel_path@),
        ensures
            r == safe_by(self.pattern_texts(), rel_path@, is_dir),
    {
        proof {
            use_type_invariant(&*self);
        }
        self.matcher.is_ignored_path(rel_path, is_dir)
    }

    /// The path to look up on disk to learn whether `rel_path` is a directory.
    pub fn lookup_path(&self, rel_path: &str) -> (out: Option<String>)
        ensures
            out is Some,
            out->0@ == crate::paths::joined_path(self.root(), rel_path@),
    {
        proof {
            use_type_invariant(&*self);
        }
        self.matcher.lookup_path(rel_path)
    }

    /// Whether `rel_path` may be removed without asking, where `is_dir` is
    /// what the disk says of [`SafeSet::lookup_path`].
    pub fn is_safe(&self, rel_path: &str, is_dir: bool) -> (r: bool)
        requires
            crate::paths::rooted(rel_path@) || crate::ignore_rules::matchable(rel_path@),
        ensures
            r == safe_by(self.pattern_texts(), rel_path@, is_dir),
    {
        proof {
            use_type_invariant(&*self);
        }
        self.matcher.is_ignored(rel_path, is_dir)
    }
}

impl Clone for SafeSet {
    /// The same catalog for the same root.
    fn clone(&self) -> (r: Self)
        ensures
            r.pattern_texts() == self.pattern_texts(),
            r.root() == self.root(),
    {
        proof {
            use_type_invariant(&*self);
        }
        SafeSet { patterns: copy_texts(self.patterns.as_slice()), matcher: self.matcher.clone() }
    }
}

/// The one layer, anchored at the project root, that a catalog is.
pub open spec fn catalog_layers(patterns: Seq<Seq<char>>) -> Seq<crate::ignore_rules::LayerRules> {
    seq![crate::ignore_rules::LayerRules { anchor: Seq::empty(), rules: patterns }]
}

/// Whether a catalog of `patterns` covers a path.
pub open spec fn safe_by(patterns: Seq<Seq<char>>, path: Seq<char>, is_dir: bool) -> bool {
    crate::ignore_rules::ignores(catalog_layers(patterns), path, is_dir)
}

/// The outcome of merging: the set of all patterns for a root, or the message
/// for the first pattern that does not compile.
pub open spec fn merged(
    r: Result<SafeSet, String>,
    root: Seq<char>,
    known: Seq<Seq<char>>,
    user: Seq<Seq<char>>,
) -> bool {
    match r {
        Ok(set) => crate::ignore_rules::refusal(known + user) is None && set.pattern_texts()
            == known + user && set.root() == root,
        Err(e) => crate::ignore_rules::refusal(known + user) == Some(e@),
    }
}

proof fn lemma_one_layer(patterns: Seq<Seq<char>>)
    ensures
        crate::ignore_rules::first_refusal(catalog_layers(patterns))
            == crate::ignore_rules::refusal(patterns),
{
    let layers = catalog_layers(patterns);
    assert(layers.drop_last() =~= Seq::<crate::ignore_rules::LayerRules>::empty());
    assert(crate::ignore_rules::first_refusal(layers.drop_last()) is None);
}

/// A catalog without patterns covers nothing.
pub proof fn an_empty_catalog_covers_nothing(path: Seq<char>, is_dir: bool)
    ensures
        !safe_by(Seq::empty(), path, is_dir),
{
    let layers = catalog_layers(Seq::empty());
    assert(layers.drop_last() =~= Seq::<crate::ignore_rules::LayerRules>::empty());
    assert(crate::ignore_rules::layer_verdict(layers.last(), path, is_dir) is None);
    assert(!crate::ignore_rules::ignored_by(layers.drop_last(), path, is_dir));
}

/// The catalog never covers an absolute path.
pub proof fn absolute_paths_are_never_safe(
    patterns: Seq<Seq<char>>,
    path: Seq<char>,
    is_dir: bool,
)
    requires
        crate::paths::rooted(path),
    ensures
        !safe_by(patterns, path, is_dir),
{
}

/// The catalog keeps every pattern it was given: the built-in ones first, then the
/// configured ones, each kind in its order.
pub proof fn every_pattern_is_kept(
    r: Result<SafeSet, String>,
    root: Seq<char>,
    known: Seq<Seq<char>>,
    user: Seq<Seq<char>>,
)
    requires
        merged(r, root, known, user),
        r is Ok,
    ensures
        r->Ok_0.pattern_texts().len() == known.len() + user.len(),
        forall|i: int|
            0 <= i < known.len() ==> r->Ok_0.pattern_texts()[i] == #[trigger] known[i],
        forall|j: int|
            0 <= j < user.len() ==> r->Ok_0.pattern_texts()[known.len() + j] == #[trigger] user[j],
{
}

/// A catalog covers a path exactly when its patterns, taken as one layer of ignore rules at
/// the project root, have the last word for it.
pub proof fn a_catalog_is_one_layer_at_the_root(
    patterns: Seq<Seq<char>>,
    path: Seq<char>,
    is_dir: bool,
)
    ensures
        safe_by(patterns, path, is_dir) <==> !(path.len() > 0 && path[0] == '/') && patterns.len()
            > 0 && crate::ignore_rules::inherited(
            patterns,
            crate::ignore_rules::without_dot_slash(path),
            is_dir,
        ) == Some(true),
{
    let layers = catalog_layers(patterns);
    assert(layers.drop_last() =~= Seq::<crate::ignore_rules::LayerRules>::empty());
    assert(!crate::ignore_rules::ignored_by(layers.drop_last(), path, is_dir));
    assert(layers.last() == layers[0]);
}

} // verus!
