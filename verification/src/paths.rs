//! Paths as text, read the way `std::path` reads them on Unix.
//!
//! A path is the sequence of its characters. It is cut into segments at `/`;
//! empty segments and `.` segments are dropped (a leading `.` stays), and
//! what is left are the path's components. Two paths are the same when their
//! components are.

use vstd::prelude::*;

use crate::text::{cat2, cat3, join, same, split};

verus! {

broadcast use vstd::seq_lib::group_seq_properties;

/// One component of a path.
pub enum Part {
    Root,
    Here,
    Up,
    Name(Seq<char>),
}

/// Whether the path starts at the root.
pub open spec fn rooted(p: Seq<char>) -> bool {
    p.len() > 0 && p[0] == '/'
}

/// The path cut at every `/`.
pub open spec fn segments(p: Seq<char>) -> Seq<Seq<char>> {
    crate::text::split_on(p, '/')
}

/// Whether the segment at `i` is a component.
pub open spec fn is_component(i: int, seg: Seq<char>) -> bool {
    seg.len() > 0 && (seg == seq!['.'] ==> i == 0)
}

/// The component a segment stands for.
pub open spec fn part_of(seg: Seq<char>) -> Part {
    if seg == seq!['.'] {
        Part::Here
    } else if seg == seq!['.', '.'] {
        Part::Up
    } else {
        Part::Name(seg)
    }
}

/// The positions of the segments that are components, in order.
pub open spec fn kept(segs: Seq<Seq<char>>) -> Seq<int>
    decreases segs.len(),
{
    if segs.len() == 0 {
        Seq::empty()
    } else {
        let before = kept(segs.drop_last());
        if is_component(segs.len() - 1, segs.last()) {
            before.push(segs.len() - 1)
        } else {
            before
        }
    }
}

/// The components of a path that its segments give, without the root.
pub open spec fn body(segs: Seq<Seq<char>>) -> Seq<Part> {
    kept(segs).map_values(|i: int| part_of(segs[i]))
}

/// The components of a path.
pub open spec fn parts(p: Seq<char>) -> Seq<Part> {
    if rooted(p) {
        seq![Part::Root] + body(segments(p))
    } else {
        body(segments(p))
    }
}

/// Whether two paths have the same components.
pub open spec fn same_path(a: Seq<char>, b: Seq<char>) -> bool {
    parts(a) == parts(b)
}

/// The text of the segments from position `from` up to, not including, `to`.
pub open spec fn between(segs: Seq<Seq<char>>, from: int, to: int) -> Seq<char> {
    crate::text::joined(segs.subrange(from, to), seq!['/'])
}

/// The last component's name, if the path ends in a name.
pub open spec fn name_of(p: Seq<char>) -> Option<Seq<char>> {
    let ps = parts(p);
    if ps.len() > 0 {
        match ps.last() {
            Part::Name(n) => Some(n),
            _ => None,
        }
    } else {
        None
    }
}

/// The path without its last component; a path that is only a root, or has no
/// components, has no parent.
pub open spec fn parent_of(p: Seq<char>) -> Option<Seq<char>> {
    let segs = segments(p);
    let k = kept(segs);
    if k.len() == 0 {
        None
    } else if k.len() == 1 {
        Some(
            if rooted(p) {
                seq!['/']
            } else {
                Seq::empty()
            },
        )
    } else {
        Some(between(segs, 0, k[k.len() - 2] + 1))
    }
}

/// `child` taken relative to `base`; a rooted `child` stands for itself.
pub open spec fn joined_path(base: Seq<char>, child: Seq<char>) -> Seq<char> {
    if rooted(child) {
        child
    } else if base.len() == 0 || base.last() == '/' {
        base + child
    } else {
        base + seq!['/'] + child
    }
}

/// The path that names lead to from a root.
pub open spec fn path_below(root: Seq<char>, names: Seq<Seq<char>>) -> Seq<char>
    decreases names.len(),
{
    if names.len() == 0 {
        root
    } else {
        joined_path(path_below(root, names.drop_last()), names.last())
    }
}

/// The segments that neither are empty nor stand for the directory they are in.
pub open spec fn plain_segments(segs: Seq<Seq<char>>) -> Seq<Seq<char>>
    decreases segs.len(),
{
    if segs.len() == 0 {
        Seq::empty()
    } else {
        let before = plain_segments(segs.drop_last());
        if segs.last().len() == 0 || segs.last() == seq!['.'] {
            before
        } else {
            before.push(segs.last())
        }
    }
}

/// The root that a rooted path starts at. Exactly two slashes stay two, which
/// POSIX leaves a meaning of their own; any other number is one.
pub open spec fn root_text(p: Seq<char>) -> Seq<char> {
    if p.len() >= 2 && p[1] == '/' && !(p.len() >= 3 && p[2] == '/') {
        seq!['/', '/']
    } else {
        seq!['/']
    }
}

/// A path made absolute without a look at the file system, as
/// `std::path::absolute` makes it: from the root or, if it is relative, from the
/// working directory. `.` segments and repeated slashes are dropped; `..` and a
/// slash at the end stay. An empty path cannot be made absolute, nor can a
/// relative one where the working directory cannot be told.
pub open spec fn made_absolute(p: Seq<char>, cwd: Option<Seq<char>>) -> Option<Seq<char>> {
    let start = if p.len() == 0 {
        None
    } else if rooted(p) {
        Some(root_text(p))
    } else {
        cwd
    };
    match start {
        Some(base) => {
            let path = path_below(base, plain_segments(segments(p)));
            Some(
                if p.last() == '/' {
                    joined_path(path, Seq::empty())
                } else {
                    path
                },
            )
        },
        None => None,
    }
}

/// What is left of `p` after the components of `base`, or `None` when `p` does
/// not start with them.
pub open spec fn stripped(p: Seq<char>, base: Seq<char>) -> Option<Seq<char>> {
    if !parts(base).is_prefix_of(parts(p)) {
        None
    } else {
        let segs = segments(p);
        let k = kept(segs);
        if parts(base).len() == 0 {
            Some(
                if k.len() > 0 {
                    between(segs, 0, k.last() + 1)
                } else if rooted(p) {
                    seq!['/']
                } else {
                    Seq::empty()
                },
            )
        } else {
            let skip = parts(base).len() - if rooted(base) {
                1int
            } else {
                0int
            };
            Some(
                if skip < k.len() {
                    between(segs, k[skip], k.last() + 1)
                } else {
                    Seq::empty()
                },
            )
        }
    }
}

/// Where one component of a path leads from `out`: the root starts over, `.`
/// stays, `..` leaves the last name (and stays where there is none), a name
/// goes down.
pub open spec fn step_into(out: Seq<char>, part: Part) -> Seq<char> {
    match part {
        Part::Root => seq!['/'],
        Part::Here => out,
        Part::Up => if name_of(out) is Some {
            parent_of(out)->0
        } else {
            out
        },
        Part::Name(n) => joined_path(out, n),
    }
}

/// Where the components `ps` lead from `start`.
pub open spec fn walked(start: Seq<char>, ps: Seq<Part>) -> Seq<char>
    decreases ps.len(),
{
    if ps.len() == 0 {
        start
    } else {
        step_into(walked(start, ps.drop_last()), ps.last())
    }
}

/// `path` made absolute from `cwd` without looking at the file system.
pub open spec fn normalized(path: Seq<char>, cwd: Seq<char>) -> Seq<char> {
    walked(
        if rooted(path) {
            Seq::empty()
        } else {
            cwd
        },
        parts(path),
    )
}

/// One component of a path.
pub enum Component {
    RootDir,
    CurDir,
    ParentDir,
    Normal(String),
}

impl View for Component {
    type V = Part;

    open spec fn view(&self) -> Part {
        match *self {
            Component::RootDir => Part::Root,
            Component::CurDir => Part::Here,
            Component::ParentDir => Part::Up,
            Component::Normal(s) => Part::Name(s@),
        }
    }
}

/// The components that a sequence of executable components stands for.
pub open spec fn views(v: Seq<Component>) -> Seq<Part> {
    v.map_values(|c: Component| c@)
}

/// Whether the path starts at the root.
pub fn has_root(p: &str) -> (r: bool)
    ensures
        r == rooted(p@),
{
    p.unicode_len() > 0 && p.get_char(0) == '/'
}

fn is_dot(s: &str) -> (r: bool)
    ensures
        r == (s@ == seq!['.']),
{
    proof {
        reveal_strlit(".");
        assert("."@ =~= seq!['.']);
    }
    same(s, ".")
}

fn is_dot_dot(s: &str) -> (r: bool)
    ensures
        r == (s@ == seq!['.', '.']),
{
    proof {
        reveal_strlit("..");
        assert(".."@ =~= seq!['.', '.']);
    }
    same(s, "..")
}

proof fn lemma_kept_bounds(segs: Seq<Seq<char>>)
    ensures
        forall|i: int| 0 <= i < kept(segs).len() ==> 0 <= #[trigger] kept(segs)[i] < segs.len(),
        forall|i: int, j: int|
            0 <= i < j < kept(segs).len() ==> #[trigger] kept(segs)[i] < #[trigger] kept(segs)[j],
        kept(segs).len() <= segs.len(),
    decreases segs.len(),
{
    if segs.len() > 0 {
        lemma_kept_bounds(segs.drop_last());
    }
}

/// The segments of a path and the positions of its components among them.
struct Cut {
    segs: Vec<String>,
    kept: Vec<usize>,
}

spec fn positions(v: Seq<usize>) -> Seq<int> {
    v.map_values(|i: usize| i as int)
}

fn cut(p: &str) -> (out: Cut)
    ensures
        crate::text::texts(out.segs@) == segments(p@),
        positions(out.kept@) == kept(segments(p@)),
        forall|i: int| 0 <= i < out.kept@.len() ==> #[trigger] out.kept@[i] < out.segs@.len(),
        out.kept@.len() <= out.segs@.len(),
{
    let segs = split(p, '/');
    let mut found: Vec<usize> = Vec::new();
    let ghost all = crate::text::texts(segs@);
    let mut i: usize = 0;
    assert(positions(found@) =~= kept(all.take(0)));
    while i < segs.len()
        invariant
            i <= segs@.len(),
            all == crate::text::texts(segs@),
            positions(found@) == kept(all.take(i as int)),
        decreases segs@.len() - i,
    {
        assert(all.take(i + 1).drop_last() =~= all.take(i as int));
        if !segs[i].as_str().is_empty() && (i == 0 || !is_dot(segs[i].as_str())) {
            let ghost before = positions(found@);
            found.push(i);
            assert(positions(found@) =~= before.push(i as int));
        }
        i = i + 1;
    }
    assert(all.take(i as int) =~= all);
    proof {
        lemma_kept_bounds(all);
        assert forall|k: int| 0 <= k < found@.len() implies #[trigger] found@[k] < segs@.len() by {
            assert(positions(found@)[k] == kept(all)[k]);
        }
        assert(positions(found@).len() == found@.len());
    }
    Cut { segs, kept: found }
}

/// The components of a path.
pub fn components(p: &str) -> (out: Vec<Component>)
    ensures
        views(out@) == parts(p@),
{
    let c = cut(p);
    let mut out: Vec<Component> = Vec::new();
    if has_root(p) {
        out.push(Component::RootDir);
    }
    let ghost first = views(out@);
    let ghost segs = segments(p@);
    let ghost ks = kept(segs);
    assert(first == if rooted(p@) {
        seq![Part::Root]
    } else {
        Seq::<Part>::empty()
    });
    let mut i: usize = 0;
    assert(views(out@) =~= first + body(segs).take(0));
    while i < c.kept.len()
        invariant
            i <= c.kept@.len(),
            segs == segments(p@),
            ks == kept(segs),
            crate::text::texts(c.segs@) == segs,
            positions(c.kept@) == ks,
            forall|j: int| 0 <= j < c.kept@.len() ==> #[trigger] c.kept@[j] < c.segs@.len(),
            views(out@) == first + body(segs).take(i as int),
        decreases c.kept@.len() - i,
    {
        let at: usize = c.kept[i];
        let seg = &c.segs[at];
        assert(ks[i as int] == at as int) by {
            assert(positions(c.kept@)[i as int] == at as int);
        }
        assert(seg@ == segs[at as int]) by {
            assert(crate::text::texts(c.segs@)[at as int] == seg@);
        }
        let ghost before = views(out@);
        let next = if is_dot(seg.as_str()) {
            Component::CurDir
        } else if is_dot_dot(seg.as_str()) {
            Component::ParentDir
        } else {
            Component::Normal(seg.clone())
        };
        assert(next@ == part_of(seg@));
        out.push(next);
        assert(views(out@) =~= before.push(part_of(seg@)));
        assert(body(segs)[i as int] == part_of(seg@));
        i = i + 1;
        assert(views(out@) =~= first + body(segs).take(i as int));
    }
    assert(ks.len() == c.kept@.len());
    assert(body(segs).take(i as int) =~= body(segs));
    assert(views(out@) =~= parts(p@));
    out
}

/// Whether two components are equal.
fn same_component(a: &Component, b: &Component) -> (r: bool)
    ensures
        r == (a@ == b@),
{
    match (a, b) {
        (Component::RootDir, Component::RootDir) => true,
        (Component::CurDir, Component::CurDir) => true,
        (Component::ParentDir, Component::ParentDir) => true,
        (Component::Normal(x), Component::Normal(y)) => same(x.as_str(), y.as_str()),
        _ => false,
    }
}

/// Whether the components `a` start the components `b`.
fn starts(a: &Vec<Component>, b: &Vec<Component>) -> (r: bool)
    ensures
        r == views(a@).is_prefix_of(views(b@)),
{
    if a.len() > b.len() {
        return false;
    }
    let mut i: usize = 0;
    while i < a.len()
        invariant
            i <= a@.len() <= b@.len(),
            forall|k: int| 0 <= k < i ==> views(a@)[k] == views(b@)[k],
        decreases a@.len() - i,
    {
        if !same_component(&a[i], &b[i]) {
            assert(views(a@)[i as int] != views(b@).subrange(0, a@.len() as int)[i as int]);
            return false;
        }
        assert(views(a@)[i as int] == views(b@)[i as int]);
        i = i + 1;
    }
    assert(views(a@) =~= views(b@).subrange(0, a@.len() as int));
    true
}

/// Whether two paths have the same components.
pub fn paths_equal(a: &str, b: &str) -> (r: bool)
    ensures
        r == same_path(a@, b@),
{
    let x = components(a);
    let y = components(b);
    if x.len() != y.len() {
        assert(views(x@).len() != views(y@).len());
        return false;
    }
    let r = starts(&x, &y);
    assert(views(y@).subrange(0, x@.len() as int) =~= views(y@));
    r
}

/// Whether `paths` holds a path with the components of `p`.
pub open spec fn holds_path(paths: Seq<Seq<char>>, p: Seq<char>) -> bool {
    exists|i: int| 0 <= i < paths.len() && same_path(#[trigger] paths[i], p)
}

/// Whether `paths` holds a path with the components of `p`.
pub fn contains_path(paths: &Vec<String>, p: &str) -> (r: bool)
    ensures
        r == holds_path(crate::text::texts(paths@), p@),
{
    let mut i: usize = 0;
    while i < paths.len()
        invariant
            i <= paths@.len(),
            forall|k: int|
                0 <= k < i ==> !same_path(#[trigger] crate::text::texts(paths@)[k], p@),
        decreases paths@.len() - i,
    {
        if paths_equal(paths[i].as_str(), p) {
            assert(same_path(crate::text::texts(paths@)[i as int], p@));
            return true;
        }
        assert(crate::text::texts(paths@)[i as int] == paths@[i as int]@);
        i = i + 1;
    }
    false
}

/// The text of the segments from position `from` up to, not including, `to`.
fn join_between(segs: &Vec<String>, from: usize, to: usize) -> (out: String)
    requires
        from <= to <= segs@.len(),
    ensures
        out@ == between(crate::text::texts(segs@), from as int, to as int),
{
    proof {
        reveal_strlit("/");
        assert("/"@ =~= seq!['/']);
        assert(crate::text::texts(segs@.subrange(from as int, to as int)) =~= crate::text::texts(
            segs@,
        ).subrange(from as int, to as int));
    }
    join(vstd::slice::slice_subrange(segs.as_slice(), from, to), "/")
}

/// The last component's name, if the path ends in a name.
pub fn file_name(p: &str) -> (out: Option<String>)
    ensures
        crate::text::opt_text(out) == name_of(p@),
{
    let mut c = components(p);
    let ghost before = c@;
    match c.pop() {
        Some(Component::Normal(s)) => {
            assert(views(before).last() == before.last()@);
            Some(s)
        },
        Some(_) => {
            assert(views(before).last() == before.last()@);
            None
        },
        None => {
            assert(views(before).len() == 0);
            None
        },
    }
}

/// The path without its last component.
pub fn parent(p: &str) -> (out: Option<String>)
    ensures
        crate::text::opt_text(out) == parent_of(p@),
{
    let c = cut(p);
    assert(positions(c.kept@).len() == c.kept@.len());
    if c.kept.len() == 0 {
        None
    } else if c.kept.len() == 1 {
        let mut out = String::new();
        if has_root(p) {
            out.push('/');
            assert(out@ =~= seq!['/']);
        }
        Some(out)
    } else {
        let at: usize = c.kept[c.kept.len() - 2];
        assert(positions(c.kept@)[c.kept@.len() - 2] == at as int);
        let count: usize = c.segs.len();
        assert(at < count);
        Some(join_between(&c.segs, 0, at + 1))
    }
}

/// `child` taken relative to `base`.
pub fn join_path(base: &str, child: &str) -> (out: String)
    ensures
        out@ == joined_path(base@, child@),
{
    let n = base.unicode_len();
    if has_root(child) {
        child.to_owned()
    } else if n == 0 || base.get_char(n - 1) == '/' {
        cat2(base, child)
    } else {
        proof {
            reveal_strlit("/");
            assert("/"@ =~= seq!['/']);
        }
        cat3(base, "/", child)
    }
}

/// The path that names lead to from a root.
pub fn join_names(root: &str, names: &Vec<String>) -> (out: String)
    ensures
        out@ == path_below(root@, crate::text::texts(names@)),
{
    let ghost all = crate::text::texts(names@);
    let mut out: String = root.to_owned();
    let mut i: usize = 0;
    while i < names.len()
        invariant
            i <= names@.len(),
            all == crate::text::texts(names@),
            out@ == path_below(root@, all.take(i as int)),
        decreases names@.len() - i,
    {
        assert(all.take(i + 1).drop_last() =~= all.take(i as int));
        assert(all.take(i + 1).last() == names@[i as int]@);
        out = join_path(out.as_str(), names[i].as_str());
        i = i + 1;
    }
    assert(all.take(i as int) =~= all);
    out
}

/// A path made absolute (see [`made_absolute`]); `None` where that cannot be.
/// `cwd` is the working directory, if it can be told.
pub fn absolute_path(p: &str, cwd: Option<&str>) -> (out: Option<String>)
    ensures
        crate::text::opt_text(out) == made_absolute(p@, crate::text::str_text(cwd)),
{
    let n = p.unicode_len();
    proof {
        reveal_strlit("/");
        reveal_strlit("//");
        reveal_strlit("");
        assert("/"@ =~= seq!['/']);
        assert("//"@ =~= seq!['/', '/']);
        assert(""@ =~= Seq::<char>::empty());
    }
    let base: &str = if n == 0 {
        return None;
    } else if has_root(p) {
        if n >= 2 && p.get_char(1) == '/' && !(n >= 3 && p.get_char(2) == '/') {
            "//"
        } else {
            "/"
        }
    } else {
        match cwd {
            Some(dir) => dir,
            None => {
                return None;
            },
        }
    };
    let segs = split(p, '/');
    let ghost all = crate::text::texts(segs@);
    let mut names: Vec<String> = Vec::new();
    let mut i: usize = 0;
    assert(crate::text::texts(names@) =~= plain_segments(all.take(0)));
    while i < segs.len()
        invariant
            i <= segs@.len(),
            all == crate::text::texts(segs@),
            crate::text::texts(names@) == plain_segments(all.take(i as int)),
        decreases segs@.len() - i,
    {
        assert(all.take(i + 1).drop_last() =~= all.take(i as int));
        assert(all.take(i + 1).last() == segs@[i as int]@);
        if !segs[i].as_str().is_empty() && !is_dot(segs[i].as_str()) {
            crate::text::push_line(&mut names, segs[i].clone());
        }
        i = i + 1;
    }
    assert(all.take(i as int) =~= all);
    let path = join_names(base, &names);
    if p.get_char(n - 1) == '/' {
        Some(join_path(path.as_str(), ""))
    } else {
        Some(path)
    }
}

/// What is left of `p` after the components of `base`.
pub fn strip_prefix(p: &str, base: &str) -> (out: Option<String>)
    ensures
        crate::text::opt_text(out) == stripped(p@, base@),
{
    let pb = components(base);
    let pp = components(p);
    if !starts(&pb, &pp) {
        return None;
    }
    let c = cut(p);
    let n = c.kept.len();
    let ghost k = kept(segments(p@));
    assert(k.len() == n) by {
        assert(positions(c.kept@).len() == n);
    }
    assert(forall|i: int| 0 <= i < n ==> k[i] == #[trigger] c.kept@[i]) by {
        assert forall|i: int| 0 <= i < n implies k[i] == #[trigger] c.kept@[i] by {
            assert(positions(c.kept@)[i] == c.kept@[i] as int);
        }
    }
    assert(views(pb@).len() == pb@.len());
    if pb.len() == 0 {
        if n > 0 {
            let last: usize = c.kept[n - 1];
            let count: usize = c.segs.len();
            assert(last < count);
            Some(join_between(&c.segs, 0, last + 1))
        } else if has_root(p) {
            let mut out = String::new();
            out.push('/');
            assert(out@ =~= seq!['/']);
            Some(out)
        } else {
            Some(String::new())
        }
    } else {
        assert(rooted(base@) ==> parts(base@)[0] == Part::Root);
        let skip = if has_root(base) {
            pb.len() - 1
        } else {
            pb.len()
        };
        if skip < n {
            proof {
                lemma_kept_bounds(segments(p@));
                if skip < n - 1 {
                    assert(k[skip as int] < k[n - 1]);
                }
            }
            let last: usize = c.kept[n - 1];
            let count: usize = c.segs.len();
            assert(last < count);
            Some(join_between(&c.segs, c.kept[skip], last + 1))
        } else {
            Some(String::new())
        }
    }
}

/// `path` made absolute and normalized without looking at the file system:
/// `.` goes, `..` takes back the name before it, and a relative path starts at
/// `cwd`.
pub fn normalized_absolute(path: &str, cwd: &str) -> (out: String)
    ensures
        out@ == normalized(path@, cwd@),
{
    let mut out = if has_root(path) {
        String::new()
    } else {
        cwd.to_owned()
    };
    let ghost start = out@;
    let comps = components(path);
    let ghost ps = views(comps@);
    let mut i: usize = 0;
    assert(ps.take(0) =~= Seq::<Part>::empty());
    while i < comps.len()
        invariant
            i <= comps@.len(),
            ps == views(comps@),
            out@ == walked(start, ps.take(i as int)),
        decreases comps@.len() - i,
    {
        assert(ps.take(i + 1).drop_last() =~= ps.take(i as int));
        assert(ps.take(i + 1).last() == comps@[i as int]@);
        match &comps[i] {
            Component::RootDir => {
                out = String::new();
                out.push('/');
                assert(out@ =~= seq!['/']);
            },
            Component::CurDir => {},
            Component::ParentDir => {
                let name = file_name(out.as_str());
                if name.is_some() {
                    proof {
                        lemma_name_has_parent(out@);
                    }
                    let up = parent(out.as_str());
                    out = up.unwrap();
                }
            },
            Component::Normal(s) => {
                out = join_path(out.as_str(), s.as_str());
            },
        }
        i = i + 1;
    }
    assert(ps.take(i as int) =~= ps);
    out
}

pub(crate) proof fn lemma_name_has_parent(p: Seq<char>)
    requires
        name_of(p) is Some,
    ensures
        parent_of(p) is Some,
{
    if kept(segments(p)).len() == 0 {
        assert(body(segments(p)).len() == 0);
        assert(parts(p) =~= if rooted(p) {
            seq![Part::Root]
        } else {
            Seq::<Part>::empty()
        });
    }
}

/// Whether `n` is a name that can stand between two slashes.
pub open spec fn is_name(n: Seq<char>) -> bool {
    n.len() > 0 && !n.contains('/') && n != seq!['.'] && n != seq!['.', '.']
}

/// Whether every text of `ns` is a name.
pub open spec fn all_names(ns: Seq<Seq<char>>) -> bool {
    forall|i: int| 0 <= i < ns.len() ==> is_name(#[trigger] ns[i])
}

/// The absolute path whose components are the root and the names `ns`, in its
/// one plain spelling.
pub open spec fn absolute(ns: Seq<Seq<char>>) -> Seq<char> {
    seq!['/'] + crate::text::joined(ns, seq!['/'])
}

/// The names that are left when the components `ps` are followed from `ns`.
pub open spec fn resolved(ns: Seq<Seq<char>>, ps: Seq<Part>) -> Seq<Seq<char>>
    decreases ps.len(),
{
    if ps.len() == 0 {
        ns
    } else {
        let before = resolved(ns, ps.drop_last());
        match ps.last() {
            Part::Root => Seq::empty(),
            Part::Here => before,
            Part::Up => if before.len() > 0 {
                before.drop_last()
            } else {
                before
            },
            Part::Name(n) => before.push(n),
        }
    }
}

/// The components of names.
pub open spec fn names(ns: Seq<Seq<char>>) -> Seq<Part> {
    ns.map_values(|n: Seq<char>| Part::Name(n))
}

proof fn lemma_split_append(a: Seq<char>, b: Seq<char>, sep: char)
    requires
        !b.contains(sep),
    ensures
        crate::text::split_on(a + b, sep) == crate::text::split_on(a, sep).drop_last().push(
            crate::text::split_on(a, sep).last() + b,
        ),
    decreases b.len(),
{
    crate::text::split_then_join(a, sep);
    let before = crate::text::split_on(a, sep);
    if b.len() == 0 {
        assert(a + b =~= a);
        assert(before.last() + b =~= before.last());
        assert(before.drop_last().push(before.last()) =~= before);
    } else {
        let c = b.drop_last();
        assert(!c.contains(sep)) by {
            assert forall|k: int| 0 <= k < c.len() implies c[k] != sep by {
                assert(b.contains(b[k]));
            }
        }
        assert(b.contains(b.last()));
        lemma_split_append(a, c, sep);
        assert((a + b).drop_last() =~= a + c);
        let mid = crate::text::split_on(a + c, sep);
        assert(mid.drop_last() =~= before.drop_last());
        assert((before.last() + c).push(b.last()) =~= before.last() + b);
    }
}

proof fn lemma_split_name(a: Seq<char>, n: Seq<char>)
    requires
        !n.contains('/'),
    ensures
        segments(a + seq!['/'] + n) == segments(a).push(n),
{
    let slash = a.push('/');
    assert(a + seq!['/'] =~= slash);
    assert(slash.drop_last() =~= a);
    lemma_split_append(slash, n, '/');
    let s = segments(slash);
    assert(s == segments(a).push(Seq::<char>::empty()));
    assert(s.drop_last() =~= segments(a));
    assert(Seq::<char>::empty() + n =~= n);
}

proof fn lemma_absolute_segments(ns: Seq<Seq<char>>)
    requires
        all_names(ns),
        ns.len() > 0,
    ensures
        segments(absolute(ns)) == seq![Seq::<char>::empty()] + ns,
    decreases ns.len(),
{
    let none = Seq::<char>::empty();
    if ns.len() == 1 {
        assert(is_name(ns[0]));
        lemma_split_name(none, ns[0]);
        assert(none + seq!['/'] + ns[0] =~= absolute(ns));
        assert(segments(none).push(ns[0]) =~= seq![none] + ns);
    } else {
        let front = ns.drop_last();
        assert(all_names(front)) by {
            assert forall|i: int| 0 <= i < front.len() implies is_name(#[trigger] front[i]) by {
                assert(is_name(ns[i]));
            }
        }
        lemma_absolute_segments(front);
        assert(is_name(ns[ns.len() - 1]));
        lemma_split_name(absolute(front), ns.last());
        assert(absolute(front) + seq!['/'] + ns.last() =~= absolute(ns));
        assert((seq![none] + front).push(ns.last()) =~= seq![none] + ns);
    }
}

proof fn lemma_kept_after_root(ns: Seq<Seq<char>>)
    requires
        all_names(ns),
    ensures
        kept(seq![Seq::<char>::empty()] + ns) == Seq::new(ns.len(), |i: int| i + 1),
    decreases ns.len(),
{
    let none = Seq::<char>::empty();
    let all = seq![none] + ns;
    if ns.len() == 0 {
        assert(all.drop_last() =~= Seq::<Seq<char>>::empty());
        assert(kept(Seq::<Seq<char>>::empty()) =~= Seq::<int>::empty());
        assert(all.last() == none);
        assert(kept(all) =~= Seq::new(ns.len(), |i: int| i + 1));
    } else {
        let front = ns.drop_last();
        assert(all_names(front)) by {
            assert forall|i: int| 0 <= i < front.len() implies is_name(#[trigger] front[i]) by {
                assert(is_name(ns[i]));
            }
        }
        lemma_kept_after_root(front);
        assert(all.drop_last() =~= seq![none] + front);
        assert(is_name(ns[ns.len() - 1]));
        assert(kept(all) =~= Seq::new(ns.len(), |i: int| i + 1));
    }
}

/// The plain spelling of an absolute path has the root and its names as
/// components.
pub proof fn absolute_path_components(ns: Seq<Seq<char>>)
    requires
        all_names(ns),
    ensures
        rooted(absolute(ns)),
        parts(absolute(ns)) == seq![Part::Root] + names(ns),
{
    let none = Seq::<char>::empty();
    let p = absolute(ns);
    if ns.len() == 0 {
        assert(p =~= seq!['/']);
        assert(p.drop_last() =~= none);
        assert(segments(none) =~= seq![none]);
        assert(segments(p) =~= seq![none, none]);
        let segs = segments(p);
        assert(segs.drop_last() =~= seq![none]);
        assert(seq![none].drop_last() =~= Seq::<Seq<char>>::empty());
        assert(kept(Seq::<Seq<char>>::empty()) =~= Seq::<int>::empty());
        assert(seq![none].last() == none);
        assert(kept(seq![none]) =~= Seq::<int>::empty());
        assert(kept(segs) =~= Seq::<int>::empty());
        assert(body(segs) =~= names(ns));
    } else {
        lemma_absolute_segments(ns);
        lemma_kept_after_root(ns);
        let segs = segments(p);
        assert forall|i: int| 0 <= i < ns.len() implies #[trigger] body(segs)[i] == names(
            ns,
        )[i] by {
            assert(is_name(ns[i]));
            assert(kept(segs)[i] == i + 1);
            assert(segs[i + 1] == ns[i]);
        }
        assert(body(segs) =~= names(ns));
    }
}

proof fn lemma_absolute_parent(ns: Seq<Seq<char>>)
    requires
        all_names(ns),
        ns.len() > 0,
    ensures
        name_of(absolute(ns)) is Some,
        parent_of(absolute(ns)) == Some(absolute(ns.drop_last())),
{
    absolute_path_components(ns);
    lemma_absolute_segments(ns);
    lemma_kept_after_root(ns);
    let none = Seq::<char>::empty();
    let segs = segments(absolute(ns));
    let front = ns.drop_last();
    assert(parts(absolute(ns)).last() == Part::Name(ns.last()));
    if ns.len() == 1 {
        assert(absolute(front) =~= seq!['/']);
    } else {
        assert(all_names(front)) by {
            assert forall|i: int| 0 <= i < front.len() implies is_name(#[trigger] front[i]) by {
                assert(is_name(ns[i]));
            }
        }
        lemma_absolute_segments(front);
        assert(segs.subrange(0, ns.len() as int) =~= seq![none] + front);
        crate::text::split_then_join(absolute(front), '/');
    }
}

proof fn lemma_part_names(p: Seq<char>, i: int)
    requires
        0 <= i < parts(p).len(),
    ensures
        parts(p)[i] matches Part::Name(n) ==> is_name(n),
{
    let segs = segments(p);
    let k = kept(segs);
    crate::text::split_then_join(p, '/');
    lemma_kept_bounds(segs);
    let j = if rooted(p) {
        i - 1
    } else {
        i
    };
    if j >= 0 {
        lemma_kept_nonempty(segs, j);
        assert(body(segs)[j] == part_of(segs[k[j]]));
        assert(!segs[k[j]].contains('/'));
    }
}

proof fn lemma_kept_nonempty(segs: Seq<Seq<char>>, j: int)
    requires
        0 <= j < kept(segs).len(),
    ensures
        0 <= kept(segs)[j] < segs.len(),
        segs[kept(segs)[j]].len() > 0,
        segs[kept(segs)[j]] == seq!['.'] ==> kept(segs)[j] == 0,
    decreases segs.len(),
{
    lemma_kept_bounds(segs);
    if segs.len() > 0 {
        let front = segs.drop_last();
        if j < kept(front).len() {
            lemma_kept_nonempty(front, j);
        }
    }
}

proof fn lemma_walked(path: Seq<char>, ns: Seq<Seq<char>>, n: int)
    requires
        all_names(ns),
        0 <= n <= parts(path).len(),
    ensures
        all_names(resolved(ns, parts(path).take(n))),
        walked(absolute(ns), parts(path).take(n)) == absolute(
            resolved(ns, parts(path).take(n)),
        ),
    decreases n,
{
    let ps = parts(path);
    if n == 0 {
        assert(ps.take(0) =~= Seq::<Part>::empty());
    } else {
        lemma_walked(path, ns, n - 1);
        assert(ps.take(n).drop_last() =~= ps.take(n - 1));
        let before = resolved(ns, ps.take(n - 1));
        lemma_part_names(path, n - 1);
        match ps[n - 1] {
            Part::Root => {
                assert(absolute(Seq::empty()) =~= seq!['/']);
            },
            Part::Here => {},
            Part::Up => {
                if before.len() > 0 {
                    lemma_absolute_parent(before);
                    let front = before.drop_last();
                    assert forall|i: int| 0 <= i < front.len() implies is_name(
                        #[trigger] front[i],
                    ) by {
                        assert(is_name(before[i]));
                    }
                } else {
                    absolute_path_components(before);
                    assert(parts(absolute(before)).last() == Part::Root);
                }
            },
            Part::Name(name) => {
                assert(is_name(name));
                assert(!rooted(name)) by {
                    if rooted(name) {
                        assert(name.contains(name[0]));
                    }
                }
                let after = before.push(name);
                assert forall|i: int| 0 <= i < after.len() implies is_name(
                    #[trigger] after[i],
                ) by {
                    if i < before.len() {
                        assert(is_name(before[i]));
                    }
                }
                if before.len() == 0 {
                    assert(absolute(before) =~= seq!['/']);
                    assert(joined_path(absolute(before), name) =~= absolute(after));
                } else {
                    assert(is_name(before.last()));
                    assert(absolute(before).last() != '/') by {
                        let l = before.last();
                        assert(is_name(before[before.len() - 1]));
                        assert(l.contains(l[l.len() - 1]));
                        assert(absolute(before).last() == l.last());
                    }
                    assert(after.drop_last() =~= before);
                    assert(joined_path(absolute(before), name) =~= absolute(after));
                }
            },
        }
    }
}

/// An absolute path normalizes to the plain spelling of the names left after
/// following its components from the root, whatever the working directory is.
pub proof fn normalized_absolute_path(path: Seq<char>, cwd: Seq<char>)
    requires
        rooted(path),
    ensures
        all_names(resolved(Seq::empty(), parts(path))),
        normalized(path, cwd) == absolute(resolved(Seq::empty(), parts(path))),
{
    let ps = parts(path);
    let none = Seq::<Seq<char>>::empty();
    assert(absolute(none) =~= seq!['/']);
    lemma_walked(path, none, ps.len() as int);
    assert(ps.take(ps.len() as int) =~= ps);
    lemma_same_from_root(Seq::empty(), absolute(none), ps);
}

proof fn lemma_same_from_root(a: Seq<char>, b: Seq<char>, ps: Seq<Part>)
    requires
        ps.len() > 0,
        ps[0] == Part::Root,
    ensures
        walked(a, ps) == walked(b, ps),
    decreases ps.len(),
{
    if ps.len() > 1 {
        lemma_same_from_root(a, b, ps.drop_last());
    } else {
        assert(ps.drop_last() =~= Seq::<Part>::empty());
    }
}

/// A relative path normalizes to the plain spelling of the names left after
/// following its components from those of the working directory.
pub proof fn normalized_relative_path(path: Seq<char>, ns: Seq<Seq<char>>)
    requires
        !rooted(path),
        all_names(ns),
    ensures
        all_names(resolved(ns, parts(path))),
        normalized(path, absolute(ns)) == absolute(resolved(ns, parts(path))),
{
    let ps = parts(path);
    lemma_walked(path, ns, ps.len() as int);
    assert(ps.take(ps.len() as int) =~= ps);
}

proof fn lemma_resolved_names(ns: Seq<Seq<char>>)
    ensures
        resolved(Seq::empty(), seq![Part::Root] + names(ns)) == ns,
    decreases ns.len(),
{
    let ps = seq![Part::Root] + names(ns);
    if ns.len() == 0 {
        assert(ps.drop_last() =~= Seq::<Part>::empty());
        assert(resolved(Seq::empty(), ps) =~= ns);
    } else {
        let front = ns.drop_last();
        lemma_resolved_names(front);
        assert(ps.drop_last() =~= seq![Part::Root] + names(front));
        assert(front.push(ns.last()) =~= ns);
    }
}

/// Normalizing a normalized absolute path changes nothing.
pub proof fn normalizing_twice_is_normalizing_once(
    path: Seq<char>,
    cwd: Seq<char>,
    other: Seq<char>,
)
    requires
        rooted(path),
    ensures
        normalized(normalized(path, cwd), other) == normalized(path, cwd),
{
    normalized_absolute_path(path, cwd);
    let ns = resolved(Seq::empty(), parts(path));
    absolute_path_components(ns);
    normalized_absolute_path(absolute(ns), other);
    lemma_resolved_names(ns);
}

proof fn lemma_joined_len(segs: Seq<Seq<char>>, m: int)
    requires
        0 < m < segs.len(),
    ensures
        between(segs, 0, m).len() < crate::text::joined(segs, seq!['/']).len(),
    decreases segs.len(),
{
    let front = segs.drop_last();
    if m == segs.len() - 1 {
        assert(segs.subrange(0, m) =~= front);
    } else {
        lemma_joined_len(front, m);
        assert(front.subrange(0, m) =~= segs.subrange(0, m));
    }
}

/// A path's parent has fewer characters.
pub proof fn lemma_parent_is_shorter(p: Seq<char>)
    ensures
        parent_of(p) matches Some(dir) ==> dir.len() < p.len(),
{
    let segs = segments(p);
    let k = kept(segs);
    crate::text::split_then_join(p, '/');
    lemma_kept_bounds(segs);
    if k.len() == 1 {
        lemma_kept_nonempty(segs, 0);
        lemma_segment_len(segs, k[0]);
        if rooted(p) {
            assert(p.len() >= 2) by {
                if p.len() == 1 {
                    assert(p =~= seq!['/']);
                    absolute_path_components(Seq::empty());
                    assert(absolute(Seq::empty()) =~= p);
                    assert(parts(p).len() == 1);
                    assert(body(segs).len() == 1);
                }
            }
        }
    } else if k.len() > 1 {
        assert(k[k.len() - 2] < k[k.len() - 1]);
        lemma_joined_len(segs, k[k.len() - 2] + 1);
    }
}

proof fn lemma_segment_len(segs: Seq<Seq<char>>, i: int)
    requires
        0 <= i < segs.len(),
    ensures
        segs[i].len() <= crate::text::joined(segs, seq!['/']).len(),
    decreases segs.len(),
{
    if segs.len() > 1 && i < segs.len() - 1 {
        lemma_segment_len(segs.drop_last(), i);
    }
}

/// What is left of a relative path after a non-empty base starts with a name
/// or `..`, never with a slash or a `.` of its own.
pub proof fn lemma_stripped_is_plain(p: Seq<char>, base: Seq<char>)
    requires
        !rooted(p),
        base.len() > 0,
    ensures
        stripped(p, base) matches Some(rest) ==> !rooted(rest) && !seq!['.', '/'].is_prefix_of(
            rest,
        ),
{
    if stripped(p, base) is Some {
        let rest = stripped(p, base)->0;
        let segs = segments(p);
        let k = kept(segs);
        crate::text::split_then_join(p, '/');
        lemma_kept_bounds(segs);
        lemma_nonempty_has_parts(base);
        assert(!rooted(base)) by {
            if rooted(base) {
                assert(parts(base)[0] == Part::Root);
                assert(parts(p)[0] == Part::Root);
                lemma_relative_has_no_root(p, 0);
            }
        }
        let skip = parts(base).len() as int;
        if skip < k.len() {
            lemma_kept_nonempty(segs, skip);
            assert(k[0] < k[skip]);
            let first = segs[k[skip]];
            assert(!first.contains('/'));
            assert(first != seq!['.']);
            let sub = segs.subrange(k[skip], k.last() + 1);
            if skip < k.len() - 1 {
                assert(k[skip] < k[k.len() - 1]);
            }
            lemma_joined_starts(sub);
            assert(sub[0] == first);
            assert(first.contains(first[0]));
            if seq!['.', '/'].is_prefix_of(rest) {
                assert(rest[0] == seq!['.', '/'][0]);
                assert(rest[1] == seq!['.', '/'][1]);
                if first.len() > 1 {
                    assert(first.contains(first[1]));
                } else {
                    assert(first =~= seq!['.']);
                }
            }
        }
    }
}

proof fn lemma_joined_starts(segs: Seq<Seq<char>>)
    requires
        segs.len() > 0,
    ensures
        segs[0].is_prefix_of(crate::text::joined(segs, seq!['/'])),
    decreases segs.len(),
{
    let j = crate::text::joined(segs, seq!['/']);
    if segs.len() > 1 {
        lemma_joined_starts(segs.drop_last());
        let f = crate::text::joined(segs.drop_last(), seq!['/']);
        assert(segs[0] =~= j.subrange(0, segs[0].len() as int)) by {
            assert(segs[0] =~= f.subrange(0, segs[0].len() as int));
        }
    } else {
        assert(segs[0] =~= j.subrange(0, segs[0].len() as int));
    }
}

proof fn lemma_relative_has_no_root(p: Seq<char>, i: int)
    requires
        !rooted(p),
        0 <= i < parts(p).len(),
    ensures
        parts(p)[i] != Part::Root,
{
}

proof fn lemma_nonempty_has_parts(p: Seq<char>)
    requires
        p.len() > 0,
    ensures
        parts(p).len() > 0,
{
    if !rooted(p) {
        let segs = segments(p);
        crate::text::split_then_join(p, '/');
        lemma_first_segment(p);
        assert(segs.take(1) =~= seq![segs[0]]);
        assert(seq![segs[0]].drop_last() =~= Seq::<Seq<char>>::empty());
        assert(kept(Seq::<Seq<char>>::empty()) =~= Seq::<int>::empty());
        assert(is_component(0, segs[0]));
        assert(kept(segs.take(1)).len() == 1);
        lemma_kept_grows(segs, 1);
        assert(body(segs).len() == kept(segs).len());
    }
}

proof fn lemma_kept_grows(segs: Seq<Seq<char>>, n: int)
    requires
        0 <= n <= segs.len(),
    ensures
        kept(segs.take(n)).len() <= kept(segs).len(),
    decreases segs.len(),
{
    if n < segs.len() {
        lemma_kept_grows(segs.drop_last(), n);
        assert(segs.drop_last().take(n) =~= segs.take(n));
    } else {
        assert(segs.take(n) =~= segs);
    }
}

proof fn lemma_first_segment(p: Seq<char>)
    requires
        p.len() > 0,
        p[0] != '/',
    ensures
        segments(p).len() > 0,
        segments(p)[0].len() > 0,
    decreases p.len(),
{
    let front = p.drop_last();
    crate::text::split_then_join(front, '/');
    if front.len() > 0 {
        lemma_first_segment(front);
    } else {
        assert(segments(front) =~= seq![Seq::<char>::empty()]);
    }
}

/// Whether `t` stands in `s` from position `at` on.
pub open spec fn stands_at(s: Seq<char>, t: Seq<char>, at: int) -> bool {
    0 <= at && at + t.len() <= s.len() && t == s.subrange(at, at + t.len())
}

proof fn lemma_segment_is_part(segs: Seq<Seq<char>>, i: int)
    requires
        0 <= i < segs.len(),
    ensures
        exists|at: int| stands_at(crate::text::joined(segs, seq!['/']), segs[i], at),
    decreases segs.len(),
{
    let j = crate::text::joined(segs, seq!['/']);
    let n = segs[i].len() as int;
    if segs.len() == 1 {
        assert(segs[i] =~= j.subrange(0, n));
        assert(stands_at(j, segs[i], 0));
    } else if i == segs.len() - 1 {
        let f = crate::text::joined(segs.drop_last(), seq!['/']);
        let at: int = f.len() as int + 1;
        assert(segs[i] =~= j.subrange(at, at + n));
        assert(stands_at(j, segs[i], at));
    } else {
        let front = segs.drop_last();
        lemma_segment_is_part(front, i);
        let f = crate::text::joined(front, seq!['/']);
        let at = choose|at: int| stands_at(f, front[i], at);
        assert(f.subrange(at, at + n) =~= j.subrange(at, at + n));
        assert(stands_at(j, segs[i], at));
    }
}

/// A path's name is a piece of its text.
pub(crate) proof fn lemma_name_is_part(p: Seq<char>)
    ensures
        name_of(p) matches Some(n) ==> exists|at: int| stands_at(p, n, at),
{
    if name_of(p) is Some {
        let segs = segments(p);
        let k = kept(segs);
        crate::text::split_then_join(p, '/');
        lemma_kept_bounds(segs);
        assert(k.len() > 0) by {
            if k.len() == 0 {
                assert(body(segs) =~= Seq::<Part>::empty());
            }
        }
        assert(parts(p).last() == body(segs).last());
        assert(body(segs).last() == part_of(segs[k.last()]));
        lemma_segment_is_part(segs, k.last());
        let seg = segs[k.last()];
        let at = choose|at: int|
            stands_at(crate::text::joined(segs, seq!['/']), segs[k.last()], at);
        assert(stands_at(p, seg, at));
        assert(name_of(p) == Some(seg));
        assert(stands_at(p, name_of(p)->0, at));
    }
}

proof fn lemma_split_of_joined(segs: Seq<Seq<char>>)
    requires
        segs.len() > 0,
        forall|i: int| 0 <= i < segs.len() ==> !(#[trigger] segs[i]).contains('/'),
    ensures
        segments(crate::text::joined(segs, seq!['/'])) == segs,
    decreases segs.len(),
{
    let none = Seq::<char>::empty();
    if segs.len() == 1 {
        lemma_split_append(none, segs[0], '/');
        assert(none + segs[0] =~= segs[0]);
        assert(segments(none) =~= seq![none]);
        assert(segments(none).drop_last().push(segs[0]) =~= segs);
    } else {
        let front = segs.drop_last();
        assert forall|i: int| 0 <= i < front.len() implies !(#[trigger] front[i]).contains('/') by {
            assert(!segs[i].contains('/'));
        }
        lemma_split_of_joined(front);
        assert(!segs[segs.len() - 1].contains('/'));
        lemma_split_name(crate::text::joined(front, seq!['/']), segs.last());
        assert(front.push(segs.last()) =~= segs);
    }
}

proof fn lemma_kept_take(segs: Seq<Seq<char>>, m: int)
    requires
        0 <= m <= segs.len(),
    ensures
        kept(segs.take(m)).len() <= kept(segs).len(),
        kept(segs.take(m)) == kept(segs).take(kept(segs.take(m)).len() as int),
        forall|j: int|
            kept(segs.take(m)).len() <= j < kept(segs).len() ==> #[trigger] kept(segs)[j] >= m,
    decreases segs.len(),
{
    if m < segs.len() {
        let front = segs.drop_last();
        lemma_kept_take(front, m);
        assert(front.take(m) =~= segs.take(m));
        assert(kept(segs.take(m)) =~= kept(segs).take(kept(segs.take(m)).len() as int));
    } else {
        assert(segs.take(m) =~= segs);
        assert(kept(segs) =~= kept(segs).take(kept(segs).len() as int));
    }
}

proof fn lemma_joined_first(segs: Seq<Seq<char>>)
    requires
        segs.len() > 1,
        segs[0].len() == 0,
    ensures
        rooted(crate::text::joined(segs, seq!['/'])),
    decreases segs.len(),
{
    let front = segs.drop_last();
    if segs.len() > 2 {
        lemma_joined_first(front);
    } else {
        assert(front =~= seq![segs[0]]);
        assert(crate::text::joined(front, seq!['/']) =~= segs[0]);
    }
}

/// A path's parent has its components but for the last one.
pub proof fn parent_drops_the_last_component(p: Seq<char>)
    ensures
        parent_of(p) matches Some(dir) ==> parts(p).len() > 0 && parts(dir) == parts(p).drop_last(),
{
    let segs = segments(p);
    let k = kept(segs);
    crate::text::split_then_join(p, '/');
    lemma_kept_bounds(segs);
    let none = Seq::<char>::empty();
    if k.len() == 1 {
        if rooted(p) {
            absolute_path_components(Seq::empty());
            assert(absolute(Seq::empty()) =~= seq!['/']);
            assert(names(Seq::empty()) =~= Seq::<Part>::empty());
            assert(parts(seq!['/']) =~= seq![Part::Root]);
            assert(parts(p).drop_last() =~= seq![Part::Root]);
        } else {
            assert(segments(none) =~= seq![none]);
            assert(seq![none].drop_last() =~= Seq::<Seq<char>>::empty());
            assert(kept(Seq::<Seq<char>>::empty()) =~= Seq::<int>::empty());
            assert(seq![none].last() == none);
            assert(kept(seq![none]) =~= Seq::<int>::empty());
            assert(parts(none) =~= Seq::<Part>::empty());
            assert(parts(p).drop_last() =~= Seq::<Part>::empty());
        }
    } else if k.len() > 1 {
        let m = k[k.len() - 2] + 1;
        let front = segs.take(m);
        let dir = between(segs, 0, m);
        assert(segs.subrange(0, m) =~= front);
        assert(k[k.len() - 2] < k[k.len() - 1]);
        assert forall|i: int| 0 <= i < front.len() implies !(#[trigger] front[i]).contains('/') by {
            assert(!segs[i].contains('/'));
        }
        lemma_split_of_joined(front);
        assert(segments(dir) == front);
        lemma_kept_take(segs, m);
        lemma_kept_bounds(front);
        let kf = kept(front);
        assert(kf.len() == k.len() - 1) by {
            if kf.len() < k.len() - 1 {
                assert(kept(segs)[k.len() - 2] >= m);
            }
            if kf.len() == k.len() {
                assert(kf[k.len() - 1] == k[k.len() - 1]);
            }
        }
        assert(body(front) =~= body(segs).drop_last()) by {
            assert forall|i: int| 0 <= i < kf.len() implies #[trigger] body(front)[i] == body(
                segs,
            )[i] by {
                assert(kf[i] == k[i]);
                assert(front[kf[i]] == segs[k[i]]);
            }
        }
        assert(rooted(dir) == rooted(p)) by {
            if rooted(p) {
                lemma_rooted_first_segment(p);
                lemma_kept_nonempty(segs, k.len() - 2);
                assert(m > 1);
                lemma_joined_first(front);
            } else {
                lemma_nonempty_text(p);
                lemma_first_segment(p);
                lemma_joined_starts(front);
                lemma_joined_starts(segs);
                assert(front[0] == segs[0]);
                assert(dir[0] == front[0][0]);
                assert(p[0] == segs[0][0]);
            }
        }
        assert(parts(dir) =~= parts(p).drop_last());
    }
}

proof fn lemma_nonempty_text(p: Seq<char>)
    requires
        kept(segments(p)).len() > 0,
    ensures
        p.len() > 0,
{
    if p.len() == 0 {
        let none = Seq::<char>::empty();
        assert(p =~= none);
        assert(segments(none) =~= seq![none]);
        assert(seq![none].drop_last() =~= Seq::<Seq<char>>::empty());
        assert(kept(Seq::<Seq<char>>::empty()) =~= Seq::<int>::empty());
        assert(seq![none].last() == none);
        assert(kept(seq![none]) =~= Seq::<int>::empty());
    }
}

proof fn lemma_rooted_first_segment(p: Seq<char>)
    requires
        rooted(p),
    ensures
        segments(p).len() > 1,
        segments(p)[0].len() == 0,
    decreases p.len(),
{
    let front = p.drop_last();
    crate::text::split_then_join(front, '/');
    if front.len() > 0 {
        lemma_rooted_first_segment(front);
    } else {
        assert(segments(front) =~= seq![Seq::<char>::empty()]);
    }
}

/// Going down into a name adds it to the components.
pub proof fn joining_adds_a_component(base: Seq<char>, name: Seq<char>)
    requires
        is_name(name),
    ensures
        parts(joined_path(base, name)) == parts(base).push(Part::Name(name)),
{
    let p = joined_path(base, name);
    assert(!rooted(name)) by {
        if rooted(name) {
            assert(name.contains(name[0]));
        }
    }
    let none = Seq::<char>::empty();
    if base.len() == 0 {
        assert(p =~= name);
        assert(base =~= none);
        assert(segments(none) =~= seq![none]);
        lemma_split_append(none, name, '/');
        assert(none + name =~= name);
        assert(segments(p) =~= seq![name]);
        assert(seq![name].drop_last() =~= Seq::<Seq<char>>::empty());
        assert(seq![none].drop_last() =~= Seq::<Seq<char>>::empty());
        assert(kept(Seq::<Seq<char>>::empty()) =~= Seq::<int>::empty());
        assert(seq![none].last() == none);
        assert(kept(seq![none]) =~= Seq::<int>::empty());
        assert(kept(seq![name]) =~= seq![0int]);
        assert(parts(p) =~= parts(base).push(Part::Name(name)));
    } else if base.last() == '/' {
        let c = base.drop_last();
        assert(base =~= c + seq!['/']);
        assert(p =~= c + seq!['/'] + name);
        lemma_split_name(c, name);
        let s = segments(c);
        assert(segments(base) =~= s.push(none));
        lemma_kept_push(s, name);
        lemma_kept_push(s, none);
        assert(body(s.push(none)) =~= body(s)) by {
            lemma_body_push(s, none);
        }
        lemma_body_push(s, name);
        assert(rooted(p) == rooted(base));
        assert(parts(p) =~= parts(base).push(Part::Name(name)));
    } else {
        assert(p =~= base + seq!['/'] + name);
        lemma_split_name(base, name);
        lemma_body_push(segments(base), name);
        assert(rooted(p) == rooted(base));
        assert(parts(p) =~= parts(base).push(Part::Name(name)));
    }
}

proof fn lemma_kept_push(segs: Seq<Seq<char>>, seg: Seq<char>)
    ensures
        kept(segs.push(seg)) == if is_component(segs.len() as int, seg) {
            kept(segs).push(segs.len() as int)
        } else {
            kept(segs)
        },
{
    assert(segs.push(seg).drop_last() =~= segs);
}

proof fn lemma_body_push(segs: Seq<Seq<char>>, seg: Seq<char>)
    ensures
        body(segs.push(seg)) == if is_component(segs.len() as int, seg) {
            body(segs).push(part_of(seg))
        } else {
            body(segs)
        },
{
    lemma_kept_push(segs, seg);
    lemma_kept_bounds(segs);
    let all = segs.push(seg);
    assert forall|i: int| 0 <= i < kept(segs).len() implies #[trigger] body(all)[i] == body(
        segs,
    )[i] by {
        assert(all[kept(segs)[i]] == segs[kept(segs)[i]]);
    }
    if is_component(segs.len() as int, seg) {
        assert(body(all) =~= body(segs).push(part_of(seg)));
    } else {
        assert(body(all) =~= body(segs));
    }
}

/// Names below a rooted path lead to a rooted path.
proof fn lemma_below_is_rooted(base: Seq<char>, names: Seq<Seq<char>>)
    requires
        rooted(base),
    ensures
        rooted(path_below(base, names)),
    decreases names.len(),
{
    if names.len() > 0 {
        lemma_below_is_rooted(base, names.drop_last());
    }
}

/// Where the working directory is absolute, or the path is, making a path
/// absolute gives an absolute path; it fails on the empty path alone.
pub proof fn made_absolute_is_absolute(p: Seq<char>, cwd: Option<Seq<char>>)
    requires
        rooted(p) || (cwd is Some && rooted(cwd->0)),
    ensures
        made_absolute(p, cwd) is Some <==> p.len() > 0,
        p.len() > 0 ==> rooted(made_absolute(p, cwd)->0),
{
    if p.len() > 0 {
        let base = if rooted(p) {
            root_text(p)
        } else {
            cwd->0
        };
        lemma_below_is_rooted(base, plain_segments(segments(p)));
    }
}

/// Whether `seg` can stand between two slashes and is a component there.
spec fn is_plain(seg: Seq<char>) -> bool {
    seg.len() > 0 && !seg.contains('/') && seg != seq!['.']
}

proof fn lemma_plain_segments(segs: Seq<Seq<char>>)
    requires
        forall|i: int| 0 <= i < segs.len() ==> !(#[trigger] segs[i]).contains('/'),
    ensures
        forall|i: int|
            0 <= i < plain_segments(segs).len() ==> is_plain(#[trigger] plain_segments(segs)[i]),
    decreases segs.len(),
{
    if segs.len() > 0 {
        let front = segs.drop_last();
        assert forall|i: int| 0 <= i < front.len() implies !(#[trigger] front[i]).contains('/') by {
            assert(front[i] == segs[i]);
        }
        lemma_plain_segments(front);
        assert(!segs[segs.len() - 1].contains('/'));
        let before = plain_segments(front);
        let all = plain_segments(segs);
        assert forall|i: int| 0 <= i < all.len() implies is_plain(#[trigger] all[i]) by {
            if i < before.len() {
                assert(all[i] == before[i]);
            }
        }
    }
}

proof fn lemma_join_plain(base: Seq<char>, seg: Seq<char>)
    requires
        rooted(base),
        is_plain(seg),
    ensures
        parts(joined_path(base, seg)) == parts(base).push(part_of(seg)),
{
    let p = joined_path(base, seg);
    assert(!rooted(seg)) by {
        if rooted(seg) {
            assert(seg.contains(seg[0]));
        }
    }
    let none = Seq::<char>::empty();
    if base.last() == '/' {
        let c = base.drop_last();
        assert(base =~= c + seq!['/']);
        assert(p =~= c + seq!['/'] + seg);
        lemma_split_name(c, seg);
        assert(segments(base) =~= segments(c).push(none));
        lemma_body_push(segments(c), none);
        lemma_body_push(segments(c), seg);
    } else {
        assert(p =~= base + seq!['/'] + seg);
        lemma_split_name(base, seg);
        lemma_body_push(segments(base), seg);
    }
    assert(parts(p) =~= parts(base).push(part_of(seg)));
}

proof fn lemma_below_parts(base: Seq<char>, segs: Seq<Seq<char>>)
    requires
        rooted(base),
        forall|i: int| 0 <= i < segs.len() ==> is_plain(#[trigger] segs[i]),
    ensures
        parts(path_below(base, segs)) == parts(base) + segs.map_values(
            |s: Seq<char>| part_of(s),
        ),
    decreases segs.len(),
{
    let shown = segs.map_values(|s: Seq<char>| part_of(s));
    if segs.len() == 0 {
        assert(parts(base) + shown =~= parts(base));
    } else {
        let front = segs.drop_last();
        assert forall|i: int| 0 <= i < front.len() implies is_plain(#[trigger] front[i]) by {
            assert(front[i] == segs[i]);
        }
        lemma_below_parts(base, front);
        lemma_below_is_rooted(base, front);
        assert(is_plain(segs[segs.len() - 1]));
        lemma_join_plain(path_below(base, front), segs.last());
        let before = front.map_values(|s: Seq<char>| part_of(s));
        assert(parts(base) + shown =~= (parts(base) + before).push(part_of(segs.last())));
    }
}

proof fn lemma_end_slash(p: Seq<char>)
    requires
        rooted(p),
    ensures
        parts(joined_path(p, Seq::empty())) == parts(p),
{
    let none = Seq::<char>::empty();
    if p.last() == '/' {
        assert(joined_path(p, none) =~= p);
    } else {
        assert(!none.contains('/'));
        lemma_split_name(p, none);
        lemma_body_push(segments(p), none);
    }
}

proof fn lemma_split_concat(a: Seq<char>, b: Seq<char>)
    ensures
        segments(a + seq!['/'] + b) == segments(a) + segments(b),
    decreases b.len(),
{
    let all = a + seq!['/'] + b;
    if b.len() == 0 {
        assert(all =~= a.push('/'));
        assert(all.drop_last() =~= a);
        assert(segments(a).push(Seq::<char>::empty()) =~= segments(a) + segments(b));
    } else {
        let c = b.drop_last();
        lemma_split_concat(a, c);
        crate::text::split_then_join(c, '/');
        assert(all.drop_last() =~= a + seq!['/'] + c);
        let before = segments(a) + segments(c);
        if b.last() == '/' {
            assert(before.push(Seq::<char>::empty()) =~= segments(a) + segments(b));
        } else {
            assert(before.last() == segments(c).last());
            assert(before.drop_last().push(before.last().push(b.last())) =~= segments(a)
                + segments(b));
        }
    }
}

proof fn lemma_body_concat(segs: Seq<Seq<char>>, more: Seq<Seq<char>>)
    requires
        segs.len() > 0,
    ensures
        body(segs + more) == body(segs) + plain_segments(more).map_values(
            |s: Seq<char>| part_of(s),
        ),
    decreases more.len(),
{
    let shown = plain_segments(more).map_values(|s: Seq<char>| part_of(s));
    if more.len() == 0 {
        assert(segs + more =~= segs);
        assert(body(segs) + shown =~= body(segs));
    } else {
        let front = more.drop_last();
        lemma_body_concat(segs, front);
        assert(segs + more =~= (segs + front).push(more.last()));
        lemma_body_push(segs + front, more.last());
        let before = plain_segments(front).map_values(|s: Seq<char>| part_of(s));
        if more.last().len() == 0 || more.last() == seq!['.'] {
            assert(shown =~= before);
        } else {
            assert(body(segs) + shown =~= (body(segs) + before).push(part_of(more.last())));
        }
    }
}

proof fn lemma_plain_after_empty(segs: Seq<Seq<char>>)
    requires
        segs.len() > 0,
        segs[0].len() == 0,
    ensures
        plain_segments(segs) == plain_segments(segs.skip(1)),
    decreases segs.len(),
{
    if segs.len() == 1 {
        assert(segs.skip(1) =~= Seq::<Seq<char>>::empty());
        assert(segs.drop_last() =~= Seq::<Seq<char>>::empty());
    } else {
        lemma_plain_after_empty(segs.drop_last());
        assert(segs.skip(1).drop_last() =~= segs.drop_last().skip(1));
    }
}

proof fn lemma_root_parts(p: Seq<char>)
    requires
        rooted(p),
    ensures
        parts(root_text(p)) == seq![Part::Root],
{
    let none = Seq::<char>::empty();
    let one = seq!['/'];
    let two = seq!['/', '/'];
    assert(one.drop_last() =~= none);
    assert(two.drop_last() =~= one);
    assert(segments(none) =~= seq![none]);
    assert(segments(one) =~= seq![none].push(none));
    assert(segments(two) =~= seq![none].push(none).push(none));
    assert(seq![none].drop_last() =~= Seq::<Seq<char>>::empty());
    assert(kept(Seq::<Seq<char>>::empty()) =~= Seq::<int>::empty());
    assert(seq![none].last() == none);
    assert(kept(seq![none]) =~= Seq::<int>::empty());
    lemma_kept_push(seq![none], none);
    lemma_kept_push(seq![none].push(none), none);
    assert(body(segments(one)) =~= Seq::<Part>::empty());
    assert(body(segments(two)) =~= Seq::<Part>::empty());
    assert(parts(one) =~= seq![Part::Root]);
    assert(parts(two) =~= seq![Part::Root]);
}

/// A path made absolute is the path taken from the working directory: it has the
/// same components, and so names the same file.
pub proof fn making_absolute_keeps_the_components(p: Seq<char>, cwd: Seq<char>)
    requires
        p.len() > 0,
        rooted(cwd),
    ensures
        same_path(made_absolute(p, Some(cwd))->0, joined_path(cwd, p)),
{
    let base = if rooted(p) {
        root_text(p)
    } else {
        cwd
    };
    let segs = segments(p);
    let plain = plain_segments(segs);
    let path = path_below(base, plain);
    let shown = plain.map_values(|s: Seq<char>| part_of(s));
    let none = Seq::<char>::empty();
    crate::text::split_then_join(p, '/');
    lemma_plain_segments(segs);
    lemma_below_is_rooted(base, plain);
    lemma_below_parts(base, plain);
    lemma_end_slash(path);
    assert(parts(made_absolute(p, Some(cwd))->0) == parts(base) + shown);
    if rooted(p) {
        lemma_root_parts(p);
        lemma_rooted_first_segment(p);
        lemma_plain_after_empty(segs);
        let first = segs.take(1);
        assert(segs =~= first + segs.skip(1));
        lemma_body_concat(first, segs.skip(1));
        assert(first.drop_last() =~= Seq::<Seq<char>>::empty());
        assert(kept(first.drop_last()) =~= Seq::<int>::empty());
        assert(first.last() == segs[0]);
        assert(kept(first) =~= Seq::<int>::empty());
        assert(body(first) =~= Seq::<Part>::empty());
        assert(parts(p) =~= seq![Part::Root] + shown);
    } else if cwd.last() == '/' {
        let c = cwd.drop_last();
        assert(cwd =~= c + seq!['/']);
        assert(joined_path(cwd, p) =~= c + seq!['/'] + p);
        lemma_split_concat(c, p);
        crate::text::split_then_join(c, '/');
        assert(segments(cwd) =~= segments(c).push(none));
        lemma_body_push(segments(c), none);
        lemma_body_concat(segments(c), segs);
        assert(parts(joined_path(cwd, p)) =~= parts(cwd) + shown);
    } else {
        lemma_split_concat(cwd, p);
        crate::text::split_then_join(cwd, '/');
        lemma_body_concat(segments(cwd), segs);
        assert(parts(joined_path(cwd, p)) =~= parts(cwd) + shown);
    }
}

/// A `.` between slashes, a repeated slash and a slash at the end say nothing: with or
/// without them a path has the same components.
pub proof fn dots_and_repeated_slashes_say_nothing(a: Seq<char>, b: Seq<char>)
    requires
        a.len() > 0,
    ensures
        same_path(a + seq!['/', '.', '/'] + b, a + seq!['/'] + b),
        same_path(a + seq!['/', '/'] + b, a + seq!['/'] + b),
        same_path(a + seq!['/'], a),
{
    let none = Seq::<char>::empty();
    let dot = seq!['.'];
    let s = segments(a);
    crate::text::split_then_join(a, '/');
    lemma_split_concat(a, b);
    lemma_body_concat(s, segments(b));
    // With a dot in between.
    let db = dot + seq!['/'] + b;
    assert(a + seq!['/', '.', '/'] + b =~= a + seq!['/'] + db);
    lemma_split_concat(a, db);
    lemma_split_concat(dot, b);
    assert(!dot.contains('/')) by {
        assert forall|k: int| 0 <= k < dot.len() implies dot[k] != '/' by {}
    }
    crate::text::a_separator_ends_a_piece(dot, b, '/');
    assert(segments(dot) =~= seq![dot]);
    lemma_plain_head(dot, segments(b));
    lemma_body_concat(s, segments(db));
    // With an empty segment in between.
    let nb = none + seq!['/'] + b;
    assert(a + seq!['/', '/'] + b =~= a + seq!['/'] + nb);
    lemma_split_concat(a, nb);
    lemma_split_concat(none, b);
    assert(segments(none) =~= seq![none]);
    lemma_plain_head(none, segments(b));
    lemma_body_concat(s, segments(nb));
    // With an empty segment at the end.
    assert(a + seq!['/'] =~= a + seq!['/'] + none);
    lemma_split_concat(a, none);
    lemma_body_concat(s, segments(none));
    lemma_plain_head(none, Seq::empty());
    assert(seq![none] + Seq::<Seq<char>>::empty() =~= seq![none]);
    assert(plain_segments(Seq::<Seq<char>>::empty()) =~= Seq::<Seq<char>>::empty());
    assert(body(s) + plain_segments(segments(none)).map_values(|s: Seq<char>| part_of(s))
        =~= body(s));
}

proof fn lemma_plain_head(seg: Seq<char>, more: Seq<Seq<char>>)
    requires
        seg.len() == 0 || seg == seq!['.'],
    ensures
        plain_segments(seq![seg] + more) == plain_segments(more),
    decreases more.len(),
{
    if more.len() == 0 {
        let all = seq![seg] + more;
        assert(all.drop_last() =~= Seq::<Seq<char>>::empty());
        assert(all.last() == seg);
        assert(plain_segments(all.drop_last()) =~= Seq::<Seq<char>>::empty());
    } else {
        let front = more.drop_last();
        lemma_plain_head(seg, front);
        assert((seq![seg] + more).drop_last() =~= seq![seg] + front);
        assert((seq![seg] + more).last() == more.last());
    }
}

proof fn lemma_kept_before(segs: Seq<Seq<char>>, n: int)
    requires
        0 <= n < kept(segs).len(),
    ensures
        0 <= kept(segs)[n] < segs.len(),
        kept(segs.take(kept(segs)[n])) == kept(segs).take(n),
    decreases segs.len(),
{
    lemma_kept_bounds(segs);
    let front = segs.drop_last();
    let before = kept(front);
    let at = kept(segs)[n];
    if n < before.len() {
        assert(kept(segs)[n] == before[n]);
        lemma_kept_before(front, n);
        assert(front.take(at) =~= segs.take(at));
        assert(kept(segs).take(n) =~= before.take(n));
    } else {
        assert(at == segs.len() - 1);
        assert(segs.take(at) =~= front);
        assert(kept(segs).take(n) =~= before);
    }
}

proof fn lemma_plain_after_last(segs: Seq<Seq<char>>)
    requires
        kept(segs).len() > 0,
    ensures
        0 <= kept(segs).last() < segs.len(),
        kept(segs.take(kept(segs).last() + 1)) == kept(segs),
    decreases segs.len(),
{
    lemma_kept_bounds(segs);
    let front = segs.drop_last();
    let at = kept(segs).last();
    if is_component(segs.len() - 1, segs.last()) {
        assert(segs.take(at + 1) =~= segs);
    } else {
        lemma_plain_after_last(front);
        assert(front.take(at + 1) =~= segs.take(at + 1));
    }
}

/// What is left of a path after the components of another are the components behind
/// them: put behind the other's again, they are the whole path.
pub proof fn what_is_stripped_can_be_put_back(p: Seq<char>, base: Seq<char>)
    requires
        parts(base).len() > 0,
    ensures
        stripped(p, base) is Some <==> parts(base).is_prefix_of(parts(p)),
        stripped(p, base) is Some ==> parts(p) == parts(base) + parts(stripped(p, base)->0),
{
    let segs = segments(p);
    let k = kept(segs);
    let none = Seq::<char>::empty();
    crate::text::split_then_join(p, '/');
    if parts(base).is_prefix_of(parts(p)) {
        let rest = stripped(p, base)->0;
        let skip = parts(base).len() - if rooted(base) {
            1int
        } else {
            0int
        };
        assert(rooted(base) == rooted(p)) by {
            assert(parts(base)[0] == parts(p)[0]);
            if rooted(p) != rooted(base) {
                if rooted(p) {
                    lemma_no_root_in_body(base);
                } else {
                    lemma_no_root_in_body(p);
                }
            }
        }
        if skip < k.len() {
            lemma_kept_bounds(segs);
            lemma_kept_before(segs, skip);
            lemma_plain_after_last(segs);
            let from = k[skip];
            let to = k.last() + 1;
            lemma_kept_is_component(segs, skip);
            assert(from > 0) by {
                if rooted(p) {
                    lemma_rooted_first_segment(p);
                } else {
                    assert(skip > 0);
                    lemma_kept_ascends(segs, 0, skip);
                }
            }
            lemma_kept_ascends(segs, skip, k.len() - 1);
            let head = segs.take(from);
            let sub = segs.subrange(from, to);
            assert(segs.take(to) =~= head + sub);
            lemma_body_concat(head, sub);
            assert(body(segs.take(to)) =~= body(segs)) by {
                assert forall|i: int| 0 <= i < k.len() implies segs.take(to)[k[i]]
                    == #[trigger] segs[k[i]] by {
                    lemma_kept_ascends(segs, i, k.len() - 1);
                }
            }
            // The rest is made of the segments from the first that is left on.
            assert forall|i: int| 0 <= i < sub.len() implies !(#[trigger] sub[i]).contains('/') by {
                assert(sub[i] == segs[from + i]);
            }
            lemma_split_of_joined(sub);
            assert(segments(rest) =~= sub);
            let first = seq![sub[0]];
            let more = sub.skip(1);
            assert(sub =~= first + more);
            lemma_body_concat(first, more);
            assert(sub[0] == segs[from]);
            assert(first.drop_last() =~= Seq::<Seq<char>>::empty());
            assert(kept(first.drop_last()) =~= Seq::<int>::empty());
            assert(first.last() == sub[0]);
            assert(kept(first) =~= seq![0int]);
            assert(body(first) =~= seq![part_of(sub[0])]);
            lemma_plain_lead(sub[0], more);
            let shown = plain_segments(sub).map_values(|s: Seq<char>| part_of(s));
            assert(plain_segments(sub) =~= seq![sub[0]] + plain_segments(more));
            assert(body(sub) =~= shown) by {
                assert(shown =~= seq![part_of(sub[0])] + plain_segments(more).map_values(
                    |s: Seq<char>| part_of(s),
                ));
            }
            assert(!rooted(rest)) by {
                if rooted(rest) {
                    lemma_rooted_first_segment(rest);
                }
            }
            assert(parts(rest) == body(sub));
            assert(kept(head) == k.take(skip));
            assert(body(head) =~= body(segs).take(skip)) by {
                assert forall|i: int| 0 <= i < skip implies head[k[i]] == #[trigger] segs[k[i]] by {
                    lemma_kept_ascends(segs, i, skip);
                }
            }
            assert(parts(base) =~= parts(p).take(parts(base).len() as int));
            assert(parts(p) =~= parts(base) + parts(rest));
        } else {
            assert(rest =~= none);
            assert(segments(none) =~= seq![none]);
            assert(seq![none].drop_last() =~= Seq::<Seq<char>>::empty());
            assert(kept(seq![none].drop_last()) =~= Seq::<int>::empty());
            assert(seq![none].last() == none);
            assert(kept(seq![none]) =~= Seq::<int>::empty());
            assert(parts(none) =~= Seq::<Part>::empty());
            assert(parts(p).len() <= parts(base).len());
            assert(parts(p) =~= parts(base) + parts(rest));
        }
    }
}

proof fn lemma_no_root_in_body(p: Seq<char>)
    requires
        !rooted(p),
    ensures
        forall|i: int| 0 <= i < parts(p).len() ==> #[trigger] parts(p)[i] != Part::Root,
{
}

proof fn lemma_kept_is_component(segs: Seq<Seq<char>>, n: int)
    requires
        0 <= n < kept(segs).len(),
    ensures
        is_component(kept(segs)[n], segs[kept(segs)[n]]),
    decreases segs.len(),
{
    lemma_kept_bounds(segs);
    let front = segs.drop_last();
    lemma_kept_bounds(front);
    if n < kept(front).len() {
        lemma_kept_is_component(front, n);
        assert(kept(segs)[n] == kept(front)[n]);
        assert(front[kept(front)[n]] == segs[kept(front)[n]]);
    }
}

proof fn lemma_kept_ascends(segs: Seq<Seq<char>>, i: int, j: int)
    requires
        0 <= i <= j < kept(segs).len(),
    ensures
        kept(segs)[i] <= kept(segs)[j],
        i < j ==> kept(segs)[i] < kept(segs)[j],
    decreases segs.len(),
{
    let front = segs.drop_last();
    lemma_kept_bounds(front);
    let before = kept(front);
    if j < before.len() {
        lemma_kept_ascends(front, i, j);
        assert(kept(segs)[i] == before[i]);
        assert(kept(segs)[j] == before[j]);
    } else if i < before.len() {
        assert(kept(segs)[i] == before[i]);
    }
}

proof fn lemma_plain_lead(seg: Seq<char>, more: Seq<Seq<char>>)
    requires
        seg.len() > 0,
        seg != seq!['.'],
    ensures
        plain_segments(seq![seg] + more) == seq![seg] + plain_segments(more),
    decreases more.len(),
{
    let all = seq![seg] + more;
    if more.len() == 0 {
        assert(all.drop_last() =~= Seq::<Seq<char>>::empty());
        assert(all.last() == seg);
        assert(plain_segments(all.drop_last()) =~= Seq::<Seq<char>>::empty());
        assert(plain_segments(all) =~= seq![seg] + plain_segments(more));
    } else {
        let front = more.drop_last();
        lemma_plain_lead(seg, front);
        assert(all.drop_last() =~= seq![seg] + front);
        assert(all.last() == more.last());
        assert(plain_segments(all) =~= seq![seg] + plain_segments(more));
    }
}

} // verus!
