//! Mapping of docs routes (`/DOCS-BASE/...`) to Markdown file paths, with
//! checks that keep every path inside the target directory.

use vstd::prelude::*;
use crate::links::dot_pair_at;
use crate::text::{chars_of, has_prefix, push_range, starts_with_str, string_from_range, trim_end_char};

verus! {

/// Route conversion errors.
#[derive(Debug)]
pub enum RouteError {
    /// Route doesn't start with `/DOCS-BASE/`.
    MissingPrefix(String),
    /// Absolute or rooted path not allowed.
    AbsolutePath(String),
    /// Path traversal (`..`) not allowed.
    PathTraversal(String),
}

/// A path that is absolute or rooted: its first component is the root
/// directory, that is, it begins with `/`.
pub open spec fn is_rooted(p: Seq<char>) -> bool {
    p.len() >= 1 && p[0] == '/'
}

/// A `..` component starts at position `i` of `p` (components are separated by `/`).
pub open spec fn parent_component_at(p: Seq<char>, i: int) -> bool {
    &&& 0 <= i
    &&& i + 2 <= p.len()
    &&& p[i] == '.'
    &&& p[i + 1] == '.'
    &&& (i == 0 || p[i - 1] == '/')
    &&& (i + 2 == p.len() || p[i + 2] == '/')
}

/// `p` has a `..` component.
pub open spec fn has_parent_component(p: Seq<char>) -> bool {
    exists|i: int| #[trigger] parent_component_at(p, i)
}

/// `base` extended by `part` the way a file-system path is extended: an absolute
/// `part` replaces `base`, otherwise a `/` separates them when needed.
pub open spec fn path_join(base: Seq<char>, part: Seq<char>) -> Seq<char> {
    if part.len() >= 1 && part[0] == '/' {
        part
    } else if base.len() == 0 {
        part
    } else if base.last() == '/' {
        base + part
    } else {
        base + seq!['/'] + part
    }
}

/// The file path for a relative route under `target`.
pub open spec fn route_file(target: Seq<char>, rel: Seq<char>) -> Seq<char> {
    if rel.len() == 0 {
        path_join(target, "index.md"@)
    } else if rel.last() == '/' {
        path_join(path_join(target, trim_end_char(rel, '/')), "index.md"@)
    } else {
        path_join(target, rel + ".md"@)
    }
}

/// What `route_to_filepath` gives for a route: the file path, or which check fails.
pub open spec fn route_outcome(target: Seq<char>, route: Seq<char>) -> Result<Seq<char>, RouteErrorKind> {
    if !has_prefix(route, "/DOCS-BASE/"@) {
        Err(RouteErrorKind::MissingPrefix)
    } else {
        let rel = route.skip(11);
        if rel.len() > 0 && is_rooted(rel) {
            Err(RouteErrorKind::AbsolutePath)
        } else if rel.len() > 0 && has_parent_component(rel) {
            Err(RouteErrorKind::PathTraversal)
        } else {
            Ok(route_file(target, rel))
        }
    }
}

/// The kind of a [`RouteError`], for contracts.
pub enum RouteErrorKind {
    MissingPrefix,
    AbsolutePath,
    PathTraversal,
}

impl RouteError {
    pub open spec fn kind(&self) -> RouteErrorKind {
        match self {
            RouteError::MissingPrefix(_) => RouteErrorKind::MissingPrefix,
            RouteError::AbsolutePath(_) => RouteErrorKind::AbsolutePath,
            RouteError::PathTraversal(_) => RouteErrorKind::PathTraversal,
        }
    }

    /// The route text the error reports.
    pub open spec fn subject(&self) -> Seq<char> {
        match self {
            RouteError::MissingPrefix(s) => s@,
            RouteError::AbsolutePath(s) => s@,
            RouteError::PathTraversal(s) => s@,
        }
    }
}

/// Whether `p` is rooted (see [`is_rooted`]).
pub fn is_rooted_path(p: &Vec<char>) -> (r: bool)
    ensures
        r == is_rooted(p@),
{
    p.len() >= 1 && p[0] == '/'
}

/// Whether `p` has a `..` component.
pub fn has_parent_dir(p: &Vec<char>) -> (r: bool)
    ensures
        r == has_parent_component(p@),
{
    let n = p.len();
    let mut i: usize = 0;
    while i < n
        invariant
            n == p@.len(),
            i <= n,
            forall|j: int| 0 <= j < i ==> !#[trigger] parent_component_at(p@, j),
        decreases n - i,
    {
        if n - i >= 2 && p[i] == '.' && p[i + 1] == '.' && (i == 0 || p[i - 1] == '/') && (n - i == 2
            || p[i + 2] == '/') {
            assert(parent_component_at(p@, i as int));
            return true;
        }
        i = i + 1;
    }
    assert forall|j: int| !#[trigger] parent_component_at(p@, j) by {
        if 0 <= j < n {
        }
    }
    false
}

/// Extends the path `base` by `part` (see [`path_join`]).
pub fn join_path(base: &String, part: &Vec<char>) -> (r: String)
    ensures
        r@ == path_join(base@, part@),
{
    if part.len() >= 1 && part[0] == '/' {
        return string_from_range(part, 0, part.len());
    }
    let b = chars_of(base.as_str());
    let mut r = string_from_range(&b, 0, b.len());
    if b.len() > 0 && b[b.len() - 1] != '/' {
        r.append("/");
        proof { reveal_strlit("/"); }
    }
    push_range(&mut r, part, 0, part.len());
    assert(part@.subrange(0, part@.len() as int) =~= part@);
    assert(r@ =~= path_join(base@, part@));
    r
}

/// Strips the `/DOCS-BASE/` prefix from a route.
fn strip_prefix(route: &Vec<char>, route_text: &str) -> (r: Result<Vec<char>, RouteError>)
    requires
        route@ == route_text@,
    ensures
        match r {
            Ok(rel) => has_prefix(route_text@, "/DOCS-BASE/"@) && rel@ == route_text@.skip(11),
            Err(e) => !has_prefix(route_text@, "/DOCS-BASE/"@) && e.kind() == RouteErrorKind::MissingPrefix
                && e.subject() == route_text@,
        },
{
    proof { reveal_strlit("/DOCS-BASE/"); }
    if !starts_with_str(route, "/DOCS-BASE/") {
        return Err(RouteError::MissingPrefix(string_from_range(route, 0, route.len())));
    }
    let mut rel: Vec<char> = Vec::new();
    let mut i: usize = 11;
    while i < route.len()
        invariant
            11 <= i <= route@.len(),
            rel@ == route@.subrange(11, i as int),
        decreases route.len() - i,
    {
        rel.push(route[i]);
        i = i + 1;
        assert(rel@ =~= route@.subrange(11, i as int));
    }
    assert(rel@ =~= route@.skip(11));
    Ok(rel)
}

/// Rejects rooted relative routes and routes with `..` components.
fn validate_route_security(rel: &Vec<char>) -> (r: Result<(), RouteError>)
    ensures
        match r {
            Ok(_) => rel@.len() == 0 || (!is_rooted(rel@) && !has_parent_component(rel@)),
            Err(e) => rel@.len() > 0 && e.subject() == rel@ && (if is_rooted(rel@) {
                e.kind() == RouteErrorKind::AbsolutePath
            } else {
                has_parent_component(rel@) && e.kind() == RouteErrorKind::PathTraversal
            }),
        },
{
    if rel.len() == 0 {
        return Ok(());
    }
    if is_rooted_path(rel) {
        return Err(RouteError::AbsolutePath(string_from_range(rel, 0, rel.len())));
    }
    if has_parent_dir(rel) {
        return Err(RouteError::PathTraversal(string_from_range(rel, 0, rel.len())));
    }
    Ok(())
}

/// `p` without its trailing slashes.
fn without_trailing_slashes(p: &Vec<char>) -> (r: Vec<char>)
    ensures
        r@ == trim_end_char(p@, '/'),
{
    let mut end = p.len();
    assert(p@ =~= p@.subrange(0, p@.len() as int));
    while end > 0 && p[end - 1] == '/'
        invariant
            end <= p@.len(),
            trim_end_char(p@, '/') == trim_end_char(p@.subrange(0, end as int), '/'),
        decreases end,
    {
        assert(p@.subrange(0, end as int).drop_last() =~= p@.subrange(0, end - 1));
        end = end - 1;
    }
    let mut dir: Vec<char> = Vec::new();
    let mut i: usize = 0;
    while i < end
        invariant
            end <= p@.len(),
            i <= end,
            dir@ == p@.subrange(0, i as int),
        decreases end - i,
    {
        dir.push(p[i]);
        i = i + 1;
        assert(dir@ =~= p@.subrange(0, i as int));
    }
    dir
}

/// Builds the file path for a validated relative route.
fn build_filepath(target_dir: &str, rel: &Vec<char>) -> (r: String)
    ensures
        r@ == route_file(target_dir@, rel@),
{
    proof {
        reveal_strlit("index.md");
        reveal_strlit(".md");
    }
    let base = string_from_range(&chars_of(target_dir), 0, target_dir.unicode_len());
    if rel.len() == 0 {
        join_path(&base, &chars_of("index.md"))
    } else if rel[rel.len() - 1] == '/' {
        let dir = without_trailing_slashes(rel);
        let with_dir = join_path(&base, &dir);
        join_path(&with_dir, &chars_of("index.md"))
    } else {
        let mut file = rel.clone();
        file.push('.');
        file.push('m');
        file.push('d');
        assert(file@ =~= rel@ + ".md"@);
        join_path(&base, &file)
    }
}

/// Converts a docs route to the path of its Markdown file under `target_dir`.
///
/// - `/DOCS-BASE/` maps to `index.md`
/// - `/DOCS-BASE/tutorial/` maps to `tutorial/index.md`
/// - `/DOCS-BASE/tutorial/writing` maps to `tutorial/writing.md`
///
/// Routes without the prefix are refused with `MissingPrefix(route)`; rooted
/// routes and routes with `..` components with `AbsolutePath(rel)` and
/// `PathTraversal(rel)`, `rel` being the part after the prefix.
pub fn route_to_filepath(target_dir: &str, route: &str) -> (r: Result<String, RouteError>)
    ensures
        match route_outcome(target_dir@, route@) {
            Ok(p) => r matches Ok(path) && path@ == p,
            Err(k) => r matches Err(e) && e.kind() == k && e.subject() == (if k is MissingPrefix {
                route@
            } else {
                route@.skip(11)
            }),
        },
{
    let cs = chars_of(route);
    let rel = strip_prefix(&cs, route)?;
    validate_route_security(&rel)?;
    Ok(build_filepath(target_dir, &rel))
}

/// `t`, the result of removing trailing `c` from `s`, is a prefix of `s`
/// followed in `s` only by `c`, and does not itself end with `c`.
proof fn lemma_trim_end_char(s: Seq<char>, c: char)
    ensures
        trim_end_char(s, c).len() <= s.len(),
        trim_end_char(s, c) == s.take(trim_end_char(s, c).len() as int),
        forall|j: int| trim_end_char(s, c).len() <= j < s.len() ==> s[j] == c,
        trim_end_char(s, c).len() == 0 || trim_end_char(s, c).last() != c,
    decreases s.len(),
{
    if s.len() > 0 && s.last() == c {
        lemma_trim_end_char(s.drop_last(), c);
        let t = trim_end_char(s.drop_last(), c);
        assert(s.drop_last().take(t.len() as int) =~= s.take(t.len() as int));
        assert forall|j: int| t.len() <= j < s.len() implies s[j] == c by {
            if j < s.len() - 1 {
                assert(s[j] == s.drop_last()[j]);
            }
        }
    } else {
        assert(s.take(s.len() as int) =~= s);
    }
}

/// A path made of `a` and then `b` has no `..` component when `a` has none
/// that ends where `a` ends, `b` holds no two dots in a row, and `b` begins
/// with neither a dot nor a separator unless `a` does not end with a dot.
proof fn lemma_no_parent_concat(a: Seq<char>, b: Seq<char>)
    requires
        b.len() > 0 && b[0] == '/' ==> !has_parent_component(a + b.take(1)),
        !has_parent_component(a),
        forall|j: int| 0 <= j < b.len() - 1 ==> !#[trigger] dot_pair_at(b, j),
        b.len() > 0 && b[0] == '.' ==> b.len() >= 2 && b[1] != '/' && b[1] != '.',
    ensures
        !has_parent_component(a + b),
{
    let p = a + b;
    assert forall|i: int| !#[trigger] parent_component_at(p, i) by {
        if parent_component_at(p, i) {
            if i + 2 < a.len() {
                assert(parent_component_at(a, i));
            } else if i + 2 == a.len() {
                if b.len() == 0 {
                    assert(parent_component_at(a, i));
                } else {
                    assert(p[i + 2] == b[0]);
                    let q = a + b.take(1);
                    assert(q[i] == p[i] && q[i + 1] == p[i + 1] && q[i + 2] == b[0]);
                    if i > 0 {
                        assert(q[i - 1] == p[i - 1]);
                    }
                    assert(parent_component_at(q, i));
                }
            } else if i + 1 == a.len() {
                assert(p[i + 1] == b[0]);
                assert(p[i + 2] == b[1]);
            } else {
                assert(p[i] == b[i - a.len()]);
                assert(p[i + 1] == b[i + 1 - a.len()]);
                assert(dot_pair_at(b, i - a.len()));
            }
        }
    }
}

/// A route that is accepted maps to a file inside the target directory: the
/// target, then a separator where one is needed, then a relative file path
/// that is not rooted and has no `..` component.
pub proof fn lemma_route_stays_inside(target: Seq<char>, route: Seq<char>)
    requires
        route_outcome(target, route) is Ok,
    ensures
        exists|file: Seq<char>|
            {
                &&& (#[trigger] route_outcome(target, route)) == Ok::<Seq<char>, RouteErrorKind>(target + file)
                    || route_outcome(target, route) == Ok::<Seq<char>, RouteErrorKind>(target + seq!['/'] + file)
                &&& file.len() > 0
                &&& !is_rooted(file)
                &&& !has_parent_component(file)
            },
{
    let rel = route.skip(11);
    let index = "index.md"@;
    let md = ".md"@;
    reveal_strlit("index.md");
    reveal_strlit(".md");
    assert(index =~= seq!['i', 'n', 'd', 'e', 'x', '.', 'm', 'd']);
    assert(!has_parent_component(index)) by {
        assert forall|i: int| !#[trigger] parent_component_at(index, i) by {}
    }
    let file = if rel.len() == 0 {
        index
    } else if rel.last() == '/' {
        let t = trim_end_char(rel, '/');
        lemma_trim_end_char(rel, '/');
        assert(t.len() > 0) by {
            if t.len() == 0 {
                assert(rel[0] == '/');
            }
        }
        assert(t.len() < rel.len());
        assert(rel[t.len() as int] == '/');
        let tail = seq!['/'] + index;
        assert(!has_parent_component(t)) by {
            assert forall|i: int| !#[trigger] parent_component_at(t, i) by {
                if parent_component_at(t, i) {
                    assert(t[i] == rel[i] && t[i + 1] == rel[i + 1]);
                    if i > 0 {
                        assert(t[i - 1] == rel[i - 1]);
                    }
                    if i + 2 < t.len() {
                        assert(t[i + 2] == rel[i + 2]);
                    }
                    assert(parent_component_at(rel, i));
                }
            }
        }
        assert(!has_parent_component(t + tail.take(1))) by {
            assert forall|i: int| !#[trigger] parent_component_at(t + tail.take(1), i) by {
                let q = t + tail.take(1);
                if parent_component_at(q, i) {
                    assert(q[t.len() as int] == '/');
                    assert(i + 1 < t.len());
                    assert(q[i] == rel[i] && q[i + 1] == rel[i + 1]);
                    if i > 0 {
                        assert(q[i - 1] == rel[i - 1]);
                    }
                    assert(q[i + 2] == rel[i + 2]);
                    assert(parent_component_at(rel, i));
                }
            }
        }
        assert forall|j: int| 0 <= j < tail.len() - 1 implies !#[trigger] dot_pair_at(tail, j) by {
            if j >= 1 {
                assert(tail[j] == index[j - 1]);
                assert(tail[j + 1] == index[j]);
            }
        }
        lemma_no_parent_concat(t, tail);
        assert(path_join(target, t) == if target.len() == 0 { t } else if target.last() == '/' { target + t } else { target + seq!['/'] + t });
        assert(t + tail =~= t + seq!['/'] + index);
        if target.len() == 0 {
            assert(route_file(target, rel) =~= target + (t + tail));
        } else if target.last() == '/' {
            assert(route_file(target, rel) =~= target + (t + tail));
        } else {
            assert(route_file(target, rel) =~= target + seq!['/'] + (t + tail));
        }
        assert((t + tail)[0] == t[0] && t[0] == rel[0]);
        if t.len() >= 2 {
            assert(t[1] == rel[1]);
        } else {
            assert((t + tail)[1] == '/');
        }
        t + tail
    } else {
        assert(!has_parent_component(rel)) by {
            assert(route.skip(11) == rel);
        }
        assert(md =~= seq!['.', 'm', 'd']);
        assert forall|j: int| 0 <= j < md.len() - 1 implies !#[trigger] dot_pair_at(md, j) by {}
        lemma_no_parent_concat(rel, md);
        assert((rel + md)[0] == rel[0]);
        if rel.len() >= 2 {
            assert((rel + md)[1] == rel[1]);
        } else {
            assert((rel + md)[1] == '.');
        }
        if target.len() == 0 || target.last() == '/' {
            assert(route_file(target, rel) =~= target + (rel + md));
        } else {
            assert(route_file(target, rel) =~= target + seq!['/'] + (rel + md));
        }
        rel + md
    };
    if rel.len() == 0 {
        if target.len() == 0 || target.last() == '/' {
            assert(route_file(target, rel) =~= target + index);
        } else {
            assert(route_file(target, rel) =~= target + seq!['/'] + index);
        }
    }
    assert(route_outcome(target, route) == Ok::<Seq<char>, RouteErrorKind>(route_file(target, rel)));
}

} // verus!
