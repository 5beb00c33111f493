//! Rewriting of `/DOCS-BASE/` links into relative Markdown file links.

use vstd::prelude::*;
use crate::text::{
    chars_of, find_char_from, first_index, has_prefix, lemma_first_index, push_char, push_range,
    push_repeat, repeat, starts_with_str, string_from_range, trim_end_char,
};

verus! {

/// Links that are left as they are: web, mail, phone and in-page links.
pub open spec fn is_foreign_link(url: Seq<char>) -> bool {
    ||| has_prefix(url, "http://"@)
    ||| has_prefix(url, "https://"@)
    ||| has_prefix(url, "mailto:"@)
    ||| has_prefix(url, "tel:"@)
    ||| has_prefix(url, "#"@)
}

/// `s` split at the first `c`: the part before it, and the part after it if `c` occurs.
pub open spec fn split_once(s: Seq<char>, c: char) -> (Seq<char>, Option<Seq<char>>) {
    match first_index(s, c) {
        Some(i) => (s.take(i), Some(s.skip(i + 1))),
        None => (s, None),
    }
}

/// `s` contains two consecutive dots.
pub open spec fn has_dot_dot(s: Seq<char>) -> bool {
    exists|i: int| 0 <= i && i + 1 < s.len() && #[trigger] dot_pair_at(s, i)
}

/// Positions `i` and `i + 1` of `s` are both dots.
pub open spec fn dot_pair_at(s: Seq<char>, i: int) -> bool {
    s[i] == '.' && s[i + 1] == '.'
}

/// The Markdown file stem for a docs path: `index` for the root, otherwise
/// the path without its trailing slashes.
pub open spec fn md_stem(path: Seq<char>) -> Seq<char> {
    if path.len() == 0 || path == seq!['/'] {
        "index"@
    } else {
        trim_end_char(path, '/')
    }
}

/// `c` followed by `part`, or nothing when there is no part.
pub open spec fn tagged_part(c: char, part: Option<Seq<char>>) -> Seq<char> {
    match part {
        Some(p) => seq![c] + p,
        None => Seq::empty(),
    }
}

/// The rewritten form of a docs link seen from a page `depth` levels below the root.
pub open spec fn rewritten_link(url: Seq<char>, depth: nat) -> Seq<char> {
    if is_foreign_link(url) || !has_prefix(url, "/DOCS-BASE/"@) {
        url
    } else {
        let after = url.skip(11);
        let (before_fragment, fragment) = split_once(after, '#');
        let (path, query) = split_once(before_fragment, '?');
        if has_dot_dot(path) {
            url
        } else {
            repeat("../"@, depth) + md_stem(path) + ".md"@ + tagged_part('?', query)
                + tagged_part('#', fragment)
        }
    }
}

fn contains_dot_dot(cs: &Vec<char>, from: usize, to: usize) -> (r: bool)
    requires
        from <= to <= cs@.len(),
    ensures
        r == has_dot_dot(cs@.subrange(from as int, to as int)),
{
    let ghost s = cs@.subrange(from as int, to as int);
    let mut i = from;
    while to - i >= 2
        invariant
            from <= i <= to,
            to <= cs@.len(),
            s == cs@.subrange(from as int, to as int),
            forall|j: int| from <= j < i && j + 1 < to ==> !#[trigger] dot_pair_at(cs@, j),
        decreases to - i,
    {
        if cs[i] == '.' && cs[i + 1] == '.' {
            assert(s[i - from] == '.' && s[i - from + 1] == '.');
            assert(dot_pair_at(s, i - from));
            return true;
        }
        i = i + 1;
    }
    assert forall|j: int| 0 <= j && j + 1 < s.len() implies !#[trigger] dot_pair_at(s, j) by {
        assert(s[j] == cs@[j + from]);
        assert(s[j + 1] == cs@[j + from + 1]);
        assert(!dot_pair_at(cs@, j + from));
    }
    false
}

/// Splits the characters after the docs prefix into path, query and fragment
/// bounds: the path is `cs[11..path_end]`, the query (if any) `cs[path_end + 1..before_end]`
/// and the fragment (if any) `cs[before_end + 1..]`.
fn split_bounds(cs: &Vec<char>) -> (r: (usize, usize))
    requires
        11 <= cs@.len(),
    ensures
        11 <= r.0 <= r.1 <= cs@.len(),
        split_once(cs@.skip(11), '#').0 == cs@.subrange(11, r.1 as int),
        split_once(cs@.skip(11), '#').1 == (if r.1 < cs@.len() {
            Some(cs@.subrange(r.1 + 1, cs@.len() as int))
        } else {
            None::<Seq<char>>
        }),
        split_once(cs@.subrange(11, r.1 as int), '?').0 == cs@.subrange(11, r.0 as int),
        split_once(cs@.subrange(11, r.1 as int), '?').1 == (if r.0 < r.1 {
            Some(cs@.subrange(r.0 + 1, r.1 as int))
        } else {
            None::<Seq<char>>
        }),
{
    let n = cs.len();
    let ghost after = cs@.skip(11);
    let hash = find_char_from(cs, '#', 11);
    let before_end: usize = match hash {
        Some(h) => h,
        None => n,
    };
    proof {
        lemma_first_index(after, '#');
        assert(split_once(after, '#').0 =~= cs@.subrange(11, before_end as int));
        match hash {
            Some(h) => {
                assert(split_once(after, '#').1 == Some(cs@.subrange(h + 1, n as int))) by {
                    assert(after.skip(h - 11 + 1) =~= cs@.subrange(h + 1, n as int));
                }
            }
            None => {}
        }
    }
    let ghost before = cs@.subrange(11, before_end as int);
    let q = find_char_from(cs, '?', 11);
    let path_end: usize = match q {
        Some(k) => if k < before_end { k } else { before_end },
        None => before_end,
    };
    proof {
        lemma_first_index(after, '?');
        lemma_first_index(before, '?');
        match first_index(before, '?') {
            Some(k) => {
                assert(before[k] == cs@[k + 11]);
                assert(after[k] == cs@[k + 11]);
                match first_index(after, '?') {
                    Some(k2) => {
                        if k2 < k {
                            assert(before[k2] == after[k2]);
                        }
                        if k < k2 {
                            assert(after[k] == '?');
                        }
                    }
                    None => {}
                }
            }
            None => {
                match first_index(after, '?') {
                    Some(k) => {
                        if k < before_end - 11 {
                            assert(before[k] == after[k]);
                        }
                    }
                    None => {}
                }
            }
        }
        assert(split_once(before, '?').0 =~= cs@.subrange(11, path_end as int));
        if path_end < before_end {
            assert(split_once(before, '?').1 == Some(cs@.subrange(path_end + 1, before_end as int))) by {
                assert(before.skip(path_end - 11 + 1) =~= cs@.subrange(path_end + 1, before_end as int));
            }
        }
    }
    (path_end, before_end)
}

/// Appends the Markdown stem of the path `cs[11..path_end]`.
fn push_md_stem(out: &mut String, cs: &Vec<char>, path_end: usize)
    requires
        11 <= path_end <= cs@.len(),
    ensures
        final(out)@ == old(out)@ + md_stem(cs@.subrange(11, path_end as int)),
{
    let ghost path = cs@.subrange(11, path_end as int);
    let mut stem_end = path_end;
    while stem_end > 11 && cs[stem_end - 1] == '/'
        invariant
            11 <= stem_end <= path_end <= cs@.len(),
            trim_end_char(path, '/') == trim_end_char(cs@.subrange(11, stem_end as int), '/'),
        decreases stem_end,
    {
        assert(cs@.subrange(11, stem_end as int).drop_last() =~= cs@.subrange(11, stem_end - 1));
        stem_end = stem_end - 1;
    }
    proof {
        reveal_strlit("index");
    }
    if path_end == 11 || (path_end == 12 && cs[11] == '/') {
        assert(path.len() == 0 || path =~= seq!['/']);
        out.append("index");
    } else {
        assert(!(path.len() == 0 || path == seq!['/'])) by {
            if path == seq!['/'] {
                assert(path.len() == 1);
            }
        }
        push_range(out, cs, 11, stem_end);
    }
}

/// Rewrites a `/DOCS-BASE/` URL into a relative `.md` link for a page at `depth`.
///
/// External links (`http://`, `https://`, `mailto:`, `tel:`, `#...`), links outside
/// `/DOCS-BASE/` and paths containing `..` are returned unchanged.
pub fn rewrite_docs_link(url: &str, depth: usize) -> (r: String)
    ensures
        r@ == rewritten_link(url@, depth as nat),
{
    let cs = chars_of(url);
    proof {
        reveal_strlit("/DOCS-BASE/");
    }
    if starts_with_str(&cs, "http://") || starts_with_str(&cs, "https://") || starts_with_str(
        &cs,
        "mailto:",
    ) || starts_with_str(&cs, "tel:") || starts_with_str(&cs, "#") || !starts_with_str(
        &cs,
        "/DOCS-BASE/",
    ) {
        let r = string_from_range(&cs, 0, cs.len());
        assert(r@ =~= url@);
        return r;
    }
    let n = cs.len();
    let (path_end, before_end) = split_bounds(&cs);
    if contains_dot_dot(&cs, 11, path_end) {
        let r = string_from_range(&cs, 0, n);
        assert(r@ =~= url@);
        return r;
    }
    let mut r = String::new();
    push_repeat(&mut r, "../", depth);
    push_md_stem(&mut r, &cs, path_end);
    proof {
        reveal_strlit(".md");
    }
    r.append(".md");
    if path_end < before_end {
        push_char(&mut r, '?');
        push_range(&mut r, &cs, path_end + 1, before_end);
    }
    if before_end < n {
        push_char(&mut r, '#');
        push_range(&mut r, &cs, before_end + 1, n);
    }
    assert(r@ =~= rewritten_link(url@, depth as nat));
    r
}


proof fn lemma_repeat_first(s: Seq<char>, n: nat)
    requires
        n >= 1,
        s.len() >= 1,
    ensures
        repeat(s, n).len() >= 1,
        repeat(s, n)[0] == s[0],
    decreases n,
{
    if n > 1 {
        lemma_repeat_first(s, (n - 1) as nat);
        assert((repeat(s, (n - 1) as nat) + s)[0] == repeat(s, (n - 1) as nat)[0]);
    } else {
        assert(repeat(s, 0) + s =~= s);
    }
}

/// Rewriting is idempotent for pages below the root: a link that has been
/// rewritten once is left unchanged by a second rewrite.
pub proof fn lemma_rewrite_idempotent(url: Seq<char>, depth: nat)
    requires
        depth >= 1,
    ensures
        rewritten_link(rewritten_link(url, depth), depth) == rewritten_link(url, depth),
{
    let r = rewritten_link(url, depth);
    if r != url {
        reveal_strlit("../");
        reveal_strlit("http://");
        reveal_strlit("https://");
        reveal_strlit("mailto:");
        reveal_strlit("tel:");
        reveal_strlit("#");
        reveal_strlit("/DOCS-BASE/");
        let after = url.skip(11);
        let (before_fragment, fragment) = split_once(after, '#');
        let (path, query) = split_once(before_fragment, '?');
        let head = repeat("../"@, depth);
        lemma_repeat_first("../"@, depth);
        assert(r == head + md_stem(path) + ".md"@ + tagged_part('?', query) + tagged_part('#', fragment));
        assert(r[0] == '.');
        assert(!has_prefix(r, "/DOCS-BASE/"@)) by {
            if has_prefix(r, "/DOCS-BASE/"@) {
                assert(r.subrange(0, 11)[0] == r[0]);
            }
        }
    }
}

} // verus!
