//! The manifest of a documentation cache: one line per file, its SHA-256
//! digest, a space and its relative path.

use vstd::prelude::*;
use sha2::Digest;
use crate::render::{lemma_strs_push, strs};
use crate::text::{
    chars_of, first_index, is_ws, lemma_first_index, lines, lines_of, newline_pieces, push_char, strip_cr,
    string_from_range, trim_bounds, trim_ws, trim_start_ws, trim_end_ws,
};

verus! {

/// What the SHA-256 digest of some bytes is, written as `{:x}` writes it
/// (lowercase hexadecimal).
pub uninterp spec fn sha256_hex(data: Seq<u8>) -> Seq<char>;

/// The SHA-256 digest of `data` in lowercase hexadecimal (`sha2::Sha256`,
/// formatted with `{:x}`). The contract claims that the text is a function of
/// the bytes (named `sha256_hex`) and that it is the 64 lowercase
/// hexadecimal digits of the 32-byte digest.
#[verifier::external_body]
fn compute_sha256(data: &[u8]) -> (r: String)
    ensures
        r@ == sha256_hex(data@),
        r@.len() == 64,
        forall|i: int| 0 <= i < 64 ==> ('0' <= #[trigger] r@[i] <= '9' || 'a' <= r@[i] <= 'f'),
{
    let mut hasher = sha2::Sha256::new();
    hasher.update(data);
    format!("{:x}", hasher.finalize())
}

/// The line of one file.
pub open spec fn manifest_line(e: (Seq<char>, Seq<char>)) -> Seq<char> {
    e.0 + seq![' '] + e.1
}

/// The manifest text: each file's line followed by a line feed.
pub open spec fn manifest_text(es: Seq<(Seq<char>, Seq<char>)>) -> Seq<char>
    decreases es.len(),
{
    if es.len() == 0 {
        Seq::empty()
    } else {
        manifest_line(es[0]) + seq!['\n'] + manifest_text(es.drop_first())
    }
}

/// The entry a manifest line holds: the text before its first space and the
/// text after it; blank lines and lines without a space hold none.
pub open spec fn parse_line(l: Seq<char>) -> Option<(Seq<char>, Seq<char>)> {
    if trim_ws(l).len() == 0 {
        None
    } else {
        match first_index(l, ' ') {
            Some(k) => Some((l.take(k), l.skip(k + 1))),
            None => None,
        }
    }
}

/// The entries of the lines, in order.
pub open spec fn parsed_entries(ls: Seq<Seq<char>>) -> Seq<(Seq<char>, Seq<char>)>
    decreases ls.len(),
{
    if ls.len() == 0 {
        Seq::empty()
    } else {
        let rest = parsed_entries(ls.drop_last());
        match parse_line(ls.last()) {
            Some(e) => rest.push(e),
            None => rest,
        }
    }
}

/// The entries of a manifest text.
pub open spec fn manifest_entries(content: Seq<char>) -> Seq<(Seq<char>, Seq<char>)> {
    parsed_entries(lines_of(content))
}

/// The views of string pairs.
pub open spec fn entry_views(es: Seq<(String, String)>) -> Seq<(Seq<char>, Seq<char>)> {
    es.map_values(|e: (String, String)| (e.0@, e.1@))
}

proof fn lemma_manifest_text_push(es: Seq<(Seq<char>, Seq<char>)>, e: (Seq<char>, Seq<char>))
    ensures
        manifest_text(es.push(e)) == manifest_text(es) + manifest_line(e) + seq!['\n'],
    decreases es.len(),
{
    if es.len() == 0 {
        assert(es.push(e).drop_first() =~= Seq::<(Seq<char>, Seq<char>)>::empty());
        assert(es.push(e)[0] == e);
        assert(manifest_text(es.push(e).drop_first()) == Seq::<char>::empty());
        assert(manifest_text(es) == Seq::<char>::empty());
        assert(manifest_text(es.push(e)) =~= manifest_text(es) + manifest_line(e) + seq!['\n']);
    } else {
        assert(es.push(e).drop_first() =~= es.drop_first().push(e));
        lemma_manifest_text_push(es.drop_first(), e);
        assert(manifest_text(es.push(e)) =~= manifest_text(es) + manifest_line(e) + seq!['\n']);
    }
}

/// The manifest entry of one file: the digest of its content and its
/// relative path.
pub fn file_manifest_entry(rel_path: &str, data: &[u8]) -> (r: (String, String))
    ensures
        r.0@ == sha256_hex(data@),
        r.1@ == rel_path@,
{
    (compute_sha256(data), rel_path.to_owned())
}

/// Whether a file's content has the digest that its manifest line records.
pub fn hash_matches(expected: &str, data: &[u8]) -> (r: bool)
    ensures
        r == (sha256_hex(data@) == expected@),
{
    let actual = compute_sha256(data);
    crate::text::text_eq(actual.as_str(), expected)
}

/// Writes the manifest of the entries (digest and relative path of each file).
pub fn format_manifest(entries: &Vec<(String, String)>) -> (r: String)
    ensures
        r@ == manifest_text(entry_views(entries@)),
{
    let mut r = String::new();
    let mut i: usize = 0;
    while i < entries.len()
        invariant
            i <= entries@.len(),
            r@ == manifest_text(entry_views(entries@.take(i as int))),
        decreases entries.len() - i,
    {
        let ghost before = entry_views(entries@.take(i as int));
        r.append(entries[i].0.as_str());
        push_char(&mut r, ' ');
        r.append(entries[i].1.as_str());
        push_char(&mut r, '\n');
        proof {
            assert(entry_views(entries@.take(i + 1)) =~= before.push((entries@[i as int].0@, entries@[i as int].1@)));
            lemma_manifest_text_push(before, (entries@[i as int].0@, entries@[i as int].1@));
        }
        i = i + 1;
    }
    assert(entries@.take(entries@.len() as int) =~= entries@);
    r
}

/// Reads the entries of a manifest (see [`manifest_entries`]).
pub fn parse_manifest(content: &str) -> (r: Vec<(String, String)>)
    ensures
        entry_views(r@) == manifest_entries(content@),
{
    let ls = lines(content);
    let ghost all = lines_of(content@);
    let mut out: Vec<(String, String)> = Vec::new();
    let mut i: usize = 0;
    while i < ls.len()
        invariant
            all == lines_of(content@),
            ls@.len() == all.len(),
            forall|k: int| 0 <= k < ls@.len() ==> #[trigger] ls@[k]@ == all[k],
            i <= ls@.len(),
            entry_views(out@) == parsed_entries(all.take(i as int)),
        decreases ls.len() - i,
    {
        let line = &ls[i];
        assert(line@ == all[i as int]);
        assert(all.take(i + 1).drop_last() =~= all.take(i as int));
        let (a, b) = trim_bounds(line, 0, line.len());
        assert(line@.subrange(0, line@.len() as int) =~= line@);
        if a < b {
            proof {
                assert(line@.skip(0) =~= line@);
                lemma_first_index(line@, ' ');
            }
            match crate::text::find_char_from(line, ' ', 0) {
                Some(k) => {
                    assert(line@.skip(0) =~= line@);
                    let hash = string_from_range(line, 0, k);
                    let path = string_from_range(line, k + 1, line.len());
                    let ghost before = out@;
                    out.push((hash, path));
                    assert(entry_views(out@) =~= entry_views(before).push((line@.take(k as int), line@.skip(k + 1))));
                },
                None => {
                    assert(line@.skip(0) =~= line@);
                },
            }
        }
        i = i + 1;
    }
    assert(all.take(all.len() as int) =~= all);
    out
}

/// An entry whose line reads back: a non-empty digest without whitespace,
/// and a path without line feeds that does not end with a carriage return.
pub open spec fn readable_entry(e: (Seq<char>, Seq<char>)) -> bool {
    &&& e.0.len() > 0
    &&& forall|i: int| 0 <= i < e.0.len() ==> !is_ws(#[trigger] e.0[i])
    &&& forall|i: int| 0 <= i < e.1.len() ==> #[trigger] e.1[i] != '\n'
    &&& (e.1.len() > 0 ==> e.1.last() != '\r')
}

proof fn lemma_first_index_at(s: Seq<char>, c: char, k: int)
    requires
        0 <= k < s.len(),
        s[k] == c,
        forall|j: int| 0 <= j < k ==> s[j] != c,
    ensures
        first_index(s, c) == Some(k),
{
    lemma_first_index(s, c);
    match first_index(s, c) {
        Some(i) => {
            if i < k {
                assert(s[i] != c);
            } else if i > k {
                assert(s[k] != c);
            }
        },
        None => {
            assert(s[k] != c);
        },
    }
}

proof fn lemma_pieces(es: Seq<(Seq<char>, Seq<char>)>)
    requires
        forall|i: int| 0 <= i < es.len() ==> readable_entry(#[trigger] es[i]),
    ensures
        newline_pieces(manifest_text(es)) == Seq::new(es.len(), |i: int| manifest_line(es[i])).push(Seq::<char>::empty()),
    decreases es.len(),
{
    if es.len() == 0 {
        lemma_first_index(Seq::<char>::empty(), '\n');
        assert(newline_pieces(Seq::<char>::empty()) =~= seq![Seq::<char>::empty()]);
        assert(Seq::new(0, |i: int| manifest_line(es[i])).push(Seq::<char>::empty()) =~= seq![Seq::<char>::empty()]);
    } else {
        let l = manifest_line(es[0]);
        let rest = manifest_text(es.drop_first());
        let s = manifest_text(es);
        assert(s == l + seq!['\n'] + rest);
        assert(readable_entry(es[0]));
        assert forall|j: int| 0 <= j < l.len() implies s[j] != '\n' by {
            assert(s[j] == l[j]);
            if j < es[0].0.len() {
                assert(!is_ws(es[0].0[j]));
            } else if j > es[0].0.len() {
                assert(l[j] == es[0].1[j - es[0].0.len() - 1]);
            }
        }
        assert(s[l.len() as int] == '\n');
        lemma_first_index_at(s, '\n', l.len() as int);
        assert(s.take(l.len() as int) =~= l);
        assert(s.skip(l.len() as int + 1) =~= rest);
        assert forall|i: int| 0 <= i < es.drop_first().len() implies readable_entry(#[trigger] es.drop_first()[i]) by {
            assert(es.drop_first()[i] == es[i + 1]);
        }
        lemma_pieces(es.drop_first());
        assert(newline_pieces(s) == seq![l] + newline_pieces(rest));
        assert(seq![l] + Seq::new(es.drop_first().len(), |i: int| manifest_line(es.drop_first()[i])).push(
            Seq::<char>::empty(),
        ) =~= Seq::new(es.len(), |i: int| manifest_line(es[i])).push(Seq::<char>::empty()));
    }
}

proof fn lemma_parse_line(e: (Seq<char>, Seq<char>))
    requires
        readable_entry(e),
    ensures
        parse_line(manifest_line(e)) == Some(e),
        strip_cr(manifest_line(e)) == manifest_line(e),
{
    let l = manifest_line(e);
    assert(l[0] == e.0[0]);
    assert(!is_ws(l[0]));
    lemma_trim_keeps_first(l);
    assert forall|j: int| 0 <= j < e.0.len() implies l[j] != ' ' by {
        assert(l[j] == e.0[j]);
        assert(!is_ws(e.0[j]));
    }
    assert(l[e.0.len() as int] == ' ');
    lemma_first_index_at(l, ' ', e.0.len() as int);
    assert(l.take(e.0.len() as int) =~= e.0);
    assert(l.skip(e.0.len() as int + 1) =~= e.1);
    if e.1.len() > 0 {
        assert(l.last() == e.1.last());
    } else {
        assert(l.last() == ' ');
    }
}

proof fn lemma_trim_keeps_first(l: Seq<char>)
    requires
        l.len() > 0,
        !is_ws(l[0]),
    ensures
        trim_ws(l).len() > 0,
    decreases l.len(),
{
    lemma_trim_end_keeps_first(l);
    let t = crate::text::trim_end_ws(l);
    assert(trim_start_ws(t) == t);
}

proof fn lemma_trim_end_keeps_first(l: Seq<char>)
    requires
        l.len() > 0,
        !is_ws(l[0]),
    ensures
        trim_end_ws(l).len() > 0,
        trim_end_ws(l)[0] == l[0],
    decreases l.len(),
{
    if is_ws(l.last()) {
        assert(l.len() > 1);
        assert(l.drop_last()[0] == l[0]);
        lemma_trim_end_keeps_first(l.drop_last());
    }
}

proof fn lemma_parsed_entries(es: Seq<(Seq<char>, Seq<char>)>)
    requires
        forall|i: int| 0 <= i < es.len() ==> readable_entry(#[trigger] es[i]),
    ensures
        parsed_entries(Seq::new(es.len(), |i: int| manifest_line(es[i]))) == es,
    decreases es.len(),
{
    if es.len() > 0 {
        let ls = Seq::new(es.len(), |i: int| manifest_line(es[i]));
        assert(ls.drop_last() =~= Seq::new(es.drop_last().len(), |i: int| manifest_line(es.drop_last()[i])));
        assert forall|i: int| 0 <= i < es.drop_last().len() implies readable_entry(#[trigger] es.drop_last()[i]) by {
            assert(es.drop_last()[i] == es[i]);
        }
        lemma_parsed_entries(es.drop_last());
        lemma_parse_line(es.last());
        assert(ls.last() == manifest_line(es.last()));
        assert(es.drop_last().push(es.last()) =~= es);
    }
}

/// Reading a written manifest gives back its entries, for entries whose
/// digests are non-empty and free of whitespace and whose paths hold no line
/// feed and do not end with a carriage return.
pub proof fn lemma_manifest_roundtrip(es: Seq<(Seq<char>, Seq<char>)>)
    requires
        forall|i: int| 0 <= i < es.len() ==> readable_entry(#[trigger] es[i]),
    ensures
        manifest_entries(manifest_text(es)) == es,
{
    let s = manifest_text(es);
    let ls = Seq::new(es.len(), |i: int| manifest_line(es[i]));
    lemma_pieces(es);
    if es.len() > 0 {
        lemma_manifest_text_last(es);
    }
    let kept = newline_pieces(s).drop_last();
    assert(kept =~= ls);
    assert forall|i: int| 0 <= i < ls.len() implies #[trigger] strip_cr(ls[i]) == ls[i] by {
        lemma_parse_line(es[i]);
    }
    assert(kept.map_values(|l: Seq<char>| strip_cr(l)) =~= ls);
    assert(lines_of(s) == ls);
    lemma_parsed_entries(es);
}

proof fn lemma_manifest_text_last(es: Seq<(Seq<char>, Seq<char>)>)
    requires
        es.len() > 0,
    ensures
        manifest_text(es).len() > 0,
        manifest_text(es).last() == '\n',
    decreases es.len(),
{
    let head = manifest_line(es[0]) + seq!['\n'];
    let rest = manifest_text(es.drop_first());
    assert(manifest_text(es) == head + rest);
    if es.len() == 1 {
        assert(es.drop_first().len() == 0);
        assert(rest == Seq::<char>::empty());
        assert(head + rest =~= head);
    } else {
        lemma_manifest_text_last(es.drop_first());
        assert((head + rest).last() == rest.last());
    }
}

} // verus!
