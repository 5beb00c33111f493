//! Character-sequence helpers shared by the conversion and routing code.

use vstd::prelude::*;

verus! {

/// `s` begins with `p`.
pub open spec fn has_prefix(s: Seq<char>, p: Seq<char>) -> bool {
    p.len() <= s.len() && s.subrange(0, p.len() as int) == p
}

/// `n` copies of `s`, one after another.
pub open spec fn repeat(s: Seq<char>, n: nat) -> Seq<char>
    decreases n,
{
    if n == 0 {
        Seq::empty()
    } else {
        repeat(s, (n - 1) as nat) + s
    }
}

/// Index of the first occurrence of `c` in `s`.
pub open spec fn first_index(s: Seq<char>, c: char) -> Option<int>
    decreases s.len(),
{
    if s.len() == 0 {
        None
    } else if s[0] == c {
        Some(0)
    } else {
        match first_index(s.drop_first(), c) {
            Some(i) => Some(i + 1),
            None => None,
        }
    }
}

pub proof fn lemma_first_index(s: Seq<char>, c: char)
    ensures
        match first_index(s, c) {
            Some(i) => 0 <= i < s.len() && s[i] == c && forall|j: int| 0 <= j < i ==> s[j] != c,
            None => forall|j: int| 0 <= j < s.len() ==> s[j] != c,
        },
    decreases s.len(),
{
    if s.len() > 0 && s[0] != c {
        lemma_first_index(s.drop_first(), c);
        assert forall|j: int| 1 <= j < s.len() implies s[j] == s.drop_first()[j - 1] by {}
    }
}

/// `s` with every trailing `c` removed.
pub open spec fn trim_end_char(s: Seq<char>, c: char) -> Seq<char>
    decreases s.len(),
{
    if s.len() > 0 && s.last() == c {
        trim_end_char(s.drop_last(), c)
    } else {
        s
    }
}

/// Appends a character (std `String::push`).
#[verifier::external_body]
pub(crate) fn push_char(s: &mut String, c: char)
    ensures
        final(s)@ == old(s)@.push(c),
{
    s.push(c)
}

/// The characters of `s`, in order.
pub fn chars_of(s: &str) -> (v: Vec<char>)
    ensures
        v@ == s@,
{
    broadcast use vstd::string::group_string_axioms;
    let mut v: Vec<char> = Vec::new();
    for c in it: s.chars()
        invariant
            v@ == it.seq().take(it.index() as int),
    {
        v.push(c);
    }
    assert(v@ =~= s@);
    v
}

/// A string holding the characters `cs[from..to]`.
pub fn string_from_range(cs: &Vec<char>, from: usize, to: usize) -> (r: String)
    requires
        from <= to <= cs@.len(),
    ensures
        r@ == cs@.subrange(from as int, to as int),
{
    let mut r = String::new();
    let mut i = from;
    while i < to
        invariant
            from <= i <= to <= cs@.len(),
            r@ == cs@.subrange(from as int, i as int),
        decreases to - i,
    {
        push_char(&mut r, cs[i]);
        i = i + 1;
        assert(r@ =~= cs@.subrange(from as int, i as int));
    }
    r
}

/// First index of `c` in `cs[from..]`, as an index into `cs`.
pub fn find_char_from(cs: &Vec<char>, c: char, from: usize) -> (r: Option<usize>)
    requires
        from <= cs@.len(),
    ensures
        match first_index(cs@.skip(from as int), c) {
            Some(i) => r == Some((i + from) as usize),
            None => r is None,
        },
{
    let ghost tail = cs@.skip(from as int);
    proof { lemma_first_index(tail, c); }
    let mut i = from;
    while i < cs.len()
        invariant
            from <= i <= cs@.len(),
            tail == cs@.skip(from as int),
            forall|j: int| from <= j < i ==> cs@[j] != c,
        decreases cs.len() - i,
    {
        if cs[i] == c {
            proof {
                lemma_first_index(tail, c);
                assert(tail[i - from] == c);
                match first_index(tail, c) {
                    Some(k) => {
                        assert(tail[k] == c);
                        if k < i - from {
                            assert(cs@[k + from] == c);
                        }
                        if k > i - from {
                            assert(tail[i - from] != c);
                        }
                    }
                    None => {}
                }
            }
            return Some(i);
        }
        i = i + 1;
    }
    proof {
        lemma_first_index(tail, c);
        match first_index(tail, c) {
            Some(k) => {
                assert(tail[k] == c);
                assert(cs@[k + from] == c);
            }
            None => {}
        }
    }
    None
}


/// Whether `cs` begins with the characters of `p`.
pub fn starts_with_str(cs: &Vec<char>, p: &str) -> (r: bool)
    ensures
        r == has_prefix(cs@, p@),
{
    let pc = chars_of(p);
    if pc.len() > cs.len() {
        return false;
    }
    let mut i: usize = 0;
    while i < pc.len()
        invariant
            pc@ == p@,
            pc@.len() <= cs@.len(),
            i <= pc@.len(),
            forall|j: int| 0 <= j < i ==> cs@[j] == pc@[j],
        decreases pc.len() - i,
    {
        if cs[i] != pc[i] {
            assert(cs@.subrange(0, pc@.len() as int)[i as int] != pc@[i as int]);
            return false;
        }
        i = i + 1;
    }
    assert(cs@.subrange(0, pc@.len() as int) =~= pc@);
    true
}

/// Appends the characters `cs[from..to]` to `out`.
pub fn push_range(out: &mut String, cs: &Vec<char>, from: usize, to: usize)
    requires
        from <= to <= cs@.len(),
    ensures
        final(out)@ == old(out)@ + cs@.subrange(from as int, to as int),
{
    let ghost start = out@;
    let mut i = from;
    while i < to
        invariant
            from <= i <= to <= cs@.len(),
            out@ == start + cs@.subrange(from as int, i as int),
        decreases to - i,
    {
        push_char(out, cs[i]);
        i = i + 1;
        assert(out@ =~= start + cs@.subrange(from as int, i as int));
    }
}

/// Appends `n` copies of `s` to `out`.
pub fn push_repeat(out: &mut String, s: &str, n: usize)
    ensures
        final(out)@ == old(out)@ + repeat(s@, n as nat),
{
    let ghost start = out@;
    let mut i: usize = 0;
    while i < n
        invariant
            i <= n,
            out@ == start + repeat(s@, i as nat),
        decreases n - i,
    {
        out.append(s);
        i = i + 1;
        assert(out@ =~= start + repeat(s@, i as nat));
    }
}


/// Unicode `White_Space` characters (what `char::is_whitespace` accepts).
pub open spec fn is_ws(c: char) -> bool {
    ||| ('\u{9}' <= c && c <= '\u{d}')
    ||| c == ' '
    ||| c == '\u{85}'
    ||| c == '\u{a0}'
    ||| c == '\u{1680}'
    ||| ('\u{2000}' <= c && c <= '\u{200a}')
    ||| c == '\u{2028}'
    ||| c == '\u{2029}'
    ||| c == '\u{202f}'
    ||| c == '\u{205f}'
    ||| c == '\u{3000}'
}

pub fn is_whitespace_char(c: char) -> (r: bool)
    ensures
        r == is_ws(c),
{
    ('\u{9}' <= c && c <= '\u{d}') || c == ' ' || c == '\u{85}' || c == '\u{a0}' || c == '\u{1680}'
        || ('\u{2000}' <= c && c <= '\u{200a}') || c == '\u{2028}' || c == '\u{2029}' || c == '\u{202f}'
        || c == '\u{205f}' || c == '\u{3000}'
}

/// `s` without leading whitespace.
pub open spec fn trim_start_ws(s: Seq<char>) -> Seq<char>
    decreases s.len(),
{
    if s.len() > 0 && is_ws(s[0]) {
        trim_start_ws(s.drop_first())
    } else {
        s
    }
}

/// `s` without trailing whitespace.
pub open spec fn trim_end_ws(s: Seq<char>) -> Seq<char>
    decreases s.len(),
{
    if s.len() > 0 && is_ws(s.last()) {
        trim_end_ws(s.drop_last())
    } else {
        s
    }
}

/// `s` without leading and trailing whitespace (`str::trim`).
pub open spec fn trim_ws(s: Seq<char>) -> Seq<char> {
    trim_start_ws(trim_end_ws(s))
}

/// Bounds `(start, end)` such that `cs[start..end]` is `trim_ws(cs[from..to])`.
pub fn trim_bounds(cs: &Vec<char>, from: usize, to: usize) -> (r: (usize, usize))
    requires
        from <= to <= cs@.len(),
    ensures
        from <= r.0 <= r.1 <= to,
        cs@.subrange(r.0 as int, r.1 as int) == trim_ws(cs@.subrange(from as int, to as int)),
        cs@.subrange(r.0 as int, r.1 as int) == trim_start_ws(cs@.subrange(from as int, r.1 as int)),
        cs@.subrange(from as int, r.1 as int) == trim_end_ws(cs@.subrange(from as int, to as int)),
{
    let mut end = to;
    while end > from && is_whitespace_char(cs[end - 1])
        invariant
            from <= end <= to <= cs@.len(),
            trim_end_ws(cs@.subrange(from as int, to as int)) == trim_end_ws(
                cs@.subrange(from as int, end as int),
            ),
        decreases end,
    {
        assert(cs@.subrange(from as int, end as int).drop_last() =~= cs@.subrange(
            from as int,
            end - 1,
        ));
        end = end - 1;
    }
    let mut start = from;
    while start < end && is_whitespace_char(cs[start])
        invariant
            from <= start <= end <= to <= cs@.len(),
            trim_start_ws(cs@.subrange(from as int, end as int)) == trim_start_ws(
                cs@.subrange(start as int, end as int),
            ),
        decreases end - start,
    {
        assert(cs@.subrange(start as int, end as int).drop_first() =~= cs@.subrange(
            start + 1,
            end as int,
        ));
        start = start + 1;
    }
    (start, end)
}

/// The pieces of `s` between newline characters.
pub open spec fn newline_pieces(s: Seq<char>) -> Seq<Seq<char>>
    decreases s.len(),
{
    match first_index(s, '\n') {
        Some(i) => {
            if 0 <= i < s.len() {
                seq![s.take(i)] + newline_pieces(s.skip(i + 1))
            } else {
                seq![s]
            }
        }
        None => seq![s],
    }
}

/// `line` without a final carriage return.
pub open spec fn strip_cr(line: Seq<char>) -> Seq<char> {
    if line.len() > 0 && line.last() == '\r' {
        line.drop_last()
    } else {
        line
    }
}

/// The lines of `s` as `str::lines` gives them: split at `\n`, a final `\r` removed
/// from each line, and no empty line after a final line ending.
pub open spec fn lines_of(s: Seq<char>) -> Seq<Seq<char>> {
    let pieces = newline_pieces(s);
    let kept = if s.len() == 0 || s.last() == '\n' {
        pieces.drop_last()
    } else {
        pieces
    };
    kept.map_values(|l: Seq<char>| strip_cr(l))
}

/// A leading line feed adds one empty line in front of the lines.
pub proof fn lemma_lines_of_leading_newline(c: Seq<char>)
    ensures
        lines_of(seq!['\n'] + c) == seq![Seq::<char>::empty()] + lines_of(c),
{
    let s = seq!['\n'] + c;
    assert(s.take(0) =~= Seq::<char>::empty());
    assert(s.skip(1) =~= c);
    let p = newline_pieces(c);
    assert(newline_pieces(s) == seq![Seq::<char>::empty()] + p);
    lemma_newline_pieces_nonempty(c);
    assert(strip_cr(Seq::<char>::empty()) == Seq::<char>::empty());
    if c.len() == 0 {
        assert(p == seq![c]) by {
            assert(first_index(c, '\n') is None);
        }
        assert(newline_pieces(s).drop_last() =~= seq![Seq::<char>::empty()]);
        assert(p.drop_last() =~= Seq::<Seq<char>>::empty());
        assert(lines_of(s) =~= seq![Seq::<char>::empty()] + lines_of(c));
    } else {
        assert(s.last() == c.last());
        if c.last() == '\n' {
            assert(newline_pieces(s).drop_last() =~= seq![Seq::<char>::empty()] + p.drop_last());
        }
        assert(lines_of(s) =~= seq![Seq::<char>::empty()] + lines_of(c));
    }
}

/// The elements of `parts` with `sep` between consecutive ones.
pub open spec fn join(parts: Seq<Seq<char>>, sep: Seq<char>) -> Seq<char>
    decreases parts.len(),
{
    if parts.len() == 0 {
        Seq::empty()
    } else if parts.len() == 1 {
        parts[0]
    } else {
        join(parts.drop_last(), sep) + sep + parts.last()
    }
}

/// `part` occurs in `s` at some offset.
pub open spec fn occurs_in(s: Seq<char>, part: Seq<char>) -> bool {
    exists|k: int| 0 <= k && k + part.len() <= s.len() && #[trigger] s.subrange(k, k + part.len()) == part
}

/// Each part occurs in the joined text: `join(parts, sep)` holds `parts[i]`
/// at the returned offset.
pub proof fn lemma_join_part_at(parts: Seq<Seq<char>>, sep: Seq<char>, i: int) -> (k: int)
    requires
        0 <= i < parts.len(),
    ensures
        0 <= k,
        k + parts[i].len() <= join(parts, sep).len(),
        join(parts, sep).subrange(k, k + parts[i].len()) == parts[i],
    decreases parts.len(),
{
    if parts.len() == 1 {
        assert(join(parts, sep).subrange(0, parts[i].len() as int) =~= parts[i]);
        0
    } else if i == parts.len() - 1 {
        let pre = join(parts.drop_last(), sep) + sep;
        assert(join(parts, sep).subrange(pre.len() as int, (pre.len() + parts[i].len()) as int) =~= parts[i]);
        pre.len() as int
    } else {
        let k = lemma_join_part_at(parts.drop_last(), sep, i);
        let whole = join(parts, sep);
        let head = join(parts.drop_last(), sep);
        assert(whole.subrange(k, k + parts[i].len()) =~= head.subrange(k, k + parts[i].len()));
        k
    }
}

/// A join of at least one part begins with the first part.
pub proof fn lemma_join_first(parts: Seq<Seq<char>>, sep: Seq<char>)
    requires
        parts.len() >= 1,
    ensures
        join(parts, sep).subrange(0, parts[0].len() as int) == parts[0],
        parts[0].len() <= join(parts, sep).len(),
    decreases parts.len(),
{
    if parts.len() > 1 {
        lemma_join_first(parts.drop_last(), sep);
        let head = join(parts.drop_last(), sep);
        assert(join(parts, sep).subrange(0, parts[0].len() as int) =~= head.subrange(0, parts[0].len() as int));
    } else {
        assert(join(parts, sep).subrange(0, parts[0].len() as int) =~= parts[0]);
    }
}

proof fn lemma_newline_pieces_nonempty(s: Seq<char>)
    ensures
        newline_pieces(s).len() >= 1,
    decreases s.len(),
{
    lemma_first_index(s, '\n');
    match first_index(s, '\n') {
        Some(i) => {
            lemma_newline_pieces_nonempty(s.skip(i + 1));
        }
        None => {}
    }
}

/// The raw newline-separated pieces of `cs`, one vector each.
fn split_newlines(cs: &Vec<char>) -> (r: Vec<Vec<char>>)
    ensures
        r@.len() == newline_pieces(cs@).len(),
        forall|k: int| 0 <= k < r@.len() ==> #[trigger] r@[k]@ == newline_pieces(cs@)[k],
{
    let mut out: Vec<Vec<char>> = Vec::new();
    let mut cur: Vec<char> = Vec::new();
    let mut start: usize = 0;
    let mut i: usize = 0;
    let ghost mut done: Seq<Seq<char>> = Seq::empty();
    assert(cs@.skip(0) =~= cs@);
    assert(newline_pieces(cs@) =~= done + newline_pieces(cs@.skip(0)));
    while i < cs.len()
        invariant
            start <= i <= cs@.len(),
            out@.len() == done.len(),
            forall|k: int| 0 <= k < out@.len() ==> #[trigger] out@[k]@ == done[k],
            cur@ == cs@.subrange(start as int, i as int),
            forall|j: int| start <= j < i ==> cs@[j] != '\n',
            newline_pieces(cs@) == done + newline_pieces(cs@.skip(start as int)),
        decreases cs.len() - i,
    {
        if cs[i] == '\n' {
            let ghost tail = cs@.skip(start as int);
            proof {
                lemma_first_index(tail, '\n');
                assert(tail[i - start] == '\n');
                match first_index(tail, '\n') {
                    Some(k) => {
                        if k < i - start {
                            assert(tail[k] == cs@[start + k]);
                        }
                        if k > i - start {
                            assert(tail[i - start] != '\n');
                        }
                    }
                    None => {}
                }
                assert(tail.take(i - start) =~= cur@);
                assert(tail.skip(i - start + 1) =~= cs@.skip(i + 1));
                assert(newline_pieces(tail) == seq![cur@] + newline_pieces(cs@.skip(i + 1)));
            }
            out.push(cur);
            proof {
                done = done.push(cur@);
                assert(newline_pieces(cs@) =~= done + newline_pieces(cs@.skip(i + 1)));
            }
            cur = Vec::new();
            start = i + 1;
            assert(cur@ =~= cs@.subrange(start as int, start as int));
        } else {
            cur.push(cs[i]);
            assert(cur@ =~= cs@.subrange(start as int, i + 1));
        }
        i = i + 1;
    }
    proof {
        let tail = cs@.skip(start as int);
        lemma_first_index(tail, '\n');
        match first_index(tail, '\n') {
            Some(k) => {
                assert(tail[k] == cs@[start + k]);
            }
            None => {}
        }
        assert(tail =~= cur@);
    }
    out.push(cur);
    proof {
        done = done.push(cur@);
        assert(newline_pieces(cs@) =~= done);
    }
    out
}

/// The lines of `s` (see [`lines_of`]).
pub fn lines(s: &str) -> (r: Vec<Vec<char>>)
    ensures
        r@.len() == lines_of(s@).len(),
        forall|k: int| 0 <= k < r@.len() ==> #[trigger] r@[k]@ == lines_of(s@)[k],
{
    let cs = chars_of(s);
    let pieces = split_newlines(&cs);
    proof { lemma_newline_pieces_nonempty(cs@); }
    let keep = if cs.len() == 0 || cs[cs.len() - 1] == '\n' {
        pieces.len() - 1
    } else {
        pieces.len()
    };
    let ghost kept = if cs@.len() == 0 || cs@.last() == '\n' {
        newline_pieces(cs@).drop_last()
    } else {
        newline_pieces(cs@)
    };
    let mut out: Vec<Vec<char>> = Vec::new();
    let mut i: usize = 0;
    while i < keep
        invariant
            keep <= pieces@.len(),
            keep == kept.len(),
            pieces@.len() == newline_pieces(cs@).len(),
            forall|k: int| 0 <= k < pieces@.len() ==> #[trigger] pieces@[k]@ == newline_pieces(cs@)[k],
            forall|k: int| 0 <= k < kept.len() ==> #[trigger] kept[k] == newline_pieces(cs@)[k],
            i <= keep,
            out@.len() == i,
            forall|k: int| 0 <= k < i ==> #[trigger] out@[k]@ == strip_cr(kept[k]),
        decreases keep - i,
    {
        let piece = &pieces[i];
        let mut line = piece.clone();
        if line.len() > 0 && line[line.len() - 1] == '\r' {
            line.pop();
            assert(line@ =~= piece@.drop_last());
        }
        assert(line@ == strip_cr(kept[i as int]));
        out.push(line);
        i = i + 1;
    }
    out
}

/// Concatenation of `parts` with `sep` between consecutive elements.
pub fn join_lines(parts: &Vec<Vec<char>>, from: usize, sep: &str) -> (r: String)
    requires
        from <= parts@.len(),
    ensures
        r@ == join(parts@.skip(from as int).map_values(|v: Vec<char>| v@), sep@),
{
    let mut r = String::new();
    let mut i = from;
    let ghost all = parts@.skip(from as int).map_values(|v: Vec<char>| v@);
    while i < parts.len()
        invariant
            from <= i <= parts@.len(),
            all == parts@.skip(from as int).map_values(|v: Vec<char>| v@),
            r@ == join(all.take(i - from), sep@),
        decreases parts.len() - i,
    {
        let ghost before = r@;
        if i > from {
            r.append(sep);
        }
        push_range(&mut r, &parts[i], 0, parts[i].len());
        assert(parts@[i as int]@.subrange(0, parts@[i as int]@.len() as int) =~= parts@[i as int]@);
        i = i + 1;
        proof {
            let t = all.take(i - from);
            assert(t.drop_last() =~= all.take(i - 1 - from));
            assert(t.last() == parts@[i - 1]@);
            if t.len() == 1 {
                assert(r@ =~= t[0]);
            } else {
                assert(r@ =~= join(t.drop_last(), sep@) + sep@ + t.last());
            }
        }
    }
    assert(all.take(parts@.len() - from) =~= all);
    r
}

/// Lower-case mapping of a string, as `str::to_lowercase` computes it (Unicode
/// `Lowercase_Mapping`, with the final-sigma rule).
pub uninterp spec fn lowercase(s: Seq<char>) -> Seq<char>;

/// std `str::to_lowercase`: the result is the named lower-case mapping of the argument.
#[verifier::external_body]
pub(crate) fn to_lowercase(s: &str) -> (r: String)
    ensures
        r@ == lowercase(s@),
{
    s.to_lowercase()
}


/// The decimal digit character for `d < 10`.
pub open spec fn digit_char(d: nat) -> char {
    if d == 0 { '0' } else if d == 1 { '1' } else if d == 2 { '2' } else if d == 3 { '3' }
    else if d == 4 { '4' } else if d == 5 { '5' } else if d == 6 { '6' } else if d == 7 { '7' }
    else if d == 8 { '8' } else { '9' }
}

/// Decimal notation of `n`, without leading zeros.
pub open spec fn decimal(n: nat) -> Seq<char>
    decreases n,
{
    if n < 10 {
        seq![digit_char(n)]
    } else {
        decimal(n / 10).push(digit_char(n % 10))
    }
}

/// Appends the decimal notation of `n`.
pub fn push_decimal(out: &mut String, n: u128)
    ensures
        final(out)@ == old(out)@ + decimal(n as nat),
    decreases n,
{
    let ghost start = out@;
    if n >= 10 {
        push_decimal(out, n / 10);
    }
    let d = n % 10;
    let c = if d == 0 { '0' } else if d == 1 { '1' } else if d == 2 { '2' } else if d == 3 { '3' }
        else if d == 4 { '4' } else if d == 5 { '5' } else if d == 6 { '6' } else if d == 7 { '7' }
        else if d == 8 { '8' } else { '9' };
    push_char(out, c);
    assert(out@ =~= start + decimal(n as nat));
}

} // verus!

verus! {

/// Whether two strings hold the same characters.
pub fn text_eq(a: &str, b: &str) -> (r: bool)
    ensures
        r == (a@ == b@),
{
    let ac = chars_of(a);
    let bc = chars_of(b);
    if ac.len() != bc.len() {
        return false;
    }
    let mut i: usize = 0;
    while i < ac.len()
        invariant
            ac@ == a@,
            bc@ == b@,
            ac@.len() == bc@.len(),
            i <= ac@.len(),
            forall|j: int| 0 <= j < i ==> ac@[j] == bc@[j],
        decreases ac.len() - i,
    {
        if ac[i] != bc[i] {
            return false;
        }
        i = i + 1;
    }
    assert(ac@ =~= bc@);
    true
}

} // verus!
