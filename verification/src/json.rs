//! JSON values as they appear in docs.json, and their compact JSON text.

use vstd::prelude::*;
use crate::render::{lemma_strs_push, strs};
use crate::text::{join, push_char};
use crate::compositor::join_strings;

verus! {

/// A JSON value. Numbers are kept as their JSON text.
#[derive(Debug)]
pub enum JsonValue {
    Null,
    Bool(bool),
    Number(String),
    Str(String),
    Array(Vec<JsonValue>),
    /// Members in order; keys are distinct.
    Object(Vec<(String, JsonValue)>),
}

/// The mathematical form of a [`JsonValue`].
pub enum JsonTree {
    Null,
    Bool(bool),
    Number(Seq<char>),
    Str(Seq<char>),
    Array(Seq<JsonTree>),
    Object(Seq<(Seq<char>, JsonTree)>),
}

/// The views of a sequence of values.
pub open spec fn json_views(s: Seq<JsonValue>) -> Seq<JsonTree>
    decreases s,
{
    if s.len() == 0 {
        Seq::empty()
    } else {
        json_views(s.drop_last()).push(json_view(s.last()))
    }
}

/// The views of object members.
pub open spec fn member_views(s: Seq<(String, JsonValue)>) -> Seq<(Seq<char>, JsonTree)>
    decreases s,
{
    if s.len() == 0 {
        Seq::empty()
    } else {
        member_views(s.drop_last()).push((s.last().0@, json_view(s.last().1)))
    }
}

/// The view of a value.
pub open spec fn json_view(v: JsonValue) -> JsonTree
    decreases v,
{
    match v {
        JsonValue::Null => JsonTree::Null,
        JsonValue::Bool(b) => JsonTree::Bool(b),
        JsonValue::Number(t) => JsonTree::Number(t@),
        JsonValue::Str(s) => JsonTree::Str(s@),
        JsonValue::Array(items) => JsonTree::Array(json_views(items@)),
        JsonValue::Object(members) => JsonTree::Object(member_views(members@)),
    }
}

impl View for JsonValue {
    type V = JsonTree;

    open spec fn view(&self) -> JsonTree {
        json_view(*self)
    }
}

pub proof fn lemma_json_views(s: Seq<JsonValue>)
    ensures
        json_views(s).len() == s.len(),
        forall|i: int| 0 <= i < s.len() ==> #[trigger] json_views(s)[i] == json_view(s[i]),
    decreases s.len(),
{
    if s.len() > 0 {
        lemma_json_views(s.drop_last());
    }
}

pub proof fn lemma_member_views(s: Seq<(String, JsonValue)>)
    ensures
        member_views(s).len() == s.len(),
        forall|i: int|
            0 <= i < s.len() ==> #[trigger] member_views(s)[i] == (s[i].0@, json_view(s[i].1)),
    decreases s.len(),
{
    if s.len() > 0 {
        lemma_member_views(s.drop_last());
    }
}

/// The lowercase hexadecimal digit of `d` (below 16).
pub open spec fn hex_digit(d: u32) -> char {
    seq!['0', '1', '2', '3', '4', '5', '6', '7', '8', '9', 'a', 'b', 'c', 'd', 'e', 'f'][d as int]
}

/// A character inside a JSON string literal, escaped as `serde_json` escapes it.
pub open spec fn escaped_char(c: char) -> Seq<char> {
    if c == '"' {
        seq!['\\', '"']
    } else if c == '\\' {
        seq!['\\', '\\']
    } else if c == '\u{8}' {
        seq!['\\', 'b']
    } else if c == '\u{c}' {
        seq!['\\', 'f']
    } else if c == '\n' {
        seq!['\\', 'n']
    } else if c == '\r' {
        seq!['\\', 'r']
    } else if c == '\t' {
        seq!['\\', 't']
    } else if (c as u32) < 0x20 {
        seq!['\\', 'u', '0', '0', hex_digit((c as u32) / 16), hex_digit((c as u32) % 16)]
    } else {
        seq![c]
    }
}

/// The escaped characters of `s`.
pub open spec fn escaped(s: Seq<char>) -> Seq<char>
    decreases s.len(),
{
    if s.len() == 0 {
        Seq::empty()
    } else {
        escaped(s.drop_last()) + escaped_char(s.last())
    }
}

/// A JSON string literal.
pub open spec fn quoted_json(s: Seq<char>) -> Seq<char> {
    seq!['"'] + escaped(s) + seq!['"']
}

/// The JSON texts of values.
pub open spec fn json_texts(s: Seq<JsonTree>) -> Seq<Seq<char>>
    decreases s,
{
    if s.len() == 0 {
        Seq::empty()
    } else {
        json_texts(s.drop_last()).push(json_text(s.last()))
    }
}

/// The JSON texts of object members: `"key":value`.
pub open spec fn member_texts(s: Seq<(Seq<char>, JsonTree)>) -> Seq<Seq<char>>
    decreases s,
{
    if s.len() == 0 {
        Seq::empty()
    } else {
        member_texts(s.drop_last()).push(quoted_json(s.last().0) + seq![':'] + json_text(s.last().1))
    }
}

/// The compact JSON text of a value, as `serde_json::to_string` writes it.
pub open spec fn json_text(v: JsonTree) -> Seq<char>
    decreases v,
{
    match v {
        JsonTree::Null => "null"@,
        JsonTree::Bool(b) => if b {
            "true"@
        } else {
            "false"@
        },
        JsonTree::Number(t) => t,
        JsonTree::Str(s) => quoted_json(s),
        JsonTree::Array(items) => seq!['['] + join(json_texts(items), ","@) + seq![']'],
        JsonTree::Object(members) => seq!['{'] + join(member_texts(members), ","@) + seq!['}'],
    }
}

/// The lowercase hexadecimal digit of `d`.
fn hex_char(d: u32) -> (c: char)
    requires
        d < 16,
    ensures
        c == hex_digit(d),
{
    match d {
        0 => '0',
        1 => '1',
        2 => '2',
        3 => '3',
        4 => '4',
        5 => '5',
        6 => '6',
        7 => '7',
        8 => '8',
        9 => '9',
        10 => 'a',
        11 => 'b',
        12 => 'c',
        13 => 'd',
        14 => 'e',
        _ => 'f',
    }
}

/// Appends a JSON string literal.
fn push_quoted(out: &mut String, s: &str)
    ensures
        final(out)@ == old(out)@ + quoted_json(s@),
{
    let cs = crate::text::chars_of(s);
    let ghost start = out@;
    push_char(out, '"');
    let mut i: usize = 0;
    while i < cs.len()
        invariant
            cs@ == s@,
            i <= cs@.len(),
            out@ == start + seq!['"'] + escaped(cs@.take(i as int)),
        decreases cs.len() - i,
    {
        let c = cs[i];
        let ghost before = out@;
        assert(cs@.take(i + 1).drop_last() =~= cs@.take(i as int));
        let code = c as u32;
        if c == '"' {
            push_char(out, '\\');
            push_char(out, '"');
        } else if c == '\\' {
            push_char(out, '\\');
            push_char(out, '\\');
        } else if c == '\u{8}' {
            push_char(out, '\\');
            push_char(out, 'b');
        } else if c == '\u{c}' {
            push_char(out, '\\');
            push_char(out, 'f');
        } else if c == '\n' {
            push_char(out, '\\');
            push_char(out, 'n');
        } else if c == '\r' {
            push_char(out, '\\');
            push_char(out, 'r');
        } else if c == '\t' {
            push_char(out, '\\');
            push_char(out, 't');
        } else if code < 32 {
            assert(c != '\u{8}' && c != '\u{c}');
            push_char(out, '\\');
            push_char(out, 'u');
            push_char(out, '0');
            push_char(out, '0');
            push_char(out, hex_char(code / 16));
            push_char(out, hex_char(code % 16));
            assert(out@ =~= before + seq!['\\', 'u', '0', '0', hex_digit(code / 16), hex_digit(code % 16)]);
        } else {
            assert(c != '\u{8}' && c != '\u{c}');
            push_char(out, c);
        }
        assert(out@ =~= before + escaped_char(c));
        i = i + 1;
    }
    assert(cs@.take(cs@.len() as int) =~= cs@);
    push_char(out, '"');
    assert(out@ =~= start + quoted_json(s@));
}

/// The JSON texts of values.
fn texts_of(items: &Vec<JsonValue>) -> (r: Vec<String>)
    ensures
        strs(r@) == json_texts(json_views(items@)),
    decreases items,
{
    let mut r: Vec<String> = Vec::new();
    let mut i: usize = 0;
    while i < items.len()
        invariant
            i <= items@.len(),
            strs(r@) == json_texts(json_views(items@.take(i as int))),
        decreases items.len() - i,
    {
        assert(items@.take(i + 1).drop_last() =~= items@.take(i as int));
        assert(json_views(items@.take(i + 1)).drop_last() =~= json_views(items@.take(i as int)));
        let t = to_json_string(&items[i]);
        let ghost before = r@;
        r.push(t);
        proof { lemma_strs_push(before, t); }
        i = i + 1;
    }
    assert(items@.take(items@.len() as int) =~= items@);
    r
}

/// The JSON texts of object members.
fn member_texts_of(members: &Vec<(String, JsonValue)>) -> (r: Vec<String>)
    ensures
        strs(r@) == member_texts(member_views(members@)),
    decreases members,
{
    let mut r: Vec<String> = Vec::new();
    let mut i: usize = 0;
    while i < members.len()
        invariant
            i <= members@.len(),
            strs(r@) == member_texts(member_views(members@.take(i as int))),
        decreases members.len() - i,
    {
        assert(members@.take(i + 1).drop_last() =~= members@.take(i as int));
        assert(member_views(members@.take(i + 1)).drop_last() =~= member_views(members@.take(i as int)));
        let mut t = String::new();
        push_quoted(&mut t, members[i].0.as_str());
        push_char(&mut t, ':');
        let v = to_json_string(&members[i].1);
        t.append(v.as_str());
        assert(t@ =~= quoted_json(members@[i as int].0@) + seq![':'] + json_text(json_view(members@[i as int].1)));
        let ghost before = r@;
        r.push(t);
        proof { lemma_strs_push(before, t); }
        i = i + 1;
    }
    assert(members@.take(members@.len() as int) =~= members@);
    r
}

/// The compact JSON text of a value (`serde_json::to_string`).
pub fn to_json_string(v: &JsonValue) -> (r: String)
    ensures
        r@ == json_text(v@),
    decreases v,
{
    match v {
        JsonValue::Null => {
            proof { reveal_strlit("null"); }
            String::from_str("null")
        },
        JsonValue::Bool(b) => {
            proof { reveal_strlit("true"); reveal_strlit("false"); }
            if *b {
                String::from_str("true")
            } else {
                String::from_str("false")
            }
        },
        JsonValue::Number(t) => t.clone(),
        JsonValue::Str(s) => {
            let mut r = String::new();
            push_quoted(&mut r, s.as_str());
            r
        },
        JsonValue::Array(items) => {
            let parts = texts_of(items);
            let mut r = String::new();
            push_char(&mut r, '[');
            proof { reveal_strlit(","); }
            r.append(join_strings(&parts, ",").as_str());
            push_char(&mut r, ']');
            assert(r@ =~= json_text(v@));
            r
        },
        JsonValue::Object(members) => {
            let parts = member_texts_of(members);
            let mut r = String::new();
            push_char(&mut r, '{');
            proof { reveal_strlit(","); }
            r.append(join_strings(&parts, ",").as_str());
            push_char(&mut r, '}');
            assert(r@ =~= json_text(v@));
            r
        },
    }
}

/// The value of the first member named `key`, in an object.
pub open spec fn member_from(members: Seq<(Seq<char>, JsonTree)>, key: Seq<char>, i: int) -> Option<JsonTree>
    decreases members.len() - i,
{
    if i < 0 || i >= members.len() {
        None
    } else if members[i].0 == key {
        Some(members[i].1)
    } else {
        member_from(members, key, i + 1)
    }
}

/// The member `key` of an object; `None` for other values.
pub open spec fn json_get(v: JsonTree, key: Seq<char>) -> Option<JsonTree> {
    match v {
        JsonTree::Object(members) => member_from(members, key, 0),
        _ => None,
    }
}

/// The member `key` of an object (`serde_json::Value::get` with a string key).
pub fn get<'a>(v: &'a JsonValue, key: &str) -> (r: Option<&'a JsonValue>)
    ensures
        match json_get(v@, key@) {
            Some(t) => r matches Some(x) && x@ == t,
            None => r is None,
        },
{
    match v {
        JsonValue::Object(members) => {
            proof { lemma_member_views(members@); }
            let ghost ms = member_views(members@);
            assert(v@ == JsonTree::Object(ms));
            let mut i: usize = 0;
            while i < members.len()
                invariant
                    ms == member_views(members@),
                    ms.len() == members@.len(),
                    forall|j: int| 0 <= j < members@.len() ==> #[trigger] ms[j] == (members@[j].0@, json_view(members@[j].1)),
                    i <= members@.len(),
                    member_from(ms, key@, 0) == member_from(ms, key@, i as int),
                    v@ == JsonTree::Object(ms),
                decreases members.len() - i,
            {
                assert(ms[i as int] == (members@[i as int].0@, json_view(members@[i as int].1)));
                if crate::text::text_eq(members[i].0.as_str(), key) {
                    return Some(&members[i].1);
                }
                i = i + 1;
            }
            None
        },
        _ => None,
    }
}

} // verus!
