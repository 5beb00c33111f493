//! Reading the HTML of docs.json `details` fields, the text of default values,
//! and function signatures.

use vstd::prelude::*;
use crate::compositor::join_strings;
use crate::html::{html_fragment, parse_html_fragment, HtmlNode, HtmlTree};
use crate::html_to_mdast::{collect_text, collect_text_from_children};
use crate::json::{get, json_get, json_text, json_views, lemma_json_views, to_json_string, JsonTree, JsonValue};
use crate::render::{lemma_strs_push, strs};
use crate::render_func::RenderError;
use crate::schema::{FuncContent, ParamContent};
use crate::text::{chars_of, join};

verus! {

/// The HTML of one detail object: its `content` when its `kind` is `html`.
pub open spec fn detail_html(item: JsonTree) -> Option<Seq<char>> {
    match json_get(item, "kind"@) {
        Some(JsonTree::Str(k)) => if k == "html"@ {
            match json_get(item, "content"@) {
                Some(JsonTree::Str(c)) => Some(c),
                _ => None,
            }
        } else {
            None
        },
        _ => None,
    }
}

/// The HTML pieces of a list of detail objects, in order.
pub open spec fn detail_htmls(items: Seq<JsonTree>) -> Seq<Seq<char>>
    decreases items.len(),
{
    if items.len() == 0 {
        Seq::empty()
    } else {
        let rest = detail_htmls(items.drop_last());
        match detail_html(items.last()) {
            Some(h) => rest.push(h),
            None => rest,
        }
    }
}

/// The HTML of a details field: a string as is, the HTML pieces of a list of
/// detail objects joined by blank lines, nothing otherwise.
pub open spec fn details_html(d: JsonTree) -> Seq<char> {
    match d {
        JsonTree::Str(s) => s,
        JsonTree::Array(items) => join(detail_htmls(items), "\n\n"@),
        _ => Seq::empty(),
    }
}

/// The HTML of one detail object.
fn html_of_detail(item: &JsonValue) -> (r: Option<String>)
    ensures
        match detail_html(item@) {
            Some(h) => r matches Some(s) && s@ == h,
            None => r is None,
        },
{
    match get(item, "kind") {
        Some(JsonValue::Str(k)) => {
            if crate::text::text_eq(k.as_str(), "html") {
                match get(item, "content") {
                    Some(JsonValue::Str(c)) => Some(c.clone()),
                    _ => None,
                }
            } else {
                None
            }
        },
        _ => None,
    }
}

/// The HTML of a details field (see [`details_html`]).
pub fn extract_html_from_details(details: &JsonValue) -> (r: String)
    ensures
        r@ == details_html(details@),
{
    match details {
        JsonValue::Str(s) => s.clone(),
        JsonValue::Array(items) => {
            let mut parts: Vec<String> = Vec::new();
            let mut i: usize = 0;
            while i < items.len()
                invariant
                    i <= items@.len(),
                    strs(parts@) == detail_htmls(json_views(items@.take(i as int))),
                decreases items.len() - i,
            {
                assert(items@.take(i + 1).drop_last() =~= items@.take(i as int));
                assert(json_views(items@.take(i + 1)).drop_last() =~= json_views(items@.take(i as int)));
                match html_of_detail(&items[i]) {
                    Some(h) => {
                        let ghost before = parts@;
                        parts.push(h);
                        proof { lemma_strs_push(before, h); }
                    },
                    None => {},
                }
                i = i + 1;
            }
            assert(items@.take(items@.len() as int) =~= items@);
            proof { reveal_strlit("\n\n"); }
            join_strings(&parts, "\n\n")
        },
        _ => String::new(),
    }
}

/// All character data of a parsed fragment.
pub open spec fn fragment_text(doc: HtmlTree) -> Seq<char> {
    match doc {
        HtmlTree::Document(cs) => collect_text(cs),
        HtmlTree::Element(_, _, cs) => collect_text(cs),
        _ => Seq::empty(),
    }
}

/// The text of an HTML string: its character data when it parses, else the
/// string itself.
pub open spec fn html_text(html: Seq<char>) -> Seq<char> {
    match html_fragment(html) {
        Ok(doc) => fragment_text(doc),
        Err(_) => html,
    }
}

/// The text of a default value: an HTML string (one holding both `<` and `>`)
/// reduced to its character data, another string as is, any other value as
/// its JSON text.
pub open spec fn default_text(v: JsonTree) -> Seq<char> {
    match v {
        JsonTree::Str(s) => if s.contains('<') && s.contains('>') {
            html_text(s)
        } else {
            s
        },
        _ => json_text(v),
    }
}

/// Whether `s` holds `c`.
pub(crate) fn has_char(s: &str, c: char) -> (r: bool)
    ensures
        r == s@.contains(c),
{
    let cs = chars_of(s);
    let mut i: usize = 0;
    while i < cs.len()
        invariant
            cs@ == s@,
            i <= cs@.len(),
            forall|j: int| 0 <= j < i ==> cs@[j] != c,
        decreases cs.len() - i,
    {
        if cs[i] == c {
            assert(s@[i as int] == c);
            return true;
        }
        i = i + 1;
    }
    false
}

/// The character data of an HTML string parsed as a fragment; the string
/// itself when it cannot be read.
pub fn extract_text_from_html(html: &str) -> (r: Result<String, RenderError>)
    ensures
        r matches Ok(s) && s@ == html_text(html@),
{
    match parse_html_fragment(html) {
        Ok(doc) => match &doc {
            HtmlNode::Document { children } => Ok(collect_text_from_children(children)),
            HtmlNode::Element { children, .. } => Ok(collect_text_from_children(children)),
            _ => Ok(String::new()),
        },
        Err(_) => Ok(html.to_owned()),
    }
}

/// The text of a default value (see [`default_text`]).
pub fn default_value_to_text(value: &JsonValue) -> (r: Result<String, RenderError>)
    ensures
        r matches Ok(s) && s@ == default_text(value@),
{
    match value {
        JsonValue::Str(s) => {
            if has_char(s.as_str(), '<') && has_char(s.as_str(), '>') {
                extract_text_from_html(s.as_str())
            } else {
                Ok(s.clone())
            }
        },
        _ => Ok(to_json_string(value)),
    }
}

} // verus!
