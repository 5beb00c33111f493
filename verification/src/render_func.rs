//! Markdown of function definitions: signature, description, example,
//! parameters, return types and methods.

use vstd::prelude::*;
use crate::compositor::{byte_len, join_strings};
use crate::details::{
    default_text, default_value_to_text, details_html, extract_html_from_details, extract_text_from_html, has_char,
    html_text,
};
use crate::html::html_document;
use crate::html_to_md::{conversion_outcome, document_markdown, html_fits, ConversionError, MAX_HTML_SIZE};
use crate::html_to_mdast::mdast_of;
use crate::json::{json_text, to_json_string, JsonTree, JsonValue};
use crate::render::{lemma_strs_push, strs};
use crate::schema::{FuncContent, ParamContent};
use crate::text::{join, lines, lines_of};

verus! {

/// Function rendering errors.
#[derive(Debug)]
pub enum RenderError {
    /// A definition could not be read: the reader's message.
    JsonError(String),
    /// HTML conversion error.
    HtmlConversionError(ConversionError),
}

/// The Markdown of an HTML piece, or `Err` with the piece itself when its
/// conversion fails (it is too large or cannot be read).
pub open spec fn conv(h: Seq<char>, depth: nat) -> Result<Seq<char>, Seq<char>> {
    if byte_len(h) > MAX_HTML_SIZE {
        Err(h)
    } else {
        match html_document(h) {
            Ok(doc) => Ok(document_markdown(mdast_of(doc, depth))),
            Err(_) => Err(h),
        }
    }
}

/// An HTML piece whose conversion does not reach a table that cannot be laid out.
pub open spec fn md_fits(h: Seq<char>, depth: nat) -> bool {
    byte_len(h) <= MAX_HTML_SIZE ==> html_fits(h, depth)
}

/// `a` then `b`: the first failure, or both texts one after the other.
pub open spec fn then(a: Result<Seq<char>, Seq<char>>, b: Result<Seq<char>, Seq<char>>) -> Result<Seq<char>, Seq<char>> {
    match a {
        Err(h) => Err(h),
        Ok(x) => match b {
            Err(h) => Err(h),
            Ok(y) => Ok(x + y),
        },
    }
}

/// `r` is what the spec outcome `o` describes for a rendering at this depth.
pub open spec fn rendered_as(o: Result<Seq<char>, Seq<char>>, depth: nat, r: Result<String, RenderError>) -> bool {
    match o {
        Ok(s) => r matches Ok(x) && x@ == s,
        Err(h) => r matches Err(RenderError::HtmlConversionError(e)) && conversion_outcome(h, depth, Err(e)),
    }
}

/// The HTML of an optional details field (empty when absent).
pub open spec fn opt_html(d: Option<JsonValue>) -> Seq<char> {
    match d {
        Some(v) => details_html(v@),
        None => Seq::empty(),
    }
}

/// A details section: the Markdown of its HTML and a blank line, nothing
/// when there is no HTML.
pub open spec fn details_section(d: Option<JsonValue>, depth: nat) -> Result<Seq<char>, Seq<char>> {
    let h = opt_html(d);
    if h.len() > 0 {
        then(conv(h, depth), Ok("\n\n"@))
    } else {
        Ok(Seq::empty())
    }
}

/// The details HTML, if any, fits.
pub open spec fn details_fit(d: Option<JsonValue>, depth: nat) -> bool {
    opt_html(d).len() > 0 ==> md_fits(opt_html(d), depth)
}

/// Converts an HTML piece to Markdown.
pub fn convert_html(h: &str, depth: usize) -> (r: Result<String, RenderError>)
    requires
        md_fits(h@, depth as nat),
    ensures
        rendered_as(conv(h@, depth as nat), depth as nat, r),
{
    match crate::html_to_md::convert(h, depth) {
        Ok(m) => Ok(m),
        Err(e) => Err(RenderError::HtmlConversionError(e)),
    }
}

/// Renders a details section.
pub(crate) fn render_details(d: &Option<JsonValue>, depth: usize) -> (r: Result<String, RenderError>)
    requires
        details_fit(*d, depth as nat),
    ensures
        rendered_as(details_section(*d, depth as nat), depth as nat, r),
{
    match d {
        Some(v) => {
            let h = extract_html_from_details(v);
            if !h.as_str().is_empty() {
                let m = convert_html(h.as_str(), depth)?;
                let mut out = m;
                proof { reveal_strlit("\n\n"); }
                out.append("\n\n");
                Ok(out)
            } else {
                assert(h@.len() == 0);
                Ok(String::new())
            }
        },
        None => Ok(String::new()),
    }
}

/// `parts` joined by `sep`.
pub open spec fn joined(parts: Vec<String>, sep: Seq<char>) -> Seq<char> {
    join(strs(parts@), sep)
}

/// A default value as a signature shows it: an HTML string (one holding both
/// `<` and `>`) as its text, any other value as its JSON text.
pub open spec fn signature_default(d: JsonTree) -> Seq<char> {
    match d {
        JsonTree::Str(s) => if s.contains('<') && s.contains('>') {
            html_text(s)
        } else {
            json_text(d)
        },
        _ => json_text(d),
    }
}

/// The signature of a parameter: name, types and default value.
pub open spec fn param_signature(p: ParamContent) -> Seq<char> {
    p.name@ + (if p.types@.len() > 0 {
        ": "@ + joined(p.types, " | "@)
    } else {
        Seq::empty()
    }) + match p.default {
        Some(d) => " = "@ + signature_default(d@),
        None => Seq::empty(),
    }
}

/// The text of a default value in a signature (see [`signature_default`]).
fn signature_default_text(d: &JsonValue) -> (r: String)
    ensures
        r@ == signature_default(d@),
{
    match d {
        JsonValue::Str(s) => {
            if has_char(s.as_str(), '<') && has_char(s.as_str(), '>') {
                match extract_text_from_html(s.as_str()) {
                    Ok(t) => t,
                    Err(_) => String::new(),
                }
            } else {
                to_json_string(d)
            }
        },
        _ => to_json_string(d),
    }
}

/// The code-formatted signature of a function:
/// `` `path.name(param: type = default, ...) -> return` ``, HTML defaults
/// shown as their text.
pub open spec fn signature_text(f: FuncContent) -> Seq<char> {
    "`"@ + (if f.path@.len() > 0 {
        joined(f.path, "."@) + "."@ + f.name@
    } else {
        f.name@
    }) + "("@ + join(Seq::new(f.params@.len(), |i: int| param_signature(f.params@[i])), ", "@) + ")"@
        + (if f.returns@.len() > 0 {
        " -> "@ + joined(f.returns, " | "@)
    } else {
        Seq::empty()
    }) + "`"@
}

/// Formats a function signature (see [`signature_text`]).
pub fn format_function_signature(func: &FuncContent) -> (r: String)
    ensures
        r@ == signature_text(*func),
{
    proof {
        reveal_strlit("`");
        reveal_strlit(".");
        reveal_strlit("(");
        reveal_strlit(")");
        reveal_strlit(": ");
        reveal_strlit(" | ");
        reveal_strlit(" = ");
        reveal_strlit(", ");
        reveal_strlit(" -> ");
    }
    let mut sig = String::new();
    sig.append("`");
    if func.path.len() > 0 {
        sig.append(join_strings(&func.path, ".").as_str());
        sig.append(".");
    }
    sig.append(func.name.as_str());
    sig.append("(");
    let mut parts: Vec<String> = Vec::new();
    let mut i: usize = 0;
    while i < func.params.len()
        invariant
            i <= func.params@.len(),
            strs(parts@) =~= Seq::new(i as nat, |k: int| param_signature(func.params@[k])),
        decreases func.params.len() - i,
    {
        let p = &func.params[i];
        let mut ps = p.name.clone();
        if p.types.len() > 0 {
            ps.append(": ");
            ps.append(join_strings(&p.types, " | ").as_str());
        }
        match &p.default {
            Some(d) => {
                ps.append(" = ");
                ps.append(signature_default_text(d).as_str());
            },
            None => {},
        }
        assert(ps@ =~= param_signature(func.params@[i as int]));
        let ghost before = parts@;
        parts.push(ps);
        proof { lemma_strs_push(before, ps); }
        i = i + 1;
    }
    sig.append(join_strings(&parts, ", ").as_str());
    sig.append(")");
    if func.returns.len() > 0 {
        sig.append(" -> ");
        sig.append(join_strings(&func.returns, " | ").as_str());
    }
    sig.append("`");
    assert(sig@ =~= signature_text(*func));
    sig
}

/// The pieces of `s` rendered by `f`, one after the other; the first failure
/// if any.
pub open spec fn seq_md<T>(s: Seq<T>, f: spec_fn(T) -> Result<Seq<char>, Seq<char>>) -> Result<Seq<char>, Seq<char>>
    decreases s.len(),
{
    if s.len() == 0 {
        Ok(Seq::empty())
    } else {
        then(seq_md(s.drop_last(), f), f(s.last()))
    }
}

/// Each element of `s` that is rendered (no earlier one failed) satisfies `fits`.
pub open spec fn seq_fits<T>(
    s: Seq<T>,
    f: spec_fn(T) -> Result<Seq<char>, Seq<char>>,
    fits: spec_fn(T) -> bool,
) -> bool
    decreases s.len(),
{
    if s.len() == 0 {
        true
    } else {
        seq_fits(s.drop_last(), f, fits) && (seq_md(s.drop_last(), f) is Ok ==> fits(s.last()))
    }
}

pub proof fn lemma_seq_md_step<T>(s: Seq<T>, f: spec_fn(T) -> Result<Seq<char>, Seq<char>>, i: int)
    requires
        0 <= i < s.len(),
    ensures
        seq_md(s.take(i + 1), f) == then(seq_md(s.take(i), f), f(s[i])),
{
    assert(s.take(i + 1).drop_last() =~= s.take(i));
}

pub proof fn lemma_seq_md_err<T>(s: Seq<T>, f: spec_fn(T) -> Result<Seq<char>, Seq<char>>, k: int)
    requires
        0 <= k <= s.len(),
        seq_md(s.take(k), f) is Err,
    ensures
        seq_md(s, f) == seq_md(s.take(k), f),
    decreases s.len(),
{
    if k == s.len() {
        assert(s.take(k) =~= s);
    } else {
        assert(s.drop_last().take(k) =~= s.take(k));
        lemma_seq_md_err(s.drop_last(), f, k);
    }
}

pub proof fn lemma_seq_md_full<T>(s: Seq<T>, f: spec_fn(T) -> Result<Seq<char>, Seq<char>>)
    ensures
        seq_md(s.take(s.len() as int), f) == seq_md(s, f),
{
    assert(s.take(s.len() as int) =~= s);
}

pub proof fn lemma_seq_fits_prefix<T>(
    s: Seq<T>,
    f: spec_fn(T) -> Result<Seq<char>, Seq<char>>,
    fits: spec_fn(T) -> bool,
    k: int,
)
    requires
        0 <= k <= s.len(),
        seq_fits(s, f, fits),
    ensures
        seq_fits(s.take(k), f, fits),
    decreases s.len(),
{
    if k == s.len() {
        assert(s.take(k) =~= s);
    } else {
        assert(s.drop_last().take(k) =~= s.take(k));
        lemma_seq_fits_prefix(s.drop_last(), f, fits, k);
    }
}

pub proof fn lemma_seq_fits_all<T>(
    s: Seq<T>,
    f: spec_fn(T) -> Result<Seq<char>, Seq<char>>,
    fits: spec_fn(T) -> bool,
)
    requires
        forall|i: int| 0 <= i < s.len() ==> #[trigger] fits(s[i]),
    ensures
        seq_fits(s, f, fits),
    decreases s.len(),
{
    if s.len() > 0 {
        assert forall|i: int| 0 <= i < s.drop_last().len() implies #[trigger] fits(s.drop_last()[i]) by {
            assert(s.drop_last()[i] == s[i]);
        }
        lemma_seq_fits_all(s.drop_last(), f, fits);
        assert(fits(s[s.len() - 1]));
    }
}

pub proof fn lemma_seq_fits_step<T>(
    s: Seq<T>,
    f: spec_fn(T) -> Result<Seq<char>, Seq<char>>,
    fits: spec_fn(T) -> bool,
    i: int,
)
    requires
        0 <= i < s.len(),
        seq_fits(s, f, fits),
        seq_md(s.take(i), f) is Ok,
    ensures
        fits(s[i]),
{
    lemma_seq_fits_prefix(s, f, fits, i + 1);
    assert(s.take(i + 1).drop_last() =~= s.take(i));
}

/// The one-line description and a blank line, if any.
pub open spec fn oneliner_part(o: Option<String>) -> Seq<char> {
    match o {
        Some(x) => x@ + "\n\n"@,
        None => Seq::empty(),
    }
}

/// The flags of a parameter, in order.
pub open spec fn param_flags(p: ParamContent) -> Seq<Seq<char>> {
    seq![if p.required {
        "required"@
    } else {
        "optional"@
    }] + (if p.positional {
        seq!["positional"@]
    } else {
        Seq::empty()
    }) + (if p.named {
        seq!["named"@]
    } else {
        Seq::empty()
    }) + (if p.variadic {
        seq!["variadic"@]
    } else {
        Seq::empty()
    }) + (if p.settable {
        seq!["settable"@]
    } else {
        Seq::empty()
    })
}

/// The first line of a parameter entry: bold name, types, flags, default.
pub open spec fn param_head(p: ParamContent) -> Seq<char> {
    "- **"@ + p.name@ + "**"@ + (if p.types@.len() > 0 {
        " (`"@ + joined(p.types, " | "@) + "`)"@
    } else {
        Seq::empty()
    }) + ", "@ + join(param_flags(p), ", "@) + match p.default {
        Some(d) => ", default: `"@ + default_text(d@) + "`"@,
        None => Seq::empty(),
    } + ":\n"@
}

/// Lines, each indented by two spaces and ended by a line feed.
pub open spec fn indented_lines(ls: Seq<Seq<char>>) -> Seq<char>
    decreases ls.len(),
{
    if ls.len() == 0 {
        Seq::empty()
    } else {
        indented_lines(ls.drop_last()) + "  "@ + ls.last() + "\n"@
    }
}

/// The indented Markdown of an HTML piece, after `lead`; nothing when there is no HTML.
pub open spec fn indented_section(d: Option<JsonValue>, lead: Seq<char>, depth: nat) -> Result<Seq<char>, Seq<char>> {
    let h = opt_html(d);
    if h.len() > 0 {
        match conv(h, depth) {
            Ok(m) => Ok(lead + indented_lines(lines_of(m))),
            Err(x) => Err(x),
        }
    } else {
        Ok(Seq::empty())
    }
}

/// The Markdown entry of a parameter.
pub open spec fn param_md(p: ParamContent, depth: nat) -> Result<Seq<char>, Seq<char>> {
    then(
        then(Ok(param_head(p)), indented_section(p.details, Seq::empty(), depth)),
        then(indented_section(p.example, "  \n  Example:\n"@, depth), Ok("\n"@)),
    )
}

/// The HTML that rendering a parameter converts fits.
pub open spec fn param_fits(p: ParamContent, depth: nat) -> bool {
    details_fit(p.details, depth) && (indented_section(p.details, Seq::empty(), depth) is Ok ==> details_fit(
        p.example,
        depth,
    ))
}

/// Appends the lines of `m`, each indented by two spaces and ended by a line feed.
fn push_indented(out: &mut String, m: &str)
    ensures
        final(out)@ == old(out)@ + indented_lines(lines_of(m@)),
{
    let ls = lines(m);
    let ghost start = out@;
    let ghost all = lines_of(m@);
    let mut i: usize = 0;
    proof { reveal_strlit("  "); reveal_strlit("\n"); }
    while i < ls.len()
        invariant
            all == lines_of(m@),
            ls@.len() == all.len(),
            forall|k: int| 0 <= k < ls@.len() ==> #[trigger] ls@[k]@ == all[k],
            i <= ls@.len(),
            out@ == start + indented_lines(all.take(i as int)),
        decreases ls.len() - i,
    {
        assert(all.take(i + 1).drop_last() =~= all.take(i as int));
        assert(ls@[i as int]@ == all[i as int]);
        out.append("  ");
        crate::text::push_range(out, &ls[i], 0, ls[i].len());
        assert(ls@[i as int]@.subrange(0, ls@[i as int]@.len() as int) =~= ls@[i as int]@);
        out.append("\n");
        i = i + 1;
        assert(out@ =~= start + indented_lines(all.take(i as int)));
    }
    assert(all.take(all.len() as int) =~= all);
}

/// Renders an indented section.
fn render_indented(d: &Option<JsonValue>, lead: &str, depth: usize) -> (r: Result<String, RenderError>)
    requires
        details_fit(*d, depth as nat),
    ensures
        rendered_as(indented_section(*d, lead@, depth as nat), depth as nat, r),
{
    match d {
        Some(v) => {
            let h = extract_html_from_details(v);
            if !h.as_str().is_empty() {
                let m = match convert_html(h.as_str(), depth) {
                    Ok(m) => m,
                    Err(e) => return Err(e),
                };
                let mut out = String::new();
                out.append(lead);
                push_indented(&mut out, m.as_str());
                Ok(out)
            } else {
                Ok(String::new())
            }
        },
        None => Ok(String::new()),
    }
}

/// Formats a parameter entry (see [`param_md`]).
pub fn format_parameter(param: &ParamContent, depth: usize) -> (r: Result<String, RenderError>)
    requires
        param_fits(*param, depth as nat),
    ensures
        rendered_as(param_md(*param, depth as nat), depth as nat, r),
{
    proof {
        reveal_strlit("- **");
        reveal_strlit("**");
        reveal_strlit(" (`");
        reveal_strlit(" | ");
        reveal_strlit("`)");
        reveal_strlit(", ");
        reveal_strlit("required");
        reveal_strlit("optional");
        reveal_strlit("positional");
        reveal_strlit("named");
        reveal_strlit("variadic");
        reveal_strlit("settable");
        reveal_strlit(", default: `");
        reveal_strlit("`");
        reveal_strlit(":\n");
        reveal_strlit("\n");
        reveal_strlit("");
    }
    let mut md = String::new();
    md.append("- **");
    md.append(param.name.as_str());
    md.append("**");
    if param.types.len() > 0 {
        md.append(" (`");
        md.append(join_strings(&param.types, " | ").as_str());
        md.append("`)");
    }
    let mut flags: Vec<String> = Vec::new();
    if param.required {
        flags.push(String::from_str("required"));
    } else {
        flags.push(String::from_str("optional"));
    }
    if param.positional {
        flags.push(String::from_str("positional"));
    }
    if param.named {
        flags.push(String::from_str("named"));
    }
    if param.variadic {
        flags.push(String::from_str("variadic"));
    }
    if param.settable {
        flags.push(String::from_str("settable"));
    }
    assert(strs(flags@) =~= param_flags(*param));
    md.append(", ");
    md.append(join_strings(&flags, ", ").as_str());
    match &param.default {
        Some(d) => {
            let text = match default_value_to_text(d) {
                Ok(t) => t,
                Err(e) => return Err(e),
            };
            md.append(", default: `");
            md.append(text.as_str());
            md.append("`");
        },
        None => {},
    }
    md.append(":\n");
    assert(md@ =~= param_head(*param));
    let ghost head = md@;
    let details = match render_indented(&param.details, "", depth) {
        Ok(x) => x,
        Err(e) => return Err(e),
    };
    md.append(details.as_str());
    let example = match render_indented(&param.example, "  \n  Example:\n", depth) {
        Ok(x) => x,
        Err(e) => return Err(e),
    };
    md.append(example.as_str());
    md.append("\n");
    assert(md@ =~= head + details@ + (example@ + "\n"@));
    Ok(md)
}

/// The entry of a method: heading, signature, description and details.
pub open spec fn scoped_md(f: FuncContent, depth: nat) -> Result<Seq<char>, Seq<char>> {
    then(
        Ok("### `"@ + f.name@ + "`\n\n"@ + signature_text(f) + "\n\n"@ + oneliner_part(f.oneliner)),
        details_section(f.details, depth),
    )
}

/// A method entry followed by a line feed.
pub open spec fn method_md(f: FuncContent, depth: nat) -> Result<Seq<char>, Seq<char>> {
    then(scoped_md(f, depth), Ok("\n"@))
}

/// The Markdown of a function definition: signature, description, details,
/// example, parameters, return types and methods; the first HTML piece whose
/// conversion fails otherwise.
pub open spec fn func_md(f: FuncContent, depth: nat) -> Result<Seq<char>, Seq<char>> {
    let head = "## Signature\n\n"@ + signature_text(f) + "\n\n"@ + oneliner_part(f.oneliner);
    let example = match f.example {
        Some(_) => then(Ok("## Example\n\n"@), details_section(f.example, depth)),
        None => Ok(Seq::empty()),
    };
    let params = if f.params@.len() > 0 {
        then(
            then(Ok("## Parameters\n\n"@), seq_md(f.params@, |p: ParamContent| param_md(p, depth))),
            Ok("\n"@),
        )
    } else {
        Ok(Seq::empty())
    };
    let return_types = if f.returns@.len() > 0 {
        "## Returns\n\n"@ + "`"@ + joined(f.returns, " | "@) + "`\n\n"@
    } else {
        Seq::empty()
    };
    let methods = if f.scope@.len() > 0 {
        then(Ok("## Methods\n\n"@), seq_md(f.scope@, |m: FuncContent| method_md(m, depth)))
    } else {
        Ok(Seq::empty())
    };
    then(then(then(then(Ok(head), details_section(f.details, depth)), example), params), then(Ok(return_types), methods))
}

/// The HTML that rendering a function definition converts fits.
pub open spec fn func_fits(f: FuncContent, depth: nat) -> bool {
    &&& details_fit(f.details, depth)
    &&& details_section(f.details, depth) is Ok ==> {
        &&& details_fit(f.example, depth)
        &&& details_section(f.example, depth) is Ok ==> {
            &&& seq_fits(f.params@, |p: ParamContent| param_md(p, depth), |p: ParamContent| param_fits(p, depth))
            &&& seq_md(f.params@, |p: ParamContent| param_md(p, depth)) is Ok ==> seq_fits(
                f.scope@,
                |m: FuncContent| method_md(m, depth),
                |m: FuncContent| details_fit(m.details, depth),
            )
        }
    }
}

/// Formats a method entry (see [`scoped_md`]).
pub fn format_scoped_function(func: &FuncContent, depth: usize) -> (r: Result<String, RenderError>)
    requires
        details_fit(func.details, depth as nat),
    ensures
        rendered_as(scoped_md(*func, depth as nat), depth as nat, r),
{
    proof {
        reveal_strlit("### `");
        reveal_strlit("`\n\n");
        reveal_strlit("\n\n");
    }
    let mut md = String::new();
    md.append("### `");
    md.append(func.name.as_str());
    md.append("`\n\n");
    md.append(format_function_signature(func).as_str());
    md.append("\n\n");
    match &func.oneliner {
        Some(o) => {
            md.append(o.as_str());
            md.append("\n\n");
        },
        None => {},
    }
    let ghost head = md@;
    assert(head =~= "### `"@ + func.name@ + "`\n\n"@ + signature_text(*func) + "\n\n"@ + oneliner_part(func.oneliner));
    let details = match render_details(&func.details, depth) {
        Ok(x) => x,
        Err(e) => return Err(e),
    };
    md.append(details.as_str());
    Ok(md)
}

/// Appends the entries of the parameters.
fn push_params(md: &mut String, params: &Vec<ParamContent>, depth: usize) -> (r: Result<(), RenderError>)
    requires
        seq_fits(params@, |p: ParamContent| param_md(p, depth as nat), |p: ParamContent| param_fits(p, depth as nat)),
    ensures
        match seq_md(params@, |p: ParamContent| param_md(p, depth as nat)) {
            Ok(s) => r is Ok && final(md)@ == old(md)@ + s,
            Err(h) => r matches Err(RenderError::HtmlConversionError(e)) && conversion_outcome(h, depth as nat, Err(e)),
        },
{
    let ghost f = |p: ParamContent| param_md(p, depth as nat);
    let ghost fits = |p: ParamContent| param_fits(p, depth as nat);
    let ghost start = md@;
    let mut i: usize = 0;
    while i < params.len()
        invariant
            i <= params@.len(),
            f == (|p: ParamContent| param_md(p, depth as nat)),
            fits == (|p: ParamContent| param_fits(p, depth as nat)),
            seq_fits(params@, f, fits),
            seq_md(params@.take(i as int), f) matches Ok(acc) && md@ == start + acc,
        decreases params.len() - i,
    {
        proof {
            lemma_seq_md_step(params@, f, i as int);
            lemma_seq_fits_step(params@, f, fits, i as int);
        }
        let piece = match format_parameter(&params[i], depth) {
            Ok(x) => x,
            Err(e) => {
                proof { lemma_seq_md_err(params@, f, i + 1); }
                return Err(e);
            },
        };
        md.append(piece.as_str());
        i = i + 1;
    }
    proof { lemma_seq_md_full(params@, f); }
    Ok(())
}

/// Appends the entries of the methods, each followed by a line feed.
fn push_methods(md: &mut String, scope: &Vec<FuncContent>, depth: usize) -> (r: Result<(), RenderError>)
    requires
        seq_fits(scope@, |m: FuncContent| method_md(m, depth as nat), |m: FuncContent| details_fit(m.details, depth as nat)),
    ensures
        match seq_md(scope@, |m: FuncContent| method_md(m, depth as nat)) {
            Ok(s) => r is Ok && final(md)@ == old(md)@ + s,
            Err(h) => r matches Err(RenderError::HtmlConversionError(e)) && conversion_outcome(h, depth as nat, Err(e)),
        },
{
    let ghost f = |m: FuncContent| method_md(m, depth as nat);
    let ghost fits = |m: FuncContent| details_fit(m.details, depth as nat);
    let ghost start = md@;
    let mut i: usize = 0;
    proof { reveal_strlit("\n"); }
    while i < scope.len()
        invariant
            i <= scope@.len(),
            f == (|m: FuncContent| method_md(m, depth as nat)),
            fits == (|m: FuncContent| details_fit(m.details, depth as nat)),
            seq_fits(scope@, f, fits),
            seq_md(scope@.take(i as int), f) matches Ok(acc) && md@ == start + acc,
        decreases scope.len() - i,
    {
        proof {
            lemma_seq_md_step(scope@, f, i as int);
            lemma_seq_fits_step(scope@, f, fits, i as int);
        }
        let piece = match format_scoped_function(&scope[i], depth) {
            Ok(x) => x,
            Err(e) => {
                proof { lemma_seq_md_err(scope@, f, i + 1); }
                return Err(e);
            },
        };
        md.append(piece.as_str());
        md.append("\n");
        i = i + 1;
    }
    proof { lemma_seq_md_full(scope@, f); }
    Ok(())
}

/// Renders a function definition to Markdown (see [`func_md`]), with links
/// rewritten for a page `depth` directories below the docs root.
pub fn render_func_body(func: &FuncContent, depth: usize) -> (r: Result<String, RenderError>)
    requires
        func_fits(*func, depth as nat),
    ensures
        rendered_as(func_md(*func, depth as nat), depth as nat, r),
{
    proof {
        reveal_strlit("## Signature\n\n");
        reveal_strlit("\n\n");
        reveal_strlit("## Example\n\n");
        reveal_strlit("## Parameters\n\n");
        reveal_strlit("\n");
        reveal_strlit("## Returns\n\n");
        reveal_strlit("`");
        reveal_strlit(" | ");
        reveal_strlit("`\n\n");
        reveal_strlit("## Methods\n\n");
    }
    let mut md = String::new();
    md.append("## Signature\n\n");
    md.append(format_function_signature(func).as_str());
    md.append("\n\n");
    match &func.oneliner {
        Some(o) => {
            md.append(o.as_str());
            md.append("\n\n");
        },
        None => {},
    }
    let ghost head = md@;
    assert(head =~= "## Signature\n\n"@ + signature_text(*func) + "\n\n"@ + oneliner_part(func.oneliner));
    let details = match render_details(&func.details, depth) {
        Ok(x) => x,
        Err(e) => return Err(e),
    };
    md.append(details.as_str());
    let ghost dv = details@;
    let mut ev = String::new();
    match &func.example {
        Some(_) => {
            ev.append("## Example\n\n");
            let example = match render_details(&func.example, depth) {
                Ok(x) => x,
                Err(e) => return Err(e),
            };
            ev.append(example.as_str());
        },
        None => {},
    }
    md.append(ev.as_str());
    let mut pv = String::new();
    if func.params.len() > 0 {
        pv.append("## Parameters\n\n");
        match push_params(&mut pv, &func.params, depth) {
            Ok(()) => {},
            Err(e) => return Err(e),
        }
        pv.append("\n");
    }
    md.append(pv.as_str());
    let mut rv = String::new();
    if func.returns.len() > 0 {
        rv.append("## Returns\n\n");
        rv.append("`");
        rv.append(join_strings(&func.returns, " | ").as_str());
        rv.append("`\n\n");
    }
    md.append(rv.as_str());
    let mut mv = String::new();
    if func.scope.len() > 0 {
        mv.append("## Methods\n\n");
        match push_methods(&mut mv, &func.scope, depth) {
            Ok(()) => {},
            Err(e) => return Err(e),
        }
    }
    md.append(mv.as_str());
    assert(md@ =~= head + dv + ev@ + pv@ + (rv@ + mv@));
    Ok(md)
}

/// A signature with return types ends with ` -> `, all return types joined
/// by ` | `, and the closing backtick; every return type occurs in it.
pub proof fn lemma_signature_shows_all_returns(f: FuncContent)
    requires
        f.returns@.len() > 0,
    ensures
        exists|pre: Seq<char>| signature_text(f) == pre + " -> "@ + join(strs(f.returns@), " | "@) + "`"@,
        forall|i: int|
            0 <= i < f.returns@.len() ==> crate::text::occurs_in(signature_text(f), #[trigger] f.returns@[i]@),
{
    let t = signature_text(f);
    let pre = "`"@ + (if f.path@.len() > 0 {
        joined(f.path, "."@) + "."@ + f.name@
    } else {
        f.name@
    }) + "("@ + join(Seq::new(f.params@.len(), |i: int| param_signature(f.params@[i])), ", "@) + ")"@;
    let rs = strs(f.returns@);
    let tail = join(rs, " | "@);
    assert(t =~= pre + " -> "@ + tail + "`"@);
    assert forall|i: int| 0 <= i < f.returns@.len() implies crate::text::occurs_in(t, #[trigger] f.returns@[i]@) by {
        assert(rs[i] == f.returns@[i]@);
        let k = crate::text::lemma_join_part_at(rs, " | "@, i);
        let off = (pre + " -> "@).len() + k;
        assert(t.subrange(off, off + rs[i].len()) =~= tail.subrange(k, k + rs[i].len()));
        assert(0 <= off && off + f.returns@[i]@.len() <= t.len() && t.subrange(off, off + f.returns@[i]@.len())
            == f.returns@[i]@);
    }
}

/// The first flag of a parameter entry says whether the parameter is required:
/// an entry that renders begins with the bold name, the types in code (when
/// there are any), and then `required` for a required parameter and
/// `optional` for any other.
pub proof fn lemma_parameter_first_flag(p: ParamContent, depth: nat)
    requires
        param_md(p, depth) is Ok,
    ensures
        crate::text::has_prefix(
            param_md(p, depth)->Ok_0,
            "- **"@ + p.name@ + "**"@ + (if p.types@.len() > 0 {
                " (`"@ + join(strs(p.types@), " | "@) + "`)"@
            } else {
                Seq::empty()
            }) + ", "@ + (if p.required {
                "required"@
            } else {
                "optional"@
            }),
        ),
{
    let head = param_head(p);
    let flags = param_flags(p);
    let first = if p.required { "required"@ } else { "optional"@ };
    let types = if p.types@.len() > 0 {
        " (`"@ + join(strs(p.types@), " | "@) + "`)"@
    } else {
        Seq::empty()
    };
    let lead = "- **"@ + p.name@ + "**"@ + types + ", "@;
    assert(flags[0] == first);
    crate::text::lemma_join_first(flags, ", "@);
    let fj = join(flags, ", "@);
    let after_flags = match p.default {
        Some(d) => ", default: `"@ + default_text(d@) + "`"@,
        None => Seq::empty(),
    } + ":\n"@;
    assert(head =~= lead + fj + after_flags);
    let s1 = indented_section(p.details, Seq::empty(), depth)->Ok_0;
    let s2 = indented_section(p.example, "  \n  Example:\n"@, depth)->Ok_0;
    let whole = param_md(p, depth)->Ok_0;
    let rest1 = s1 + (s2 + "\n"@);
    assert(whole == (head + s1) + (s2 + "\n"@));
    assert(whole =~= head + rest1);
    let rest = fj.skip(first.len() as int) + after_flags + rest1;
    assert(fj =~= first + fj.skip(first.len() as int));
    assert(whole =~= lead + first + rest);
    assert(whole.subrange(0, (lead + first).len() as int) =~= lead + first);
}

} // verus!
