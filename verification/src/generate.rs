//! Markdown page generation from docs entries: body rendering, title
//! de-duplication, frontmatter and the plan of files to write.

use vstd::prelude::*;
use crate::text::{
    chars_of, has_prefix, join, join_lines, lines, lines_of, lowercase, push_range, starts_with_str,
    string_from_range, to_lowercase, trim_bounds, trim_end_char, trim_ws,
};
use crate::html_to_md::{conversion_outcome, document_tables_fit, ConversionError, MAX_HTML_SIZE};
use crate::json::{JsonTree, JsonValue};
use crate::render_bodies::{
    category_md, group_md, render_category_body, render_group_body, render_symbols_body, render_type_body,
    symbols_md, type_fits, type_md, type_outcome,
};
use crate::render_func::{
    conv, details_fit, func_fits, func_md, lemma_seq_fits_all, md_fits, opt_html, param_fits, param_md,
    render_func_body, scoped_md, method_md,
};
use crate::route::RouteError;
use crate::schema::{body_consistent, Body, Definition, DocsEntry, FuncContent, SchemaError, TypeContent};

verus! {

/// A line holding only whitespace.
pub open spec fn is_blank(l: Seq<char>) -> bool {
    trim_ws(l).len() == 0
}

/// Index of the first non-blank line at or after `k`, or the number of lines.
pub open spec fn first_nonblank_from(ls: Seq<Seq<char>>, k: int) -> int
    decreases ls.len() - k,
{
    if k >= ls.len() || k < 0 {
        ls.len() as int
    } else if !is_blank(ls[k]) {
        k
    } else {
        first_nonblank_from(ls, k + 1)
    }
}

/// A trimmed line that is a level-one heading whose text equals `title`,
/// ignoring surrounding whitespace and letter case.
pub open spec fn is_title_heading(trimmed: Seq<char>, title: Seq<char>) -> bool {
    has_prefix(trimmed, "# "@) && lowercase(trim_ws(trimmed.skip(2))) == lowercase(trim_ws(title))
}

/// `content` without a leading level-one heading that repeats `title`: when the
/// first non-blank line is such a heading, the lines from the next non-blank line
/// on, joined by `\n`; otherwise `content` unchanged.
pub open spec fn without_title_heading(content: Seq<char>, title: Seq<char>) -> Seq<char> {
    let ls = lines_of(content);
    let i = first_nonblank_from(ls, 0);
    if i < ls.len() && is_title_heading(trim_ws(ls[i]), title) {
        join(ls.skip(first_nonblank_from(ls, i + 1)), "\n"@)
    } else {
        content
    }
}

fn next_nonblank(ls: &Vec<Vec<char>>, from: usize, Ghost(spec_ls): Ghost<Seq<Seq<char>>>) -> (r: usize)
    requires
        from <= ls@.len(),
        spec_ls.len() == ls@.len(),
        forall|k: int| 0 <= k < ls@.len() ==> #[trigger] ls@[k]@ == spec_ls[k],
    ensures
        r as int == first_nonblank_from(spec_ls, from as int),
        r <= ls@.len(),
{
    let mut i = from;
    while i < ls.len()
        invariant
            from <= i <= ls@.len(),
            spec_ls.len() == ls@.len(),
            forall|k: int| 0 <= k < ls@.len() ==> #[trigger] ls@[k]@ == spec_ls[k],
            first_nonblank_from(spec_ls, from as int) == first_nonblank_from(spec_ls, i as int),
        decreases ls.len() - i,
    {
        let (a, b) = trim_bounds(&ls[i], 0, ls[i].len());
        assert(ls@[i as int]@.subrange(0, ls@[i as int]@.len() as int) =~= ls@[i as int]@);
        if a < b {
            return i;
        }
        i = i + 1;
    }
    i
}

/// Removes a leading level-one heading that repeats the page title.
///
/// When the first non-blank line is `# <title>` (compared after trimming and
/// lower-casing both), that line and the blank lines after it are dropped and the
/// remaining lines are joined with `\n`; otherwise the content is returned as is.
pub fn remove_duplicate_heading(content: &str, title: &str) -> (r: String)
    ensures
        r@ == without_title_heading(content@, title@),
{
    let ls = lines(content);
    let ghost spec_ls = lines_of(content@);
    let i = next_nonblank(&ls, 0, Ghost(spec_ls));
    if i < ls.len() {
        let line = &ls[i];
        let (a, b) = trim_bounds(line, 0, line.len());
        assert(line@.subrange(0, line@.len() as int) =~= line@);
        let ghost trimmed = trim_ws(line@);
        proof { reveal_strlit("# "); }
        if b - a >= 2 && line[a] == '#' && line[a + 1] == ' ' {
            assert(has_prefix(trimmed, "# "@)) by {
                assert(trimmed.subrange(0, 2) =~= "# "@);
            }
            let (c, d) = trim_bounds(line, a + 2, b);
            assert(line@.subrange(a + 2, b as int) =~= trimmed.skip(2));
            let heading = string_from_range(line, c, d);
            let heading_lower = to_lowercase(heading.as_str());
            let tcs = crate::text::chars_of(title);
            let (e, f) = trim_bounds(&tcs, 0, tcs.len());
            assert(tcs@.subrange(0, tcs@.len() as int) =~= tcs@);
            let title_trimmed = string_from_range(&tcs, e, f);
            let title_lower = to_lowercase(title_trimmed.as_str());
            if heading_lower == title_lower {
                let j = next_nonblank(&ls, i + 1, Ghost(spec_ls));
                let r = join_lines(&ls, j, "\n");
                assert(ls@.skip(j as int).map_values(|v: Vec<char>| v@) =~= spec_ls.skip(j as int));
                return r;
            }
        } else {
            assert(!has_prefix(trimmed, "# "@)) by {
                if has_prefix(trimmed, "# "@) {
                    assert(trimmed.subrange(0, 2)[0] == trimmed[0]);
                    assert(trimmed.subrange(0, 2)[1] == trimmed[1]);
                    assert(trimmed =~= line@.subrange(a as int, b as int));
                }
            }
        }
    }
    let cs = crate::text::chars_of(content);
    let r = string_from_range(&cs, 0, cs.len());
    assert(r@ =~= content@);
    r
}

/// The route relative to the docs root.
pub open spec fn relative_route(route: Seq<char>) -> Seq<char> {
    if has_prefix(route, "/DOCS-BASE/"@) {
        route.skip(11)
    } else {
        route
    }
}

/// The number of `c` in `s`.
pub open spec fn count_char(s: Seq<char>, c: char) -> nat
    decreases s.len(),
{
    if s.len() == 0 {
        0
    } else {
        count_char(s.drop_last(), c) + if s.last() == c {
            1nat
        } else {
            0nat
        }
    }
}

/// How many directories below the docs root a page lies: the slashes of its
/// relative route without trailing slashes.
pub open spec fn route_depth(route: Seq<char>) -> nat {
    count_char(trim_end_char(relative_route(route), '/'), '/')
}

/// The depth of a route (see [`route_depth`]).
pub fn page_depth(route: &str) -> (r: usize)
    ensures
        r == route_depth(route@),
{
    let cs = chars_of(route);
    proof { reveal_strlit("/DOCS-BASE/"); }
    let start: usize = if starts_with_str(&cs, "/DOCS-BASE/") {
        11
    } else {
        0
    };
    let ghost rel = relative_route(route@);
    assert(rel =~= cs@.subrange(start as int, cs@.len() as int));
    let mut end = cs.len();
    while end > start && cs[end - 1] == '/'
        invariant
            start <= end <= cs@.len(),
            trim_end_char(rel, '/') == trim_end_char(cs@.subrange(start as int, end as int), '/'),
        decreases end,
    {
        assert(cs@.subrange(start as int, end as int).drop_last() =~= cs@.subrange(start as int, end - 1));
        end = end - 1;
    }
    assert(trim_end_char(cs@.subrange(start as int, end as int), '/') == cs@.subrange(start as int, end as int));
    let mut n: usize = 0;
    let mut i = start;
    while i < end
        invariant
            start <= i <= end <= cs@.len(),
            n == count_char(cs@.subrange(start as int, i as int), '/'),
            n <= i - start,
        decreases end - i,
    {
        assert(cs@.subrange(start as int, i + 1).drop_last() =~= cs@.subrange(start as int, i as int));
        if cs[i] == '/' {
            n = n + 1;
        }
        i = i + 1;
    }
    n
}

/// What serde_yaml writes for a mapping of string keys to string values, in
/// order: the YAML text, or the text of its error.
pub uninterp spec fn yaml_mapping(entries: Seq<(Seq<char>, Seq<char>)>) -> Result<Seq<char>, Seq<char>>;

/// The views of string pairs.
pub open spec fn pair_views(entries: Seq<(String, String)>) -> Seq<(Seq<char>, Seq<char>)> {
    entries.map_values(|p: (String, String)| (p.0@, p.1@))
}

/// Serializes the pairs, in order, as a YAML mapping of strings with
/// `serde_yaml::to_string` on a `serde_yaml::Mapping`. The contract claims only
/// that the outcome is a function of the pairs (named `yaml_mapping`).
#[verifier::external_body]
fn yaml_string_mapping(entries: &Vec<(String, String)>) -> (r: Result<String, String>)
    ensures
        match r {
            Ok(s) => yaml_mapping(pair_views(entries@)) == Ok::<Seq<char>, Seq<char>>(s@),
            Err(e) => yaml_mapping(pair_views(entries@)) == Err::<Seq<char>, Seq<char>>(e@),
        },
{
    let mut m = serde_yaml::Mapping::new();
    for (k, v) in entries.iter() {
        m.insert(serde_yaml::Value::String(k.clone()), serde_yaml::Value::String(v.clone()));
    }
    serde_yaml::to_string(&m).map_err(|e| e.to_string())
}

/// Frontmatter generation errors.
#[derive(Debug)]
pub enum FrontmatterError {
    /// YAML serialization error.
    YamlSerialization(String),
}

/// The fields of a page's frontmatter: its title, and its description if any.
pub open spec fn frontmatter_fields(title: Seq<char>, description: Option<Seq<char>>) -> Seq<(Seq<char>, Seq<char>)> {
    seq![("title"@, title)] + match description {
        Some(d) => seq![("description"@, d)],
        None => Seq::empty(),
    }
}

/// The view of an optional string slice.
pub open spec fn opt_view(d: Option<&str>) -> Option<Seq<char>> {
    match d {
        Some(x) => Some(x@),
        None => None,
    }
}

/// The YAML frontmatter of a page.
#[derive(Debug)]
pub struct DocsFrontmatter {
    pub title: String,
    /// Left out of the YAML when absent.
    pub description: Option<String>,
}

impl DocsFrontmatter {
    /// The frontmatter serialized as YAML (without delimiters): a mapping of
    /// its title, then its description when there is one.
    pub fn to_yaml(&self) -> (r: Result<String, FrontmatterError>)
        ensures
            match yaml_mapping(frontmatter_fields(self.title@, opt_string_view(self.description))) {
                Ok(y) => r matches Ok(s) && s@ == y,
                Err(m) => r matches Err(FrontmatterError::YamlSerialization(x)) && x@ == m,
            },
    {
        proof {
            reveal_strlit("title");
            reveal_strlit("description");
        }
        let mut fields: Vec<(String, String)> = Vec::new();
        fields.push((String::from_str("title"), self.title.clone()));
        match &self.description {
            Some(d) => fields.push((String::from_str("description"), d.clone())),
            None => {},
        }
        assert(pair_views(fields@) =~= frontmatter_fields(self.title@, opt_string_view(self.description)));
        match yaml_string_mapping(&fields) {
            Ok(y) => Ok(y),
            Err(m) => Err(FrontmatterError::YamlSerialization(m)),
        }
    }
}

/// The YAML frontmatter of a page: `---`, the YAML mapping of its title and
/// description, `---` and a blank line.
pub fn generate_frontmatter(title: &str, description: Option<&str>) -> (r: Result<String, FrontmatterError>)
    ensures
        match yaml_mapping(frontmatter_fields(title@, opt_view(description))) {
            Ok(y) => r matches Ok(s) && s@ == "---\n"@ + y + "---\n\n"@,
            Err(m) => r matches Err(FrontmatterError::YamlSerialization(x)) && x@ == m,
        },
{
    proof {
        reveal_strlit("---\n");
        reveal_strlit("---\n\n");
    }
    let frontmatter = DocsFrontmatter {
        title: title.to_owned(),
        description: match description {
            Some(d) => Some(d.to_owned()),
            None => None,
        },
    };
    assert(opt_string_view(frontmatter.description) == opt_view(description));
    let y = frontmatter.to_yaml()?;
    let mut s = String::from_str("---\n");
    s.append(y.as_str());
    s.append("---\n\n");
    Ok(s)
}

/// Body rendering errors.
#[derive(Debug)]
pub enum BodyRenderError {
    SchemaError(SchemaError),
    HtmlConversionError(ConversionError),
    JsonError(String),
    FuncRenderError(crate::render_func::RenderError),
    BodyTypeRenderError(crate::render_bodies::RenderError),
}

/// A rendered section followed by a blank line, or the failure of the
/// conversion of the HTML piece `h`, wrapped as the function or body error it
/// comes as.
pub open spec fn body_as(o: Result<Seq<char>, Seq<char>>, depth: nat, in_func: bool, r: Result<String, BodyRenderError>) -> bool {
    match o {
        Ok(x) => r matches Ok(s) && s@ == x + "\n\n"@,
        Err(h) => if in_func {
            r matches Err(
                BodyRenderError::FuncRenderError(crate::render_func::RenderError::HtmlConversionError(e)),
            ) && conversion_outcome(h, depth, Err(e))
        } else {
            r matches Err(
                BodyRenderError::BodyTypeRenderError(crate::render_bodies::RenderError::HtmlConversionError(e)),
            ) && conversion_outcome(h, depth, Err(e))
        },
    }
}

/// The outcome of generating the body Markdown of an entry.
pub open spec fn body_outcome(entry: DocsEntry, r: Result<String, BodyRenderError>) -> bool {
    let depth = route_depth(entry.route@);
    match entry.body {
        None => r matches Ok(s) && s@ == Seq::<char>::empty(),
        Some(b) => {
            let k = b.kind@;
            if k == "html"@ {
                match b.content@ {
                    JsonTree::Str(h) => match conv(h, depth) {
                        Ok(m) => r matches Ok(s) && s@ == without_title_heading(m, entry.title@) + "\n\n"@,
                        Err(_) => r matches Err(BodyRenderError::HtmlConversionError(e)) && conversion_outcome(
                            h,
                            depth,
                            Err(e),
                        ),
                    },
                    _ => r matches Err(BodyRenderError::SchemaError(SchemaError::InvalidContentType(m)))
                        && m@ == "Expected HTML string"@,
                }
            } else if k == "func"@ || k == "type"@ || k == "category"@ || k == "group"@ || k == "symbols"@ {
                match b.definition {
                    Definition::Func(f) => body_as(func_md(f, depth), depth, true, r),
                    Definition::Type(t) => match type_md(t, depth) {
                        Ok(x) => r matches Ok(s) && s@ == x + "\n\n"@,
                        Err(_) => r matches Err(BodyRenderError::BodyTypeRenderError(e)) && type_outcome(
                            t,
                            depth,
                            Err(e),
                        ),
                    },
                    Definition::Category(c) => body_as(category_md(c, depth), depth, false, r),
                    Definition::Group(g) => body_as(group_md(g, depth), depth, false, r),
                    Definition::Symbols(s) => body_as(symbols_md(s, depth), depth, false, r),
                    Definition::Invalid(m) => if k == "func"@ {
                        r matches Err(
                            BodyRenderError::FuncRenderError(crate::render_func::RenderError::JsonError(x)),
                        ) && x@ == m@
                    } else {
                        r matches Err(
                            BodyRenderError::BodyTypeRenderError(crate::render_bodies::RenderError::JsonError(x)),
                        ) && x@ == m@
                    },
                    Definition::Unread => false,
                }
            } else {
                r matches Ok(s) && s@ == "<!-- Unknown body kind: "@ + k + " -->\n\n"@
            }
        },
    }
}

/// The HTML that generating the body of an entry converts fits.
pub open spec fn body_fits(entry: DocsEntry) -> bool {
    let depth = route_depth(entry.route@);
    match entry.body {
        None => true,
        Some(b) => {
            &&& body_consistent(b)
            &&& (b.kind@ == "html"@ ==> match b.content@ {
                JsonTree::Str(h) => md_fits(h, depth),
                _ => true,
            })
            &&& match b.definition {
                Definition::Func(f) => func_fits(f, depth),
                Definition::Type(t) => type_fits(t, depth),
                Definition::Category(c) => details_fit(c.details, depth),
                Definition::Group(g) => details_fit(g.details, depth),
                Definition::Symbols(s) => details_fit(s.details, depth),
                _ => true,
            }
        },
    }
}

/// Generates the Markdown of an entry's body: HTML converted (without a
/// heading that repeats the title), definitions rendered, a comment for
/// unknown kinds; each followed by a blank line.
pub fn generate_body_markdown(entry: &DocsEntry) -> (r: Result<String, BodyRenderError>)
    requires
        body_fits(*entry),
    ensures
        body_outcome(*entry, r),
{
    let depth = page_depth(entry.route.as_str());
    proof {
        reveal_strlit("html");
        reveal_strlit("func");
        reveal_strlit("type");
        reveal_strlit("category");
        reveal_strlit("group");
        reveal_strlit("symbols");
        reveal_strlit("\n\n");
        reveal_strlit("<!-- Unknown body kind: ");
        reveal_strlit(" -->\n\n");
    }
    let mut md = String::new();
    match &entry.body {
        None => {},
        Some(body) => {
            let kind = body.kind.as_str();
            if crate::text::text_eq(kind, "html") {
                let html = match body.as_html() {
                    Ok(h) => h,
                    Err(e) => return Err(BodyRenderError::SchemaError(e)),
                };
                let converted = match crate::render_func::convert_html(html, depth) {
                    Ok(c) => c,
                    Err(crate::render_func::RenderError::HtmlConversionError(e)) => {
                        return Err(BodyRenderError::HtmlConversionError(e));
                    },
                    Err(crate::render_func::RenderError::JsonError(m)) => return Err(BodyRenderError::JsonError(m)),
                };
                let cleaned = remove_duplicate_heading(converted.as_str(), entry.title.as_str());
                md.append(cleaned.as_str());
                md.append("\n\n");
            } else if crate::text::text_eq(kind, "func") || crate::text::text_eq(kind, "type")
                || crate::text::text_eq(kind, "category") || crate::text::text_eq(kind, "group")
                || crate::text::text_eq(kind, "symbols") {
                let rendered = match &body.definition {
                    Definition::Func(f) => match render_func_body(f, depth) {
                        Ok(x) => x,
                        Err(e) => return Err(BodyRenderError::FuncRenderError(e)),
                    },
                    Definition::Type(t) => match render_type_body(t, depth) {
                        Ok(x) => x,
                        Err(e) => return Err(BodyRenderError::BodyTypeRenderError(e)),
                    },
                    Definition::Category(c) => match render_category_body(c, depth) {
                        Ok(x) => x,
                        Err(e) => return Err(BodyRenderError::BodyTypeRenderError(e)),
                    },
                    Definition::Group(g) => match render_group_body(g, depth) {
                        Ok(x) => x,
                        Err(e) => return Err(BodyRenderError::BodyTypeRenderError(e)),
                    },
                    Definition::Symbols(s) => match render_symbols_body(s, depth) {
                        Ok(x) => x,
                        Err(e) => return Err(BodyRenderError::BodyTypeRenderError(e)),
                    },
                    Definition::Invalid(m) => {
                        if crate::text::text_eq(kind, "func") {
                            return Err(
                                BodyRenderError::FuncRenderError(crate::render_func::RenderError::JsonError(m.clone())),
                            );
                        } else {
                            return Err(
                                BodyRenderError::BodyTypeRenderError(
                                    crate::render_bodies::RenderError::JsonError(m.clone()),
                                ),
                            );
                        }
                    },
                    Definition::Unread => {
                        assert(false);
                        return Ok(md);
                    },
                };
                md.append(rendered.as_str());
                md.append("\n\n");
            } else {
                md.append("<!-- Unknown body kind: ");
                md.append(kind);
                md.append(" -->\n\n");
            }
        },
    }
    Ok(md)
}

/// Markdown generation errors.
#[derive(Debug)]
pub enum GenerateError {
    RouteError(RouteError),
    FrontmatterError(FrontmatterError),
    BodyRenderError(BodyRenderError),
    /// I/O error: its message.
    IoError(String),
}

/// The content of an entry's Markdown file: the frontmatter (or the error of
/// writing it), then the body's Markdown (or the error of rendering it).
pub open spec fn entry_outcome(entry: DocsEntry, r: Result<String, GenerateError>) -> bool {
    match yaml_mapping(frontmatter_fields(entry.title@, opt_string_view(entry.description))) {
        Err(m) => r matches Err(GenerateError::FrontmatterError(FrontmatterError::YamlSerialization(x))) && x@ == m,
        Ok(y) => match r {
            Ok(s) => exists|b: String| body_outcome(entry, Ok(b)) && s@ == "---\n"@ + y + "---\n\n"@ + b@,
            Err(GenerateError::BodyRenderError(e)) => body_outcome(entry, Err(e)),
            Err(_) => false,
        },
    }
}

/// Converts an entry to the content of its Markdown file: YAML frontmatter,
/// then the body.
pub fn entry_to_markdown(entry: &DocsEntry) -> (r: Result<String, GenerateError>)
    requires
        body_fits(*entry),
    ensures
        entry_outcome(*entry, r),
{
    let description: Option<&str> = match &entry.description {
        Some(d) => Some(d.as_str()),
        None => None,
    };
    assert(opt_view(description) == opt_string_view(entry.description));
    let frontmatter = match generate_frontmatter(entry.title.as_str(), description) {
        Ok(f) => f,
        Err(e) => return Err(GenerateError::FrontmatterError(e)),
    };
    let body = match generate_body_markdown(entry) {
        Ok(b) => b,
        Err(e) => return Err(GenerateError::BodyRenderError(e)),
    };
    let mut s = frontmatter;
    s.append(body.as_str());
    Ok(s)
}

/// The view of an optional string.
pub open spec fn opt_string_view(d: Option<String>) -> Option<Seq<char>> {
    match d {
        Some(x) => Some(x@),
        None => None,
    }
}

/// Every HTML piece of a function definition fits: its details and example,
/// those of its parameters, and the details of its methods.
pub open spec fn func_all_fit(f: FuncContent, depth: nat) -> bool {
    &&& details_fit(f.details, depth)
    &&& details_fit(f.example, depth)
    &&& forall|i: int|
        0 <= i < f.params@.len() ==> details_fit(#[trigger] f.params@[i].details, depth) && details_fit(
            f.params@[i].example,
            depth,
        )
    &&& forall|j: int| 0 <= j < f.scope@.len() ==> details_fit(#[trigger] f.scope@[j].details, depth)
}

/// Every HTML piece of a type definition fits.
pub open spec fn type_all_fit(t: TypeContent, depth: nat) -> bool {
    &&& details_fit(t.details, depth)
    &&& match t.constructor {
        Some(f) => func_all_fit(f, depth),
        None => true,
    }
    &&& forall|j: int| 0 <= j < t.scope@.len() ==> details_fit(#[trigger] t.scope@[j].details, depth)
}

/// The body of the entry is consistent and every HTML piece it holds fits.
pub open spec fn body_all_fit(entry: DocsEntry) -> bool {
    let depth = route_depth(entry.route@);
    match entry.body {
        None => true,
        Some(b) => {
            &&& body_consistent(b)
            &&& (b.kind@ == "html"@ ==> match b.content@ {
                JsonTree::Str(h) => md_fits(h, depth),
                _ => true,
            })
            &&& match b.definition {
                Definition::Func(f) => func_all_fit(f, depth),
                Definition::Type(t) => type_all_fit(t, depth),
                Definition::Category(c) => details_fit(c.details, depth),
                Definition::Group(g) => details_fit(g.details, depth),
                Definition::Symbols(s) => details_fit(s.details, depth),
                _ => true,
            }
        },
    }
}

proof fn lemma_func_all_fit(f: FuncContent, depth: nat)
    requires
        func_all_fit(f, depth),
    ensures
        func_fits(f, depth),
{
    let pf = |p: crate::schema::ParamContent| param_md(p, depth);
    let pfits = |p: crate::schema::ParamContent| param_fits(p, depth);
    assert forall|i: int| 0 <= i < f.params@.len() implies #[trigger] pfits(f.params@[i]) by {
        assert(details_fit(f.params@[i].details, depth));
    }
    lemma_seq_fits_all(f.params@, pf, pfits);
    let mf = |m: FuncContent| method_md(m, depth);
    let mfits = |m: FuncContent| details_fit(m.details, depth);
    assert forall|j: int| 0 <= j < f.scope@.len() implies #[trigger] mfits(f.scope@[j]) by {
        assert(details_fit(f.scope@[j].details, depth));
    }
    lemma_seq_fits_all(f.scope@, mf, mfits);
}

proof fn lemma_type_all_fit(t: TypeContent, depth: nat)
    requires
        type_all_fit(t, depth),
    ensures
        type_fits(t, depth),
{
    match t.constructor {
        Some(f) => lemma_func_all_fit(f, depth),
        None => {},
    }
    let mf = |m: FuncContent| scoped_md(m, depth);
    let mfits = |m: FuncContent| details_fit(m.details, depth);
    assert forall|j: int| 0 <= j < t.scope@.len() implies #[trigger] mfits(t.scope@[j]) by {
        assert(details_fit(t.scope@[j].details, depth));
    }
    lemma_seq_fits_all(t.scope@, mf, mfits);
}

/// A body that is consistent and whose HTML pieces all fit can be generated.
pub proof fn lemma_body_all_fit(entry: DocsEntry)
    requires
        body_all_fit(entry),
    ensures
        body_fits(entry),
{
    let depth = route_depth(entry.route@);
    match entry.body {
        Some(b) => match b.definition {
            Definition::Func(f) => lemma_func_all_fit(f, depth),
            Definition::Type(t) => lemma_type_all_fit(t, depth),
            _ => {},
        },
        None => {},
    }
}

/// Whether the HTML piece fits: its converted tree has only tables that can
/// be laid out (pieces that are too large or unreadable are not converted).
pub fn html_piece_fits(h: &str, depth: usize) -> (r: bool)
    ensures
        r == md_fits(h@, depth as nat),
{
    if h.len() > MAX_HTML_SIZE {
        return true;
    }
    match crate::html_to_mdast::convert(h, depth) {
        Ok(m) => document_tables_fit(&m),
        Err(_) => true,
    }
}

/// Whether the HTML of a details field fits.
pub fn details_piece_fits(d: &Option<JsonValue>, depth: usize) -> (r: bool)
    ensures
        r == details_fit(*d, depth as nat),
{
    match d {
        Some(v) => {
            let h = crate::details::extract_html_from_details(v);
            if h.as_str().is_empty() {
                true
            } else {
                html_piece_fits(h.as_str(), depth)
            }
        },
        None => true,
    }
}

/// Whether every HTML piece of a function definition fits.
fn func_pieces_fit(f: &FuncContent, depth: usize) -> (r: bool)
    ensures
        r == func_all_fit(*f, depth as nat),
{
    if !details_piece_fits(&f.details, depth) || !details_piece_fits(&f.example, depth) {
        return false;
    }
    let mut i: usize = 0;
    while i < f.params.len()
        invariant
            i <= f.params@.len(),
            forall|k: int|
                0 <= k < i ==> details_fit(#[trigger] f.params@[k].details, depth as nat) && details_fit(
                    f.params@[k].example,
                    depth as nat,
                ),
        decreases f.params.len() - i,
    {
        if !details_piece_fits(&f.params[i].details, depth) || !details_piece_fits(&f.params[i].example, depth) {
            return false;
        }
        i = i + 1;
    }
    let mut j: usize = 0;
    while j < f.scope.len()
        invariant
            j <= f.scope@.len(),
            forall|k: int| 0 <= k < j ==> details_fit(#[trigger] f.scope@[k].details, depth as nat),
        decreases f.scope.len() - j,
    {
        if !details_piece_fits(&f.scope[j].details, depth) {
            return false;
        }
        j = j + 1;
    }
    true
}

/// Whether every HTML piece of a type definition fits.
fn type_pieces_fit(t: &TypeContent, depth: usize) -> (r: bool)
    ensures
        r == type_all_fit(*t, depth as nat),
{
    if !details_piece_fits(&t.details, depth) {
        return false;
    }
    match &t.constructor {
        Some(f) => {
            if !func_pieces_fit(f, depth) {
                return false;
            }
        },
        None => {},
    }
    let mut j: usize = 0;
    while j < t.scope.len()
        invariant
            j <= t.scope@.len(),
            forall|k: int| 0 <= k < j ==> details_fit(#[trigger] t.scope@[k].details, depth as nat),
        decreases t.scope.len() - j,
    {
        if !details_piece_fits(&t.scope[j].details, depth) {
            return false;
        }
        j = j + 1;
    }
    true
}

/// Whether a body's definition is what its kind names.
pub fn body_is_consistent(b: &Body) -> (r: bool)
    ensures
        r == body_consistent(*b),
{
    let k = b.kind.as_str();
    if crate::text::text_eq(k, "func") {
        matches!(b.definition, Definition::Func(_) | Definition::Invalid(_))
    } else if crate::text::text_eq(k, "type") {
        matches!(b.definition, Definition::Type(_) | Definition::Invalid(_))
    } else if crate::text::text_eq(k, "category") {
        matches!(b.definition, Definition::Category(_) | Definition::Invalid(_))
    } else if crate::text::text_eq(k, "group") {
        matches!(b.definition, Definition::Group(_) | Definition::Invalid(_))
    } else if crate::text::text_eq(k, "symbols") {
        matches!(b.definition, Definition::Symbols(_) | Definition::Invalid(_))
    } else {
        matches!(b.definition, Definition::Unread)
    }
}

/// Whether the body of the entry is consistent and every HTML piece it holds fits.
pub fn body_pieces_fit(entry: &DocsEntry) -> (r: bool)
    ensures
        r == body_all_fit(*entry),
{
    let depth = page_depth(entry.route.as_str());
    match &entry.body {
        None => true,
        Some(b) => {
            if !body_is_consistent(b) {
                return false;
            }
            proof { reveal_strlit("html"); }
            if crate::text::text_eq(b.kind.as_str(), "html") {
                match &b.content {
                    JsonValue::Str(h) => {
                        if !html_piece_fits(h.as_str(), depth) {
                            return false;
                        }
                    },
                    _ => {},
                }
            }
            match &b.definition {
                Definition::Func(f) => func_pieces_fit(f, depth),
                Definition::Type(t) => type_pieces_fit(t, depth),
                Definition::Category(c) => details_piece_fits(&c.details, depth),
                Definition::Group(g) => details_piece_fits(&g.details, depth),
                Definition::Symbols(s) => details_piece_fits(&s.details, depth),
                _ => true,
            }
        },
    }
}

/// [`generate_body_markdown`] on any entry: `None` where the body is not
/// consistent or holds an HTML piece with a table that cannot be laid out.
pub fn try_generate_body_markdown(entry: &DocsEntry) -> (r: Option<Result<String, BodyRenderError>>)
    ensures
        r is None <==> !body_all_fit(*entry),
        match r {
            Some(x) => body_outcome(*entry, x),
            None => !body_all_fit(*entry),
        },
{
    if !body_pieces_fit(entry) {
        return None;
    }
    proof { lemma_body_all_fit(*entry); }
    Some(generate_body_markdown(entry))
}

/// [`entry_to_markdown`] on any entry: `None` where the body is not
/// consistent or holds an HTML piece with a table that cannot be laid out.
pub fn try_entry_to_markdown(entry: &DocsEntry) -> (r: Option<Result<String, GenerateError>>)
    ensures
        r is None <==> !body_all_fit(*entry),
        match r {
            Some(x) => entry_outcome(*entry, x),
            None => !body_all_fit(*entry),
        },
{
    if !body_pieces_fit(entry) {
        return None;
    }
    proof { lemma_body_all_fit(*entry); }
    Some(entry_to_markdown(entry))
}

proof fn lemma_first_nonblank_bounds(ls: Seq<Seq<char>>, k: int)
    requires
        0 <= k,
    ensures
        k <= first_nonblank_from(ls, k) || first_nonblank_from(ls, k) == ls.len(),
        0 <= first_nonblank_from(ls, k) <= ls.len(),
    decreases ls.len() - k,
{
    if k < ls.len() && is_blank(ls[k]) {
        lemma_first_nonblank_bounds(ls, k + 1);
    }
}

proof fn lemma_first_nonblank_shift(x: Seq<char>, ls: Seq<Seq<char>>, j: int)
    requires
        is_blank(x) || j > 0,
        j >= 0,
    ensures
        first_nonblank_from(seq![x] + ls, j + 1) == first_nonblank_from(ls, j) + 1,
    decreases ls.len() - j,
{
    let l2 = seq![x] + ls;
    if j < ls.len() {
        assert(l2[j + 1] == ls[j]);
        if is_blank(ls[j]) {
            lemma_first_nonblank_shift(x, ls, j + 1);
        }
    }
}

/// Whether the first non-blank line of `content` repeats `title` as a
/// level-one heading.
spec fn leads_with_title(content: Seq<char>, title: Seq<char>) -> bool {
    let ls = lines_of(content);
    first_nonblank_from(ls, 0) < ls.len() && is_title_heading(trim_ws(ls[first_nonblank_from(ls, 0)]), title)
}

proof fn lemma_one_leading_newline(c: Seq<char>, title: Seq<char>)
    requires
        leads_with_title(c, title),
    ensures
        leads_with_title(seq!['\n'] + c, title),
        without_title_heading(seq!['\n'] + c, title) == without_title_heading(c, title),
{
    crate::text::lemma_lines_of_leading_newline(c);
    let ls = lines_of(c);
    let l2 = lines_of(seq!['\n'] + c);
    let e = Seq::<char>::empty();
    assert(is_blank(e));
    assert(l2 == seq![e] + ls);
    assert(first_nonblank_from(l2, 0) == first_nonblank_from(l2, 1));
    lemma_first_nonblank_shift(e, ls, 0);
    let i = first_nonblank_from(ls, 0);
    lemma_first_nonblank_bounds(ls, 0);
    assert(l2[i + 1] == ls[i]);
    lemma_first_nonblank_shift(e, ls, i + 1);
    let j = first_nonblank_from(ls, i + 1);
    lemma_first_nonblank_bounds(ls, i + 1);
    assert(l2.skip(j + 1) =~= ls.skip(j));
}

/// Leading blank lines do not matter: when the first line of `c` is the
/// level-one heading that repeats `title`, removing the duplicate heading from
/// `c` preceded by any number of line feeds gives the same text as removing it
/// from `c`, so neither result keeps that heading.
pub proof fn lemma_leading_blank_lines_ignored(c: Seq<char>, title: Seq<char>, k: nat)
    requires
        lines_of(c).len() > 0,
        is_title_heading(trim_ws(lines_of(c)[0]), title),
    ensures
        without_title_heading(crate::text::repeat("\n"@, k) + c, title) == without_title_heading(c, title),
    decreases k,
{
    reveal_strlit("\n");
    reveal_strlit("# ");
    let ls = lines_of(c);
    assert(!is_blank(ls[0])) by {
        assert(trim_ws(ls[0]).subrange(0, 2) == "# "@);
    }
    assert(first_nonblank_from(ls, 0) == 0);
    assert(leads_with_title(c, title));
    lemma_leading_newlines(c, title, k);
}

proof fn lemma_leading_newlines(c: Seq<char>, title: Seq<char>, k: nat)
    requires
        leads_with_title(c, title),
    ensures
        leads_with_title(crate::text::repeat("\n"@, k) + c, title),
        without_title_heading(crate::text::repeat("\n"@, k) + c, title) == without_title_heading(c, title),
    decreases k,
{
    reveal_strlit("\n");
    if k == 0 {
        assert(crate::text::repeat("\n"@, k) + c =~= c);
    } else {
        lemma_one_leading_newline(c, title);
        let c2 = seq!['\n'] + c;
        lemma_leading_newlines(c2, title, (k - 1) as nat);
        assert(crate::text::repeat("\n"@, k) + c =~= crate::text::repeat("\n"@, (k - 1) as nat) + c2);
    }
}

} // verus!
