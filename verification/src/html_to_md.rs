//! HTML to Markdown: the HTML of a documentation page is parsed, converted
//! into an mdast tree and rendered; where rendering fails, the plain text of
//! the tree is used instead.

use vstd::prelude::*;
use crate::compositor::{byte_len, composed, join_strings, rows_fit};
use crate::composite::{child_piece, create_composite_renderer, renderable, renderable_child, render_outcome};
use crate::html::html_document;
use crate::html_to_mdast::{all_top_blocks, is_top_block, lemma_document_blocks, mdast_of};
use crate::mdast::{lemma_md_views_len, md_views, MdNode, MdTree};
use crate::render::{lemma_strs_push, strs, MdRender, RenderResult};
use crate::table::{table_rows, StructuralTableRenderer};
use crate::text::{decimal, join, push_char, push_decimal, repeat};

verus! {

/// The largest HTML page that is converted, in bytes.
pub const MAX_HTML_SIZE: usize = 5_000_000;

/// Errors of the conversion.
#[derive(Debug)]
pub enum ConversionError {
    /// The HTML is larger than [`MAX_HTML_SIZE`]; its size in bytes.
    HtmlTooLarge(usize),
    /// The HTML could not be parsed.
    HtmlToMdastError(crate::html_to_mdast::ConversionError),
}

/// `s` with each line feed followed by `> `.
pub open spec fn quote_breaks(s: Seq<char>) -> Seq<char>
    decreases s.len(),
{
    if s.len() == 0 {
        Seq::empty()
    } else {
        quote_breaks(s.drop_last()) + if s.last() == '\n' {
            "\n> "@
        } else {
            seq![s.last()]
        }
    }
}

/// The plain texts of the nodes.
pub open spec fn plain_texts(s: Seq<MdTree>) -> Seq<Seq<char>>
    decreases s,
{
    if s.len() == 0 {
        Seq::empty()
    } else {
        plain_texts(s.drop_last()).push(plain_text(s.last()))
    }
}

/// The lines of a list: each item's plain text after `- ` or its number.
pub open spec fn plain_list_lines(ordered: bool, s: Seq<MdTree>) -> Seq<Seq<char>>
    decreases s,
{
    if s.len() == 0 {
        Seq::empty()
    } else {
        let bullet = if ordered {
            decimal(s.len()) + ". "@
        } else {
            "- "@
        };
        plain_list_lines(ordered, s.drop_last()).push(bullet + plain_text(s.last()))
    }
}

/// The plain text of a node, with light Markdown marks: the fallback when
/// rendering fails.
pub open spec fn plain_text(t: MdTree) -> Seq<char>
    decreases t,
{
    match t {
        MdTree::Root(k) => join(plain_texts(k), "\n\n"@),
        MdTree::Paragraph(k) => join(plain_texts(k), ""@),
        MdTree::Text(v) => v,
        MdTree::Heading(d, k) => repeat("#"@, d as nat) + " "@ + join(plain_texts(k), ""@),
        MdTree::Code(v, _) => "```\n"@ + v + "\n```"@,
        MdTree::InlineCode(v) => "`"@ + v + "`"@,
        MdTree::Link(url, k) => "["@ + join(plain_texts(k), ""@) + "]("@ + url + ")"@,
        MdTree::List(ordered, _, k) => join(plain_list_lines(ordered, k), "\n"@),
        MdTree::ListItem(k) => join(plain_texts(k), ""@),
        MdTree::Blockquote(k) => "> "@ + quote_breaks(join(plain_texts(k), "\n"@)),
        MdTree::Emphasis(k) => "*"@ + join(plain_texts(k), ""@) + "*"@,
        MdTree::Strong(k) => "**"@ + join(plain_texts(k), ""@) + "**"@,
        MdTree::Table(_, k) => join(plain_texts(k), "\n"@),
        MdTree::TableRow(k) => join(plain_texts(k), " | "@),
        MdTree::TableCell(k) => join(plain_texts(k), ""@),
        MdTree::Break => Seq::empty(),
        MdTree::ThematicBreak => Seq::empty(),
    }
}

/// Appends `s` with each line feed followed by `> `.
fn push_quote_breaks(out: &mut String, s: &str)
    ensures
        final(out)@ == old(out)@ + quote_breaks(s@),
{
    let cs = crate::text::chars_of(s);
    let ghost start = out@;
    let mut i: usize = 0;
    proof { reveal_strlit("\n> "); }
    while i < cs.len()
        invariant
            cs@ == s@,
            i <= cs@.len(),
            out@ == start + quote_breaks(cs@.take(i as int)),
        decreases cs.len() - i,
    {
        assert(cs@.take(i + 1).drop_last() =~= cs@.take(i as int));
        if cs[i] == '\n' {
            out.append("\n> ");
        } else {
            push_char(out, cs[i]);
        }
        i = i + 1;
        assert(out@ =~= start + quote_breaks(cs@.take(i as int)));
    }
    assert(cs@.take(cs@.len() as int) =~= s@);
}

/// The plain texts of the nodes.
fn plain_texts_of(ns: &Vec<MdNode>) -> (r: Vec<String>)
    ensures
        strs(r@) == plain_texts(md_views(ns@)),
    decreases ns,
{
    let mut r: Vec<String> = Vec::new();
    let mut i: usize = 0;
    while i < ns.len()
        invariant
            i <= ns@.len(),
            strs(r@) == plain_texts(md_views(ns@.take(i as int))),
        decreases ns.len() - i,
    {
        proof { crate::mdast::lemma_md_views_step(ns@, i as int); }
        let t = extract_plain_text(&ns[i]);
        let ghost before = r@;
        r.push(t);
        proof { lemma_strs_push(before, t); }
        i = i + 1;
    }
    proof { crate::mdast::lemma_md_views_full(ns@); }
    r
}

/// The lines of a plain list.
fn plain_list_lines_of(ordered: bool, ns: &Vec<MdNode>) -> (r: Vec<String>)
    ensures
        strs(r@) == plain_list_lines(ordered, md_views(ns@)),
    decreases ns,
{
    let mut r: Vec<String> = Vec::new();
    let mut i: usize = 0;
    proof { reveal_strlit(". "); reveal_strlit("- "); }
    while i < ns.len()
        invariant
            i <= ns@.len(),
            strs(r@) == plain_list_lines(ordered, md_views(ns@.take(i as int))),
        decreases ns.len() - i,
    {
        proof {
            crate::mdast::lemma_md_views_step(ns@, i as int);
            lemma_md_views_len(ns@.take(i + 1));
        }
        let mut line = String::new();
        if ordered {
            push_decimal(&mut line, (i + 1) as u128);
            line.append(". ");
        } else {
            line.append("- ");
        }
        let t = extract_plain_text(&ns[i]);
        line.append(t.as_str());
        let ghost before = r@;
        r.push(line);
        proof { lemma_strs_push(before, line); }
        i = i + 1;
    }
    proof { crate::mdast::lemma_md_views_full(ns@); }
    r
}

/// The plain text of a node (see [`plain_text`]).
pub fn extract_plain_text(node: &MdNode) -> (r: String)
    ensures
        r@ == plain_text(node@),
    decreases node,
{
    proof {
        reveal_strlit("\n\n");
        reveal_strlit("");
        reveal_strlit("#");
        reveal_strlit(" ");
        reveal_strlit("```\n");
        reveal_strlit("\n```");
        reveal_strlit("`");
        reveal_strlit("[");
        reveal_strlit("](");
        reveal_strlit(")");
        reveal_strlit("\n");
        reveal_strlit("> ");
        reveal_strlit("*");
        reveal_strlit("**");
        reveal_strlit(" | ");
    }
    match node {
        MdNode::Root { children } => join_strings(&plain_texts_of(children), "\n\n"),
        MdNode::Paragraph { children } => join_strings(&plain_texts_of(children), ""),
        MdNode::Text { value } => value.clone(),
        MdNode::Heading { depth, children } => {
            let mut r = String::new();
            crate::text::push_repeat(&mut r, "#", *depth as usize);
            r.append(" ");
            r.append(join_strings(&plain_texts_of(children), "").as_str());
            r
        },
        MdNode::Code { value, .. } => {
            let mut r = String::new();
            r.append("```\n");
            r.append(value.as_str());
            r.append("\n```");
            r
        },
        MdNode::InlineCode { value } => {
            let mut r = String::new();
            r.append("`");
            r.append(value.as_str());
            r.append("`");
            r
        },
        MdNode::Link { url, children } => {
            let mut r = String::new();
            r.append("[");
            r.append(join_strings(&plain_texts_of(children), "").as_str());
            r.append("](");
            r.append(url.as_str());
            r.append(")");
            r
        },
        MdNode::List { ordered, children, .. } => join_strings(&plain_list_lines_of(*ordered, children), "\n"),
        MdNode::ListItem { children } => join_strings(&plain_texts_of(children), ""),
        MdNode::Blockquote { children } => {
            let inner = join_strings(&plain_texts_of(children), "\n");
            let mut r = String::new();
            r.append("> ");
            push_quote_breaks(&mut r, inner.as_str());
            r
        },
        MdNode::Emphasis { children } => {
            let mut r = String::new();
            r.append("*");
            r.append(join_strings(&plain_texts_of(children), "").as_str());
            r.append("*");
            r
        },
        MdNode::Strong { children } => {
            let mut r = String::new();
            r.append("**");
            r.append(join_strings(&plain_texts_of(children), "").as_str());
            r.append("**");
            r
        },
        MdNode::Table { children, .. } => join_strings(&plain_texts_of(children), "\n"),
        MdNode::TableRow { children } => join_strings(&plain_texts_of(children), " | "),
        MdNode::TableCell { children } => join_strings(&plain_texts_of(children), ""),
        MdNode::Break => String::new(),
        MdNode::ThematicBreak => String::new(),
    }
}

/// Every table among the root's children has no row longer than its first.
pub open spec fn tables_fit(t: MdTree) -> bool {
    match t {
        MdTree::Root(k) => forall|i: int|
            0 <= i < k.len() ==> (#[trigger] k[i] matches MdTree::Table(_, rows) ==> rows_fit(table_rows(rows))),
        _ => true,
    }
}

/// The Markdown of a converted document: the composition of the rendered
/// children when all render, else the plain text of the tree.
pub open spec fn document_markdown(t: MdTree) -> Seq<char> {
    match t {
        MdTree::Root(k) => if forall|i: int| 0 <= i < k.len() ==> #[trigger] child_piece(k[i]) is Some {
            composed(Seq::new(k.len(), |i: int| child_piece(k[i])->0))
        } else {
            plain_text(t)
        },
        _ => plain_text(t),
    }
}

/// HTML whose converted tree has only tables that can be laid out (a table
/// with a row longer than its first has no column width for the extra cells).
pub open spec fn html_fits(html: Seq<char>, depth: nat) -> bool {
    match html_document(html) {
        Ok(doc) => tables_fit(mdast_of(doc, depth)),
        Err(_) => true,
    }
}

/// What converting `html` gives, on HTML that fits.
pub open spec fn conversion_outcome(html: Seq<char>, depth: nat, r: Result<String, ConversionError>) -> bool {
    if byte_len(html) > MAX_HTML_SIZE {
        r matches Err(ConversionError::HtmlTooLarge(n)) && n == byte_len(html)
    } else {
        match html_document(html) {
            Ok(doc) => r matches Ok(s) && s@ == document_markdown(mdast_of(doc, depth)),
            Err(m) => r matches Err(
                ConversionError::HtmlToMdastError(crate::html_to_mdast::ConversionError::ParseError(x)),
            ) && x@ == m,
        }
    }
}

/// Rendering failures never surface as errors: a conversion fails only for
/// HTML over the size limit or HTML that cannot be read, and a document whose
/// rendering fails comes out as its plain text.
pub proof fn lemma_conversion_fails_only_on_input(html: Seq<char>, depth: nat, r: Result<String, ConversionError>)
    requires
        conversion_outcome(html, depth, r),
    ensures
        r is Err ==> byte_len(html) > MAX_HTML_SIZE || html_document(html) is Err,
        byte_len(html) <= MAX_HTML_SIZE && html_document(html) is Ok ==> {
            let t = mdast_of(html_document(html)->Ok_0, depth);
            r matches Ok(s) && s@ == (if t matches MdTree::Root(k) && forall|i: int|
                0 <= i < k.len() ==> #[trigger] child_piece(k[i]) is Some {
                document_markdown(t)
            } else {
                plain_text(t)
            })
        },
{
}

proof fn lemma_renderable_document(t: MdTree)
    requires
        t is Root,
        all_top_blocks(t->Root_0),
        tables_fit(t),
    ensures
        renderable(t),
{
    let k = t->Root_0;
    assert forall|i: int| 0 <= i < k.len() implies renderable_child(#[trigger] k[i]) by {
        assert(is_top_block(k[i]));
        if k[i] matches MdTree::Code(v, None) {
            assert(crate::standard::markdown_writable(k[i]));
        }
    }
}

/// Renders a converted document; falls back to its plain text when rendering
/// fails.
pub fn render_document(mdast: &MdNode) -> (r: String)
    requires
        mdast@ is Root,
        all_top_blocks(mdast@->Root_0),
        tables_fit(mdast@),
    ensures
        r@ == document_markdown(mdast@),
{
    proof { lemma_renderable_document(mdast@); }
    let renderer = create_composite_renderer();
    match renderer.render(mdast) {
        Ok(md) => md,
        Err(_) => extract_plain_text(mdast),
    }
}

/// Whether every table among the root's children has no row longer than its first.
pub fn document_tables_fit(mdast: &MdNode) -> (r: bool)
    ensures
        r == tables_fit(mdast@),
{
    match mdast {
        MdNode::Root { children } => {
            proof { lemma_md_views_len(children@); }
            let ghost k = md_views(children@);
            let renderer = StructuralTableRenderer::new();
            assert(mdast@ == MdTree::Root(k));
            let mut i: usize = 0;
            while i < children.len()
                invariant
                    mdast@ == MdTree::Root(k),
                    k == md_views(children@),
                    k.len() == children@.len(),
                    forall|j: int| 0 <= j < children@.len() ==> #[trigger] k[j] == children@[j]@,
                    i <= children@.len(),
                    forall|j: int|
                        0 <= j < i ==> (#[trigger] k[j] matches MdTree::Table(_, rows) ==> rows_fit(table_rows(rows))),
                decreases children.len() - i,
            {
                assert(k[i as int] == children@[i as int]@);
                match &children[i] {
                    MdNode::Table { .. } => {
                        match renderer.render(&children[i]) {
                            Ok(RenderResult::Table { rows, .. }) => {
                                if !rows_within_first(&rows) {
                                    assert(mdast@ == MdTree::Root(k));
                                    assert(k[i as int] matches MdTree::Table(_, trs) && !rows_fit(table_rows(trs)));
                                    return false;
                                }
                            },
                            _ => {},
                        }
                    },
                    _ => {},
                }
                i = i + 1;
            }
            assert(mdast@ == MdTree::Root(k));
            true
        },
        _ => true,
    }
}

/// Whether no row is longer than the first.
fn rows_within_first(rows: &Vec<Vec<String>>) -> (r: bool)
    ensures
        r == rows_fit(rows@.map_values(|x: Vec<String>| strs(x@))),
{
    let ghost rs = rows@.map_values(|x: Vec<String>| strs(x@));
    if rows.len() == 0 {
        return true;
    }
    let first = rows[0].len();
    let mut i: usize = 0;
    while i < rows.len()
        invariant
            rs == rows@.map_values(|x: Vec<String>| strs(x@)),
            rows@.len() > 0,
            first == rs[0].len(),
            i <= rows@.len(),
            forall|j: int| 0 <= j < i ==> #[trigger] rs[j].len() <= rs[0].len(),
        decreases rows.len() - i,
    {
        assert(rs[i as int].len() == rows@[i as int]@.len());
        if rows[i].len() > first {
            return false;
        }
        i = i + 1;
    }
    true
}

/// Converts the HTML of a documentation page into Markdown, with links
/// rewritten for a page `depth` directories below the docs root. Pages larger
/// than [`MAX_HTML_SIZE`] bytes are refused.
pub fn convert(html: &str, depth: usize) -> (r: Result<String, ConversionError>)
    requires
        byte_len(html@) <= MAX_HTML_SIZE ==> html_fits(html@, depth as nat),
    ensures
        conversion_outcome(html@, depth as nat, r),
{
    if html.len() > MAX_HTML_SIZE {
        return Err(ConversionError::HtmlTooLarge(html.len()));
    }
    match crate::html_to_mdast::convert(html, depth) {
        Ok(mdast) => {
            proof { lemma_document_blocks(crate::html::html_document(html@)->Ok_0, depth as nat); }
            Ok(render_document(&mdast))
        },
        Err(e) => Err(ConversionError::HtmlToMdastError(e)),
    }
}

/// [`convert`] on any HTML: `None` where the converted page holds a table
/// with a row longer than its first, which cannot be laid out.
pub fn try_convert(html: &str, depth: usize) -> (r: Option<Result<String, ConversionError>>)
    ensures
        match r {
            Some(c) => conversion_outcome(html@, depth as nat, c),
            None => byte_len(html@) <= MAX_HTML_SIZE && !html_fits(html@, depth as nat),
        },
{
    if html.len() > MAX_HTML_SIZE {
        return Some(Err(ConversionError::HtmlTooLarge(html.len())));
    }
    match crate::html_to_mdast::convert(html, depth) {
        Ok(mdast) => {
            proof { lemma_document_blocks(crate::html::html_document(html@)->Ok_0, depth as nat); }
            if !document_tables_fit(&mdast) {
                return None;
            }
            Some(Ok(render_document(&mdast)))
        },
        Err(e) => Some(Err(ConversionError::HtmlToMdastError(e))),
    }
}

/// How many times `c` occurs in `s`.
pub open spec fn count_char(s: Seq<char>, c: char) -> nat
    decreases s.len(),
{
    if s.len() == 0 {
        0
    } else {
        count_char(s.drop_last(), c) + if s.last() == c { 1nat } else { 0nat }
    }
}

/// A line feed is followed by `> `.
pub open spec fn quoted_after_breaks(q: Seq<char>) -> bool {
    forall|i: int| 0 <= i < q.len() && #[trigger] q[i] == '\n' ==> i + 2 < q.len() && q[i + 1] == '>' && q[i + 2] == ' '
}

proof fn lemma_quote_breaks_shape(s: Seq<char>)
    ensures
        quoted_after_breaks(quote_breaks(s)),
        quote_breaks(s).len() == s.len() + 2 * count_char(s, '\n'),
        count_char(quote_breaks(s), '\n') == count_char(s, '\n'),
    decreases s.len(),
{
    reveal_strlit("\n> ");
    if s.len() > 0 {
        let q0 = quote_breaks(s.drop_last());
        lemma_quote_breaks_shape(s.drop_last());
        let t = if s.last() == '\n' { "\n> "@ } else { seq![s.last()] };
        let q = quote_breaks(s);
        assert(q == q0 + t);
        assert forall|i: int| 0 <= i < q.len() && #[trigger] q[i] == '\n' implies i + 2 < q.len() && q[i + 1] == '>'
            && q[i + 2] == ' ' by {
            if i < q0.len() {
                assert(q0[i] == '\n');
            }
        }
        lemma_count_append(q0, t, '\n');
        if s.last() == '\n' {
            assert(t =~= seq!['\n', '>', ' ']);
            assert(count_char(t, '\n') == 1) by {
                reveal_with_fuel(count_char, 4);
                assert(t.drop_last() =~= seq!['\n', '>']);
                assert(t.drop_last().drop_last() =~= seq!['\n']);
                assert(t.drop_last().drop_last().drop_last() =~= Seq::<char>::empty());
            }
        } else {
            assert(t.drop_last() =~= Seq::<char>::empty());
            assert(count_char(t, '\n') == 0) by {
                reveal_with_fuel(count_char, 2);
            }
        }
    }
}

proof fn lemma_count_append(a: Seq<char>, b: Seq<char>, c: char)
    ensures
        count_char(a + b, c) == count_char(a, c) + count_char(b, c),
    decreases b.len(),
{
    if b.len() > 0 {
        lemma_count_append(a, b.drop_last(), c);
        assert((a + b).drop_last() =~= a + b.drop_last());
    } else {
        assert(a + b =~= a);
    }
}

/// The plain text of a block quote quotes every line: it begins with `> `,
/// every line feed in it is followed by `> `, and it holds the line feeds of
/// the newline-joined texts of its children and two more characters for each
/// of them and for the opening `> `.
pub proof fn lemma_blockquote_quotes_every_line(k: Seq<MdTree>)
    ensures
        crate::text::has_prefix(plain_text(MdTree::Blockquote(k)), "> "@),
        quoted_after_breaks(plain_text(MdTree::Blockquote(k))),
        count_char(plain_text(MdTree::Blockquote(k)), '\n') == count_char(join(plain_texts(k), "\n"@), '\n'),
        plain_text(MdTree::Blockquote(k)).len() == 2 + join(plain_texts(k), "\n"@).len() + 2 * count_char(
            join(plain_texts(k), "\n"@),
            '\n',
        ),
{
    reveal_strlit("> ");
    let inner = join(plain_texts(k), "\n"@);
    let q = quote_breaks(inner);
    let r = plain_text(MdTree::Blockquote(k));
    lemma_quote_breaks_shape(inner);
    assert(r == "> "@ + q);
    assert(r.subrange(0, 2) =~= "> "@);
    assert forall|i: int| 0 <= i < r.len() && #[trigger] r[i] == '\n' implies i + 2 < r.len() && r[i + 1] == '>'
        && r[i + 2] == ' ' by {
        assert(i >= 2);
        assert(r[i] == q[i - 2]);
    }
    lemma_count_append("> "@, q, '\n');
    assert(count_char("> "@, '\n') == 0) by {
        reveal_with_fuel(count_char, 3);
        assert("> "@.drop_last() =~= seq!['>']);
        assert("> "@.drop_last().drop_last() =~= Seq::<char>::empty());
    }
}

} // verus!
