//! Rendering of mdast nodes to Markdown lines: inline content, paragraphs,
//! headings, lists and block quotes.

use vstd::prelude::*;
use crate::mdast::{
    lemma_md_views_full, lemma_md_views_len, lemma_md_views_step, md_view, md_views, ColumnAlign, MdNode,
    MdTree,
};
use crate::text::{decimal, has_prefix, push_char, push_decimal, push_repeat, repeat};

verus! {

/// The views of a sequence of strings.
pub open spec fn strs(v: Seq<String>) -> Seq<Seq<char>> {
    v.map_values(|s: String| s@)
}

/// What a renderer produces, before composition into final text.
#[derive(Debug)]
pub enum RenderResult {
    /// Inline content (no block spacing).
    Inline(String),
    /// Block content as lines.
    Block(Vec<String>),
    /// A table as rows of rendered cells, with column alignments.
    Table { rows: Vec<Vec<String>>, align: Vec<ColumnAlign> },
}

/// The mathematical form of a [`RenderResult`].
pub enum Rendered {
    Inline(Seq<char>),
    Block(Seq<Seq<char>>),
    Table(Seq<Seq<Seq<char>>>, Seq<ColumnAlign>),
}

impl View for RenderResult {
    type V = Rendered;

    open spec fn view(&self) -> Rendered {
        match self {
            RenderResult::Inline(s) => Rendered::Inline(s@),
            RenderResult::Block(lines) => Rendered::Block(strs(lines@)),
            RenderResult::Table { rows, align } => Rendered::Table(
                rows@.map_values(|r: Vec<String>| strs(r@)),
                align@,
            ),
        }
    }
}

/// Rendering errors.
#[derive(Debug)]
pub enum RenderError {
    /// The delegated standard rendering failed.
    StandardFailed(String),
    /// The renderer does not handle this node type.
    UnsupportedNode(String),
    /// The table has no rows.
    InvalidTable(String),
}

/// The display text of a rendering error.
pub open spec fn render_error_text(e: RenderError) -> Seq<char> {
    match e {
        RenderError::StandardFailed(m) => "Standard rendering failed: "@ + m@,
        RenderError::UnsupportedNode(m) => "Unsupported node type: "@ + m@,
        RenderError::InvalidTable(m) => "Invalid table structure: "@ + m@,
    }
}

impl RenderError {
    /// The error's message, as it is displayed.
    pub fn message(&self) -> (r: String)
        ensures
            r@ == render_error_text(*self),
    {
        let (prefix, m) = match self {
            RenderError::StandardFailed(m) => ("Standard rendering failed: ", m),
            RenderError::UnsupportedNode(m) => ("Unsupported node type: ", m),
            RenderError::InvalidTable(m) => ("Invalid table structure: ", m),
        };
        let mut r = prefix.to_owned();
        r.append(m.as_str());
        r
    }
}

/// A renderer of mdast nodes.
pub trait MdRender {
    /// Renders one node.
    fn render(&self, node: &MdNode) -> Result<RenderResult, RenderError>;
}

/// Markdown text of an inline node: text as is, `*emphasis*`, `**strong**`,
/// `[text](url)` links and `` `code` ``; other nodes give nothing.
pub open spec fn inline_md(t: MdTree) -> Seq<char>
    decreases t,
{
    match t {
        MdTree::Text(v) => v,
        MdTree::Emphasis(k) => "*"@ + inline_seq(k) + "*"@,
        MdTree::Strong(k) => "**"@ + inline_seq(k) + "**"@,
        MdTree::Link(url, k) => "["@ + inline_seq(k) + "]("@ + url + ")"@,
        MdTree::InlineCode(v) => "`"@ + v + "`"@,
        _ => Seq::empty(),
    }
}

/// Concatenated inline Markdown of a sequence of nodes.
pub open spec fn inline_seq(s: Seq<MdTree>) -> Seq<char>
    decreases s,
{
    if s.len() == 0 {
        Seq::empty()
    } else {
        inline_seq(s.drop_last()) + inline_md(s.last())
    }
}

/// Appends the inline Markdown of `n`.
pub fn push_inline(out: &mut String, n: &MdNode)
    ensures
        final(out)@ == old(out)@ + inline_md(n@),
    decreases n,
{
    proof {
        reveal_strlit("*");
        reveal_strlit("**");
        reveal_strlit("[");
        reveal_strlit("](");
        reveal_strlit(")");
        reveal_strlit("`");
    }
    match n {
        MdNode::Text { value } => {
            out.append(value.as_str());
        },
        MdNode::Emphasis { children } => {
            out.append("*");
            push_inline_seq(out, children);
            out.append("*");
        },
        MdNode::Strong { children } => {
            out.append("**");
            push_inline_seq(out, children);
            out.append("**");
        },
        MdNode::Link { url, children } => {
            out.append("[");
            push_inline_seq(out, children);
            out.append("](");
            out.append(url.as_str());
            out.append(")");
        },
        MdNode::InlineCode { value } => {
            out.append("`");
            out.append(value.as_str());
            out.append("`");
        },
        _ => {},
    }
}

/// Appends the inline Markdown of each node of `ns`.
pub fn push_inline_seq(out: &mut String, ns: &Vec<MdNode>)
    ensures
        final(out)@ == old(out)@ + inline_seq(md_views(ns@)),
    decreases ns,
{
    let ghost start = out@;
    let mut i: usize = 0;
    while i < ns.len()
        invariant
            i <= ns@.len(),
            out@ == start + inline_seq(md_views(ns@.take(i as int))),
        decreases ns.len() - i,
    {
        assert(decreases_to!(ns => ns@[i as int]));
        push_inline(out, &ns[i]);
        proof {
            let prev = md_views(ns@.take(i as int));
            assert(ns@.take(i + 1).drop_last() =~= ns@.take(i as int));
            assert(md_views(ns@.take(i + 1)) == prev.push(md_view(ns@[i as int])));
            assert(prev.push(md_view(ns@[i as int])).drop_last() =~= prev);
        }
        i = i + 1;
    }
    assert(ns@.take(ns@.len() as int) =~= ns@);
}


/// `s` followed by one more string.
pub proof fn lemma_strs_push(s: Seq<String>, x: String)
    ensures
        strs(s.push(x)) == strs(s).push(x@),
{
    assert(strs(s.push(x)) =~= strs(s).push(x@));
}

/// A new string holding the inline Markdown of `ns`.
pub fn inline_text(ns: &Vec<MdNode>) -> (r: String)
    ensures
        r@ == inline_seq(md_views(ns@)),
{
    let mut r = String::new();
    push_inline_seq(&mut r, ns);
    assert(r@ =~= inline_seq(md_views(ns@)));
    r
}

/// A heading line: `depth` hash marks, a space, then the inline content.
pub open spec fn heading_line(depth: u8, k: Seq<MdTree>) -> Seq<char> {
    repeat("#"@, depth as nat) + " "@ + inline_seq(k)
}

fn heading_text(depth: u8, children: &Vec<MdNode>) -> (r: String)
    ensures
        r@ == heading_line(depth, md_views(children@)),
{
    let mut r = String::new();
    push_repeat(&mut r, "#", depth as usize);
    proof { reveal_strlit(" "); }
    r.append(" ");
    push_inline_seq(&mut r, children);
    assert(r@ =~= heading_line(depth, md_views(children@)));
    r
}

/// Lines of a list item: a paragraph gives one line, a nested list its lines
/// (rendered at indent level 1); other children give nothing.
pub open spec fn item_lines(cs: Seq<MdTree>) -> Seq<Seq<char>>
    decreases cs,
{
    if cs.len() == 0 {
        Seq::empty()
    } else {
        item_lines(cs.drop_last()) + child_lines(cs.last())
    }
}

/// Lines contributed by one child of a list item.
pub open spec fn child_lines(c: MdTree) -> Seq<Seq<char>>
    decreases c,
{
    match c {
        MdTree::Paragraph(k) => seq![inline_seq(k)],
        MdTree::List(ordered, start, items) => list_lines(ordered, start, items, 1),
        _ => Seq::empty(),
    }
}

/// The marker of the list entry at `index`: indentation, then `N. ` for ordered
/// lists (numbered from `start`, default 1) or `- `.
pub open spec fn bullet(ordered: bool, start: Option<u32>, index: nat, indent: nat) -> Seq<char> {
    repeat("  "@, indent) + if ordered {
        decimal(
            (match start {
                Some(s) => s as nat,
                None => 1nat,
            }) + index,
        ) + ". "@
    } else {
        "- "@
    }
}

/// Continuation lines of an entry: lines already indented by two spaces get the
/// list indentation, others the indentation and two spaces.
pub open spec fn indent_rest(ls: Seq<Seq<char>>, indent: nat) -> Seq<Seq<char>> {
    ls.map_values(
        |l: Seq<char>|
            if has_prefix(l, "  "@) {
                repeat("  "@, indent) + l
            } else {
                repeat("  "@, indent) + "  "@ + l
            },
    )
}

/// Lines of the list entry `item` at position `index`.
pub open spec fn entry_lines(ordered: bool, start: Option<u32>, item: MdTree, index: nat, indent: nat) -> Seq<Seq<char>>
    decreases item,
{
    match item {
        MdTree::ListItem(k) => {
            let il = item_lines(k);
            if il.len() == 0 {
                Seq::empty()
            } else {
                seq![bullet(ordered, start, index, indent) + il[0]] + indent_rest(il.skip(1), indent)
            }
        },
        _ => Seq::empty(),
    }
}

/// Lines of a list at indentation level `indent`.
pub open spec fn list_lines(ordered: bool, start: Option<u32>, items: Seq<MdTree>, indent: nat) -> Seq<Seq<char>>
    decreases items,
{
    if items.len() == 0 {
        Seq::empty()
    } else {
        list_lines(ordered, start, items.drop_last(), indent) + entry_lines(
            ordered,
            start,
            items.last(),
            (items.len() - 1) as nat,
            indent,
        )
    }
}

fn push_bullet(out: &mut String, ordered: bool, start: Option<u32>, index: usize, indent: usize)
    ensures
        final(out)@ == old(out)@ + bullet(ordered, start, index as nat, indent as nat),
{
    let ghost before = out@;
    push_repeat(out, "  ", indent);
    proof {
        reveal_strlit(". ");
        reveal_strlit("- ");
    }
    if ordered {
        let s: u128 = match start {
            Some(v) => v as u128,
            None => 1,
        };
        push_decimal(out, s + index as u128);
        out.append(". ");
    } else {
        out.append("- ");
    }
    assert(out@ =~= before + bullet(ordered, start, index as nat, indent as nat));
}

/// Lines of the children of a list item.
fn item_content_lines(children: &Vec<MdNode>) -> (r: Vec<String>)
    ensures
        strs(r@) == item_lines(md_views(children@)),
    decreases children,
{
    let mut lines: Vec<String> = Vec::new();
    let mut i: usize = 0;
    while i < children.len()
        invariant
            i <= children@.len(),
            strs(lines@) == item_lines(md_views(children@.take(i as int))),
        decreases children.len() - i,
    {
        let ghost before = strs(lines@);
        proof {
            lemma_md_views_step(children@, i as int);
        }
        assert(decreases_to!(children => children@[i as int]));
        match &children[i] {
            MdNode::Paragraph { children: k } => {
                let line = inline_text(k);
                proof { lemma_strs_push(lines@, line); }
                lines.push(line);
            },
            MdNode::List { ordered, start, children: items } => {
                push_list_lines(&mut lines, *ordered, *start, items, 1);
            },
            _ => {},
        }
        assert(strs(lines@) =~= before + child_lines(md_view(children@[i as int])));
        i = i + 1;
    }
    proof { lemma_md_views_full(children@); }
    lines
}

/// Appends the lines of a list with the given items at indentation level `indent`.
fn push_list_lines(lines: &mut Vec<String>, ordered: bool, start: Option<u32>, items: &Vec<MdNode>, indent: usize)
    ensures
        strs(final(lines)@) == strs(old(lines)@) + list_lines(ordered, start, md_views(items@), indent as nat),
    decreases items,
{
    let ghost start_lines = strs(lines@);
    let mut i: usize = 0;
    while i < items.len()
        invariant
            i <= items@.len(),
            strs(lines@) == start_lines + list_lines(ordered, start, md_views(items@.take(i as int)), indent as nat),
        decreases items.len() - i,
    {
        let ghost before = strs(lines@);
        proof {
            lemma_md_views_step(items@, i as int);
            lemma_md_views_len(items@.take(i + 1));
        }
        assert(decreases_to!(items => items@[i as int]));
        match &items[i] {
            MdNode::ListItem { children } => {
                let il = item_content_lines(children);
                if il.len() > 0 {
                    let mut first = String::new();
                    push_bullet(&mut first, ordered, start, i, indent);
                    first.append(il[0].as_str());
                    proof { lemma_strs_push(lines@, first); }
                    lines.push(first);
                    let mut j: usize = 1;
                    while j < il.len()
                        invariant
                            1 <= j <= il@.len(),
                            strs(lines@) == before.push(bullet(ordered, start, i as nat, indent as nat) + strs(il@)[0])
                                + indent_rest(strs(il@).skip(1).take(j - 1), indent as nat),
                        decreases il.len() - j,
                    {
                        let ghost mid = strs(lines@);
                        let l = &il[j];
                        let lc = crate::text::chars_of(l.as_str());
                        let mut line = String::new();
                        push_repeat(&mut line, "  ", indent);
                        proof { reveal_strlit("  "); }
                        if !crate::text::starts_with_str(&lc, "  ") {
                            line.append("  ");
                        }
                        line.append(l.as_str());
                        proof { lemma_strs_push(lines@, line); }
                        lines.push(line);
                        assert(strs(il@).skip(1).take(j as int) =~= strs(il@).skip(1).take(j - 1).push(il@[j as int]@));
                        j = j + 1;
                        assert(strs(lines@) =~= before.push(bullet(ordered, start, i as nat, indent as nat) + strs(il@)[0])
                            + indent_rest(strs(il@).skip(1).take(j - 1), indent as nat));
                    }
                    assert(strs(il@).skip(1).take(il@.len() - 1) =~= strs(il@).skip(1));
                    assert(strs(lines@) =~= before + entry_lines(ordered, start, md_view(items@[i as int]), i as nat, indent as nat));
                } else {
                    assert(strs(lines@) =~= before + entry_lines(ordered, start, md_view(items@[i as int]), i as nat, indent as nat));
                }
            },
            _ => {
                assert(strs(lines@) =~= before + entry_lines(ordered, start, md_view(items@[i as int]), i as nat, indent as nat));
            },
        }
        i = i + 1;
    }
    proof { lemma_md_views_full(items@); }
}


/// Each line prefixed by `> `.
pub open spec fn quoted(ls: Seq<Seq<char>>) -> Seq<Seq<char>> {
    ls.map_values(|l: Seq<char>| "> "@ + l)
}

/// Lines of block-quote content: paragraphs as one line, headings as heading
/// lines, nested block quotes quoted once more; other children give nothing.
pub open spec fn quote_lines(cs: Seq<MdTree>) -> Seq<Seq<char>>
    decreases cs,
{
    if cs.len() == 0 {
        Seq::empty()
    } else {
        quote_lines(cs.drop_last()) + quote_child_lines(cs.last())
    }
}

/// Lines contributed by one child of a block quote.
pub open spec fn quote_child_lines(c: MdTree) -> Seq<Seq<char>>
    decreases c,
{
    match c {
        MdTree::Paragraph(k) => seq![inline_seq(k)],
        MdTree::Heading(d, k) => seq![heading_line(d, k)],
        MdTree::Blockquote(k) => quoted(quote_lines(k)),
        _ => Seq::empty(),
    }
}

fn quote_content_lines(children: &Vec<MdNode>) -> (r: Vec<String>)
    ensures
        strs(r@) == quote_lines(md_views(children@)),
    decreases children,
{
    let mut lines: Vec<String> = Vec::new();
    let mut i: usize = 0;
    while i < children.len()
        invariant
            i <= children@.len(),
            strs(lines@) == quote_lines(md_views(children@.take(i as int))),
        decreases children.len() - i,
    {
        let ghost before = strs(lines@);
        proof { lemma_md_views_step(children@, i as int); }
        assert(decreases_to!(children => children@[i as int]));
        match &children[i] {
            MdNode::Paragraph { children: k } => {
                let line = inline_text(k);
                proof { lemma_strs_push(lines@, line); }
                lines.push(line);
            },
            MdNode::Heading { depth, children: k } => {
                let line = heading_text(*depth, k);
                proof { lemma_strs_push(lines@, line); }
                lines.push(line);
            },
            MdNode::Blockquote { children: k } => {
                let nested = quote_content_lines(k);
                let quoted_nested = quote_all(&nested);
                let mut j: usize = 0;
                while j < quoted_nested.len()
                    invariant
                        j <= quoted_nested@.len(),
                        strs(lines@) == before + strs(quoted_nested@).take(j as int),
                    decreases quoted_nested.len() - j,
                {
                    let line = quoted_nested[j].clone();
                    proof { lemma_strs_push(lines@, line); }
                    lines.push(line);
                    j = j + 1;
                    assert(strs(quoted_nested@).take(j as int) =~= strs(quoted_nested@).take(j - 1).push(quoted_nested@[j - 1]@));
                }
                assert(strs(quoted_nested@).take(quoted_nested@.len() as int) =~= strs(quoted_nested@));
            },
            _ => {},
        }
        assert(strs(lines@) =~= before + quote_child_lines(md_view(children@[i as int])));
        i = i + 1;
    }
    proof { lemma_md_views_full(children@); }
    lines
}

/// Each line of `lines` prefixed by `> `.
fn quote_all(lines: &Vec<String>) -> (r: Vec<String>)
    ensures
        strs(r@) == quoted(strs(lines@)),
{
    let mut r: Vec<String> = Vec::new();
    let mut i: usize = 0;
    proof { reveal_strlit("> "); }
    while i < lines.len()
        invariant
            i <= lines@.len(),
            strs(r@) == quoted(strs(lines@).take(i as int)),
        decreases lines.len() - i,
    {
        let mut l = String::new();
        l.append("> ");
        l.append(lines[i].as_str());
        proof { lemma_strs_push(r@, l); }
        r.push(l);
        i = i + 1;
        assert(strs(r@) =~= quoted(strs(lines@).take(i as int)));
    }
    assert(strs(lines@).take(lines@.len() as int) =~= strs(lines@));
    r
}

/// What the paragraph renderer gives for a node, if it handles it.
pub open spec fn paragraph_rendering(t: MdTree) -> Option<Rendered> {
    match t {
        MdTree::Paragraph(k) => Some(Rendered::Block(seq![inline_seq(k)])),
        _ => None,
    }
}

/// What the heading renderer gives for a node, if it handles it.
pub open spec fn heading_rendering(t: MdTree) -> Option<Rendered> {
    match t {
        MdTree::Heading(d, k) => Some(Rendered::Block(seq![heading_line(d, k)])),
        _ => None,
    }
}

/// What the list renderer gives for a node, if it handles it.
pub open spec fn list_rendering(t: MdTree) -> Option<Rendered> {
    match t {
        MdTree::List(ordered, start, items) => Some(Rendered::Block(list_lines(ordered, start, items, 0))),
        _ => None,
    }
}

/// What the block-quote renderer gives for a node, if it handles it.
pub open spec fn blockquote_rendering(t: MdTree) -> Option<Rendered> {
    match t {
        MdTree::Blockquote(k) => Some(Rendered::Block(quoted(quote_lines(k)))),
        _ => None,
    }
}

/// The error for a node that a renderer does not handle.
fn unsupported(renderer: &str, expected: &str) -> (e: RenderError)
    ensures
        e is UnsupportedNode,
{
    let mut m = String::new();
    m.append(renderer);
    proof { reveal_strlit(" only supports "); reveal_strlit(" nodes"); }
    m.append(" only supports ");
    m.append(expected);
    m.append(" nodes");
    RenderError::UnsupportedNode(m)
}

/// Renders paragraphs as one line of inline Markdown.
pub struct ParagraphRenderer;

impl ParagraphRenderer {
    pub fn new() -> (r: Self) {
        ParagraphRenderer
    }
}

impl MdRender for ParagraphRenderer {
    fn render(&self, node: &MdNode) -> (r: Result<RenderResult, RenderError>)
        ensures
            match paragraph_rendering(node@) {
                Some(v) => r matches Ok(res) && res@ == v,
                None => r matches Err(e) && e is UnsupportedNode,
            },
    {
        match node {
            MdNode::Paragraph { children } => {
                let line = inline_text(children);
                let mut lines: Vec<String> = Vec::new();
                lines.push(line);
                assert(strs(lines@) =~= seq![inline_seq(md_views(children@))]);
                Ok(RenderResult::Block(lines))
            },
            _ => Err(unsupported("ParagraphRenderer", "Paragraph")),
        }
    }
}

/// Renders headings as `#`-prefixed lines.
pub struct HeadingRenderer;

impl HeadingRenderer {
    pub fn new() -> (r: Self) {
        HeadingRenderer
    }
}

impl MdRender for HeadingRenderer {
    fn render(&self, node: &MdNode) -> (r: Result<RenderResult, RenderError>)
        ensures
            match heading_rendering(node@) {
                Some(v) => r matches Ok(res) && res@ == v,
                None => r matches Err(e) && e is UnsupportedNode,
            },
    {
        match node {
            MdNode::Heading { depth, children } => {
                let line = heading_text(*depth, children);
                let mut lines: Vec<String> = Vec::new();
                lines.push(line);
                assert(strs(lines@) =~= seq![heading_line(*depth, md_views(children@))]);
                Ok(RenderResult::Block(lines))
            },
            _ => Err(unsupported("HeadingRenderer", "Heading")),
        }
    }
}

/// Renders lists as bulleted or numbered lines, nested lists indented.
pub struct ListRenderer;

impl ListRenderer {
    pub fn new() -> (r: Self) {
        ListRenderer
    }
}

impl MdRender for ListRenderer {
    fn render(&self, node: &MdNode) -> (r: Result<RenderResult, RenderError>)
        ensures
            match list_rendering(node@) {
                Some(v) => r matches Ok(res) && res@ == v,
                None => r matches Err(e) && e is UnsupportedNode,
            },
    {
        match node {
            MdNode::List { ordered, start, children } => {
                let mut lines: Vec<String> = Vec::new();
                push_list_lines(&mut lines, *ordered, *start, children, 0);
                assert(strs(lines@) =~= list_lines(*ordered, *start, md_views(children@), 0));
                Ok(RenderResult::Block(lines))
            },
            _ => Err(unsupported("ListRenderer", "List")),
        }
    }
}

/// Renders block quotes as `> `-prefixed lines.
pub struct BlockquoteRenderer;

impl BlockquoteRenderer {
    pub fn new() -> (r: Self) {
        BlockquoteRenderer
    }
}

impl MdRender for BlockquoteRenderer {
    fn render(&self, node: &MdNode) -> (r: Result<RenderResult, RenderError>)
        ensures
            match blockquote_rendering(node@) {
                Some(v) => r matches Ok(res) && res@ == v,
                None => r matches Err(e) && e is UnsupportedNode,
            },
    {
        match node {
            MdNode::Blockquote { children } => {
                let content = quote_content_lines(children);
                let lines = quote_all(&content);
                Ok(RenderResult::Block(lines))
            },
            _ => Err(unsupported("BlockquoteRenderer", "Blockquote")),
        }
    }
}

} // verus!
