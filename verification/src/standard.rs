//! The standard renderer: Markdown text of any mdast node, written by
//! `mdast_util_to_markdown`.

use vstd::prelude::*;
use markdown::mdast::{
    Blockquote, Break, Code, Emphasis, Heading, InlineCode, Link, List, ListItem, Node, Paragraph,
    Root, Strong, Table, TableCell, TableRow, Text, ThematicBreak,
};
use crate::mdast::{MdNode, MdTree};
use crate::render::{strs, RenderError, RenderResult, Rendered};

verus! {

#[verifier::external_type_specification]
#[verifier::external_body]
pub struct ExMdastNode(markdown::mdast::Node);

#[verifier::external_type_specification]
#[verifier::external_body]
pub struct ExMdastAlign(markdown::mdast::AlignKind);

/// Every character of `s` is ASCII.
pub open spec fn ascii_text(s: Seq<char>) -> bool {
    forall|i: int| 0 <= i < s.len() ==> (#[trigger] s[i] as u32) < 128
}

/// `s` holds a line feed or a carriage return.
pub open spec fn has_line_break(s: Seq<char>) -> bool {
    exists|i: int| 0 <= i < s.len() && (#[trigger] s[i] == '\n' || s[i] == '\r')
}

/// A node without a list of children.
pub open spec fn is_leaf(t: MdTree) -> bool {
    t is Text || t is Code || t is InlineCode || t is Break || t is ThematicBreak
}

/// A tree that `mdast_util_to_markdown` writes without panicking: its text,
/// URLs and code languages are ASCII, inline code holds no line break, and no
/// bullet list starts with a leaf node. (On non-ASCII text the crate indexes
/// bytes by character positions and can slice inside a character; inline code
/// with a line break can reach a slice whose start passes its end; a bullet
/// list whose first child has no children reaches an `expect` on them.)
pub open spec fn markdown_writable(t: MdTree) -> bool
    decreases t,
{
    match t {
        MdTree::Text(v) => ascii_text(v),
        MdTree::InlineCode(v) => ascii_text(v) && !has_line_break(v),
        MdTree::Code(_, lang) => match lang {
            Some(l) => ascii_text(l),
            None => true,
        },
        MdTree::Break => true,
        MdTree::ThematicBreak => true,
        MdTree::Link(url, k) => ascii_text(url) && forall|i: int|
            0 <= i < k.len() ==> markdown_writable(#[trigger] k[i]),
        MdTree::List(ordered, _, k) => (!ordered && k.len() > 0 ==> !is_leaf(k[0])) && forall|i: int|
            0 <= i < k.len() ==> markdown_writable(#[trigger] k[i]),
        MdTree::Root(k) => forall|i: int| 0 <= i < k.len() ==> markdown_writable(#[trigger] k[i]),
        MdTree::Paragraph(k) => forall|i: int| 0 <= i < k.len() ==> markdown_writable(#[trigger] k[i]),
        MdTree::Heading(_, k) => forall|i: int| 0 <= i < k.len() ==> markdown_writable(#[trigger] k[i]),
        MdTree::ListItem(k) => forall|i: int| 0 <= i < k.len() ==> markdown_writable(#[trigger] k[i]),
        MdTree::Blockquote(k) => forall|i: int| 0 <= i < k.len() ==> markdown_writable(#[trigger] k[i]),
        MdTree::Emphasis(k) => forall|i: int| 0 <= i < k.len() ==> markdown_writable(#[trigger] k[i]),
        MdTree::Strong(k) => forall|i: int| 0 <= i < k.len() ==> markdown_writable(#[trigger] k[i]),
        MdTree::Table(_, k) => forall|i: int| 0 <= i < k.len() ==> markdown_writable(#[trigger] k[i]),
        MdTree::TableRow(k) => forall|i: int| 0 <= i < k.len() ==> markdown_writable(#[trigger] k[i]),
        MdTree::TableCell(k) => forall|i: int| 0 <= i < k.len() ==> markdown_writable(#[trigger] k[i]),
    }
}

/// What `mdast_util_to_markdown::to_markdown` gives for a tree: the Markdown
/// text, or the text of its error message.
pub uninterp spec fn standard_markdown(t: MdTree) -> Result<Seq<char>, Seq<char>>;

/// The `markdown::mdast` form of a sequence of nodes, one for one.
#[verifier::external_body]
fn mdast_nodes(ns: &Vec<MdNode>) -> Vec<Node> {
    ns.iter().map(mdast_node).collect()
}

/// The `markdown::mdast` form of a column alignment.
#[verifier::external_body]
fn mdast_align(a: &crate::mdast::ColumnAlign) -> markdown::mdast::AlignKind {
    match a {
        crate::mdast::ColumnAlign::Left => markdown::mdast::AlignKind::Left,
        crate::mdast::ColumnAlign::Right => markdown::mdast::AlignKind::Right,
        crate::mdast::ColumnAlign::Center => markdown::mdast::AlignKind::Center,
        crate::mdast::ColumnAlign::Unaligned => markdown::mdast::AlignKind::None,
    }
}

/// The `markdown::mdast` form of a node: the same kind, fields and children,
/// no source positions (first part; the other kinds follow in the next two).
#[verifier::external_body]
fn mdast_node(n: &MdNode) -> Node {
    match n {
        MdNode::Root { children } => Node::Root(Root { children: mdast_nodes(children), position: None }),
        MdNode::Paragraph { children } => Node::Paragraph(Paragraph { children: mdast_nodes(children), position: None }),
        MdNode::Text { value } => Node::Text(Text { value: value.clone(), position: None }),
        MdNode::Heading { depth, children } => Node::Heading(Heading { depth: *depth, children: mdast_nodes(children), position: None }),
        MdNode::Code { value, lang } => Node::Code(Code { value: value.clone(), lang: lang.clone(), meta: None, position: None }),
        _ => mdast_node_more(n),
    }
}

/// The `markdown::mdast` form of a node (second part).
#[verifier::external_body]
fn mdast_node_more(n: &MdNode) -> Node {
    match n {
        MdNode::InlineCode { value } => Node::InlineCode(InlineCode { value: value.clone(), position: None }),
        MdNode::Link { url, children } => Node::Link(Link { url: url.clone(), title: None, children: mdast_nodes(children), position: None }),
        MdNode::List { ordered, start, children } => Node::List(List { ordered: *ordered, start: *start, spread: false, children: mdast_nodes(children), position: None }),
        MdNode::ListItem { children } => Node::ListItem(ListItem { checked: None, spread: false, children: mdast_nodes(children), position: None }),
        MdNode::Blockquote { children } => Node::Blockquote(Blockquote { children: mdast_nodes(children), position: None }),
        _ => mdast_node_rest(n),
    }
}

/// The `markdown::mdast` form of a node (last part; every kind not listed here
/// is handled by `mdast_node`).
#[verifier::external_body]
fn mdast_node_rest(n: &MdNode) -> Node {
    match n {
        MdNode::Emphasis { children } => Node::Emphasis(Emphasis { children: mdast_nodes(children), position: None }),
        MdNode::Strong { children } => Node::Strong(Strong { children: mdast_nodes(children), position: None }),
        MdNode::Table { align, children } => Node::Table(Table { align: align.iter().map(mdast_align).collect(), children: mdast_nodes(children), position: None }),
        MdNode::TableRow { children } => Node::TableRow(TableRow { children: mdast_nodes(children), position: None }),
        MdNode::TableCell { children } => Node::TableCell(TableCell { children: mdast_nodes(children), position: None }),
        MdNode::Break => Node::Break(Break { position: None }),
        MdNode::ThematicBreak => Node::ThematicBreak(ThematicBreak { position: None }),
        _ => mdast_node(n),
    }
}

/// Calls `mdast_util_to_markdown::to_markdown` on the `markdown::mdast` form of
/// `node`. The contract claims only that the outcome is a function of the tree
/// (named `standard_markdown`), with the error taken as its message text, and
/// admits only trees on which the crate does not panic.
#[verifier::external_body]
fn to_markdown(node: &MdNode) -> (r: Result<String, String>)
    requires
        markdown_writable(node@),
    ensures
        match r {
            Ok(s) => standard_markdown(node@) == Ok::<Seq<char>, Seq<char>>(s@),
            Err(e) => standard_markdown(node@) == Err::<Seq<char>, Seq<char>>(e@),
        },
{
    match mdast_util_to_markdown::to_markdown(&mdast_node(node)) {
        Ok(s) => Ok(s),
        Err(e) => Err(e.to_string()),
    }
}

/// Flow nodes come back as a block, everything else as inline text.
pub open spec fn standard_rendered(t: MdTree, md: Seq<char>) -> Rendered {
    if t is Root || t is Paragraph || t is Heading || t is Code || t is Blockquote || t is List {
        Rendered::Block(seq![md])
    } else {
        Rendered::Inline(md)
    }
}

/// Renders any node through `mdast_util_to_markdown`.
pub struct StandardRenderer;

impl StandardRenderer {
    pub fn new() -> (r: Self) {
        StandardRenderer
    }

    /// The Markdown of `node`: one block line for flow nodes, inline text for
    /// the others; the library's error message when it fails.
    pub fn render(&self, node: &MdNode) -> (r: Result<RenderResult, RenderError>)
        requires
            markdown_writable(node@),
        ensures
            match standard_markdown(node@) {
                Ok(md) => r matches Ok(res) && res@ == standard_rendered(node@, md),
                Err(m) => r matches Err(e) && e matches RenderError::StandardFailed(x) && x@ == m,
            },
    {
        match to_markdown(node) {
            Ok(md) => {
                let block = match node {
                    MdNode::Root { .. } => true,
                    MdNode::Paragraph { .. } => true,
                    MdNode::Heading { .. } => true,
                    MdNode::Code { .. } => true,
                    MdNode::Blockquote { .. } => true,
                    MdNode::List { .. } => true,
                    _ => false,
                };
                if block {
                    let mut lines: Vec<String> = Vec::new();
                    let ghost text = md@;
                    lines.push(md);
                    assert(strs(lines@) =~= seq![text]);
                    Ok(RenderResult::Block(lines))
                } else {
                    Ok(RenderResult::Inline(md))
                }
            },
            Err(m) => Err(RenderError::StandardFailed(m)),
        }
    }
}

} // verus!
