//! The Markdown syntax tree (mdast) that HTML is converted into and that the
//! renderers turn into Markdown text.

use vstd::prelude::*;

verus! {

/// Column alignment of a table.
#[derive(Clone, Copy, Debug, PartialEq, Eq)]
pub enum ColumnAlign {
    Left,
    Right,
    Center,
    Unaligned,
}

/// A node of the Markdown syntax tree.
#[derive(Debug)]
pub enum MdNode {
    Root { children: Vec<MdNode> },
    Paragraph { children: Vec<MdNode> },
    Text { value: String },
    Heading { depth: u8, children: Vec<MdNode> },
    Code { value: String, lang: Option<String> },
    InlineCode { value: String },
    Link { url: String, children: Vec<MdNode> },
    List { ordered: bool, start: Option<u32>, children: Vec<MdNode> },
    ListItem { children: Vec<MdNode> },
    Blockquote { children: Vec<MdNode> },
    Emphasis { children: Vec<MdNode> },
    Strong { children: Vec<MdNode> },
    Table { align: Vec<ColumnAlign>, children: Vec<MdNode> },
    TableRow { children: Vec<MdNode> },
    TableCell { children: Vec<MdNode> },
    Break,
    ThematicBreak,
}

/// The mathematical form of an [`MdNode`]: the same tree with character
/// sequences in place of strings.
pub enum MdTree {
    Root(Seq<MdTree>),
    Paragraph(Seq<MdTree>),
    Text(Seq<char>),
    Heading(u8, Seq<MdTree>),
    Code(Seq<char>, Option<Seq<char>>),
    InlineCode(Seq<char>),
    Link(Seq<char>, Seq<MdTree>),
    List(bool, Option<u32>, Seq<MdTree>),
    ListItem(Seq<MdTree>),
    Blockquote(Seq<MdTree>),
    Emphasis(Seq<MdTree>),
    Strong(Seq<MdTree>),
    Table(Seq<ColumnAlign>, Seq<MdTree>),
    TableRow(Seq<MdTree>),
    TableCell(Seq<MdTree>),
    Break,
    ThematicBreak,
}

/// The views of a sequence of nodes.
pub open spec fn md_views(s: Seq<MdNode>) -> Seq<MdTree>
    decreases s,
{
    if s.len() == 0 {
        Seq::empty()
    } else {
        md_views(s.drop_last()).push(md_view(s.last()))
    }
}

/// The view of one node.
pub open spec fn md_view(n: MdNode) -> MdTree
    decreases n,
{
    match n {
        MdNode::Root { children } => MdTree::Root(md_views(children@)),
        MdNode::Paragraph { children } => MdTree::Paragraph(md_views(children@)),
        MdNode::Text { value } => MdTree::Text(value@),
        MdNode::Heading { depth, children } => MdTree::Heading(depth, md_views(children@)),
        MdNode::Code { value, lang } => MdTree::Code(
            value@,
            match lang {
                Some(l) => Some(l@),
                None => None,
            },
        ),
        MdNode::InlineCode { value } => MdTree::InlineCode(value@),
        MdNode::Link { url, children } => MdTree::Link(url@, md_views(children@)),
        MdNode::List { ordered, start, children } => MdTree::List(ordered, start, md_views(children@)),
        MdNode::ListItem { children } => MdTree::ListItem(md_views(children@)),
        MdNode::Blockquote { children } => MdTree::Blockquote(md_views(children@)),
        MdNode::Emphasis { children } => MdTree::Emphasis(md_views(children@)),
        MdNode::Strong { children } => MdTree::Strong(md_views(children@)),
        MdNode::Table { align, children } => MdTree::Table(align@, md_views(children@)),
        MdNode::TableRow { children } => MdTree::TableRow(md_views(children@)),
        MdNode::TableCell { children } => MdTree::TableCell(md_views(children@)),
        MdNode::Break => MdTree::Break,
        MdNode::ThematicBreak => MdTree::ThematicBreak,
    }
}

impl View for MdNode {
    type V = MdTree;

    open spec fn view(&self) -> MdTree {
        md_view(*self)
    }
}

pub proof fn lemma_md_views_len(s: Seq<MdNode>)
    ensures
        md_views(s).len() == s.len(),
        forall|i: int| 0 <= i < s.len() ==> #[trigger] md_views(s)[i] == md_view(s[i]),
    decreases s.len(),
{
    if s.len() > 0 {
        lemma_md_views_len(s.drop_last());
    }
}


pub proof fn lemma_md_views_step(ns: Seq<MdNode>, i: int)
    requires
        0 <= i < ns.len(),
    ensures
        md_views(ns.take(i + 1)) == md_views(ns.take(i)).push(md_view(ns[i])),
        md_views(ns.take(i)).push(md_view(ns[i])).drop_last() == md_views(ns.take(i)),
{
    assert(ns.take(i + 1).drop_last() =~= ns.take(i));
    assert(md_views(ns.take(i)).push(md_view(ns[i])).drop_last() =~= md_views(ns.take(i)));
}

pub proof fn lemma_md_views_full(ns: Seq<MdNode>)
    ensures
        md_views(ns.take(ns.len() as int)) == md_views(ns),
{
    assert(ns.take(ns.len() as int) =~= ns);
}

} // verus!
