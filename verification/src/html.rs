//! The HTML document tree that documentation pages are parsed into, and the
//! call into `html5ever` that parses them.

use vstd::prelude::*;
use html5ever::{parse_document, parse_fragment};
use html5ever::tendril::TendrilSink;
use markup5ever::{LocalName, Namespace, QualName};
use markup5ever_rcdom::{Handle, NodeData, RcDom};

verus! {

#[verifier::external_type_specification]
#[verifier::external_body]
pub struct ExRcdomNode(markup5ever_rcdom::Node);

/// A node of a parsed HTML document.
#[derive(Debug)]
pub enum HtmlNode {
    /// The document root.
    Document { children: Vec<HtmlNode> },
    /// An element: its local name, its attributes (local name and value) and children.
    Element { tag: String, attrs: Vec<(String, String)>, children: Vec<HtmlNode> },
    /// Character data.
    Text { contents: String },
    /// A comment, doctype or processing instruction.
    Other,
}

/// The mathematical form of an [`HtmlNode`].
pub enum HtmlTree {
    Document(Seq<HtmlTree>),
    Element(Seq<char>, Seq<(Seq<char>, Seq<char>)>, Seq<HtmlTree>),
    Text(Seq<char>),
    Other,
}

/// The views of a sequence of HTML nodes.
pub open spec fn html_views(s: Seq<HtmlNode>) -> Seq<HtmlTree>
    decreases s,
{
    if s.len() == 0 {
        Seq::empty()
    } else {
        html_views(s.drop_last()).push(html_view(s.last()))
    }
}

/// The views of attribute pairs.
pub open spec fn attr_views(a: Seq<(String, String)>) -> Seq<(Seq<char>, Seq<char>)> {
    a.map_values(|p: (String, String)| (p.0@, p.1@))
}

/// The view of one HTML node.
pub open spec fn html_view(n: HtmlNode) -> HtmlTree
    decreases n,
{
    match n {
        HtmlNode::Document { children } => HtmlTree::Document(html_views(children@)),
        HtmlNode::Element { tag, attrs, children } => HtmlTree::Element(
            tag@,
            attr_views(attrs@),
            html_views(children@),
        ),
        HtmlNode::Text { contents } => HtmlTree::Text(contents@),
        HtmlNode::Other => HtmlTree::Other,
    }
}

impl View for HtmlNode {
    type V = HtmlTree;

    open spec fn view(&self) -> HtmlTree {
        html_view(*self)
    }
}

pub proof fn lemma_html_views(s: Seq<HtmlNode>)
    ensures
        html_views(s).len() == s.len(),
        forall|i: int| 0 <= i < s.len() ==> #[trigger] html_views(s)[i] == html_view(s[i]),
    decreases s.len(),
{
    if s.len() > 0 {
        lemma_html_views(s.drop_last());
    }
}

/// What `html5ever::parse_document` builds from a text (read as UTF-8 into an
/// `RcDom`): the document tree, or the text of the read error.
pub uninterp spec fn html_document(html: Seq<char>) -> Result<HtmlTree, Seq<char>>;

/// The library's form of a parsed DOM node and its descendants, one for one.
#[verifier::external_body]
fn html_node(handle: &Handle) -> HtmlNode {
    let children: Vec<HtmlNode> = handle.children.borrow().iter().map(html_node).collect();
    match &handle.data {
        NodeData::Document => HtmlNode::Document { children },
        NodeData::Element { name, attrs, .. } => HtmlNode::Element {
            tag: name.local.to_string(),
            attrs: attrs.borrow().iter().map(|a| (a.name.local.to_string(), a.value.to_string())).collect(),
            children,
        },
        NodeData::Text { contents } => HtmlNode::Text { contents: contents.borrow().to_string() },
        _ => HtmlNode::Other,
    }
}

/// Parses `html` as a whole document with `html5ever::parse_document` into an
/// `RcDom` and returns the library's form of it. The contract claims only that
/// the outcome is a function of the text (named `html_document`).
#[verifier::external_body]
pub(crate) fn parse_html_document(html: &str) -> (r: Result<HtmlNode, String>)
    ensures
        match r {
            Ok(doc) => html_document(html@) == Ok::<HtmlTree, Seq<char>>(doc@),
            Err(e) => html_document(html@) == Err::<HtmlTree, Seq<char>>(e@),
        },
{
    match parse_document(RcDom::default(), Default::default()).from_utf8().read_from(&mut html.as_bytes()) {
        Ok(dom) => Ok(html_node(&dom.document)),
        Err(e) => Err(e.to_string()),
    }
}

/// What `html5ever::parse_fragment` builds from a text, read as UTF-8 into an
/// `RcDom` in the context of an HTML `div`: the document tree, or the text of
/// the read error.
pub uninterp spec fn html_fragment(html: Seq<char>) -> Result<HtmlTree, Seq<char>>;

/// Parses `html` as a fragment inside an HTML `div` with
/// `html5ever::parse_fragment` into an `RcDom` and returns the library's form
/// of the resulting document. The contract claims only that the outcome is a
/// function of the text (named `html_fragment`).
#[verifier::external_body]
pub(crate) fn parse_html_fragment(html: &str) -> (r: Result<HtmlNode, String>)
    ensures
        match r {
            Ok(doc) => html_fragment(html@) == Ok::<HtmlTree, Seq<char>>(doc@),
            Err(e) => html_fragment(html@) == Err::<HtmlTree, Seq<char>>(e@),
        },
{
    let div = QualName::new(None, Namespace::from("http://www.w3.org/1999/xhtml"), LocalName::from("div"));
    match parse_fragment(RcDom::default(), Default::default(), div, vec![], false).from_utf8().read_from(&mut html.as_bytes()) {
        Ok(dom) => Ok(html_node(&dom.document)),
        Err(e) => Err(e.to_string()),
    }
}

} // verus!
