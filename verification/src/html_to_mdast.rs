//! Conversion of a parsed HTML document into an mdast tree.
//!
//! The walk keeps a list of finished block nodes and, while inline content is
//! being gathered, an open paragraph. Headings, code blocks, lists, block
//! quotes and tables close the open paragraph; text, links, inline code and
//! emphasis go into it, opening one when needed.

use vstd::prelude::*;
use crate::html::{html_document, html_view, html_views, lemma_html_views, parse_html_document, HtmlNode, HtmlTree};
use crate::links::{rewrite_docs_link, rewritten_link};
use crate::mdast::{lemma_md_views_len, md_view, md_views, ColumnAlign, MdNode, MdTree};
use crate::text::{chars_of, text_eq, trim_bounds, trim_ws};

verus! {

/// The walk's state: finished blocks, and the open paragraph if any.
pub struct Acc {
    pub root: Seq<MdTree>,
    pub para: Option<Seq<MdTree>>,
}

/// A state with nothing gathered.
pub open spec fn fresh() -> Acc {
    Acc { root: Seq::empty(), para: None }
}

/// Closes the open paragraph; it becomes a block unless it is empty.
pub open spec fn end_par(a: Acc) -> Acc {
    match a.para {
        Some(p) => if p.len() > 0 {
            Acc { root: a.root.push(MdTree::Paragraph(p)), para: None }
        } else {
            Acc { root: a.root, para: None }
        },
        None => a,
    }
}

/// Opens a paragraph if none is open.
pub open spec fn start_par(a: Acc) -> Acc {
    match a.para {
        Some(_) => a,
        None => Acc { root: a.root, para: Some(Seq::empty()) },
    }
}

/// Adds an inline node to the open paragraph, opening one if needed.
pub open spec fn with_inline(a: Acc, t: MdTree) -> Acc {
    Acc {
        root: a.root,
        para: Some(
            match a.para {
                Some(p) => p.push(t),
                None => seq![t],
            },
        ),
    }
}

/// The state in which the children of an inline element are gathered.
pub open spec fn inline_start(a: Acc) -> Acc {
    Acc { root: a.root, para: Some(Seq::empty()) }
}

/// What was gathered for an inline element.
pub open spec fn gathered(inner: Acc) -> Seq<MdTree> {
    match inner.para {
        Some(p) => p,
        None => Seq::empty(),
    }
}

/// The state after an inline element: its blocks, the paragraph of before.
pub open spec fn restored(inner: Acc, outer: Acc) -> Acc {
    Acc { root: inner.root, para: outer.para }
}

/// Elements whose content is dropped.
pub open spec fn is_skipped(tag: Seq<char>) -> bool {
    tag == "script"@ || tag == "iframe"@ || tag == "object"@ || tag == "embed"@ || tag == "style"@
        || tag == "link"@
}

/// The level of a heading element.
pub open spec fn heading_level(tag: Seq<char>) -> Option<u8> {
    if tag == "h1"@ {
        Some(1u8)
    } else if tag == "h2"@ {
        Some(2u8)
    } else if tag == "h3"@ {
        Some(3u8)
    } else if tag == "h4"@ {
        Some(4u8)
    } else if tag == "h5"@ {
        Some(5u8)
    } else if tag == "h6"@ {
        Some(6u8)
    } else {
        None
    }
}

/// The value of the first attribute named `name` at or after index `i`.
pub open spec fn attr_from(attrs: Seq<(Seq<char>, Seq<char>)>, name: Seq<char>, i: int) -> Option<Seq<char>>
    decreases attrs.len() - i,
{
    if i < 0 || i >= attrs.len() {
        None
    } else if attrs[i].0 == name {
        Some(attrs[i].1)
    } else {
        attr_from(attrs, name, i + 1)
    }
}

/// The value of the first attribute named `name`.
pub open spec fn attr_value(attrs: Seq<(Seq<char>, Seq<char>)>, name: Seq<char>) -> Option<Seq<char>> {
    attr_from(attrs, name, 0)
}

/// All character data below the nodes, in document order.
pub open spec fn collect_text(ns: Seq<HtmlTree>) -> Seq<char>
    decreases ns,
{
    if ns.len() == 0 {
        Seq::empty()
    } else {
        collect_text(ns.drop_last()) + node_text(ns.last())
    }
}

/// All character data of one node and its descendants.
pub open spec fn node_text(n: HtmlTree) -> Seq<char>
    decreases n,
{
    match n {
        HtmlTree::Text(c) => c,
        HtmlTree::Element(_, _, cs) => collect_text(cs),
        _ => Seq::empty(),
    }
}

/// The largest number of children of the rows.
pub open spec fn max_cells(rows: Seq<MdTree>) -> nat
    decreases rows.len(),
{
    if rows.len() == 0 {
        0
    } else {
        let m = max_cells(rows.drop_last());
        let c = match rows.last() {
            MdTree::TableRow(k) => k.len(),
            _ => 0,
        };
        if m >= c {
            m
        } else {
            c
        }
    }
}

/// The state after walking one node.
pub open spec fn walk(n: HtmlTree, a: Acc, depth: nat) -> Acc
    decreases n, 2int,
{
    match n {
        HtmlTree::Document(cs) => walk_seq(cs, a, depth),
        HtmlTree::Text(c) => if trim_ws(c).len() == 0 {
            a
        } else {
            with_inline(a, MdTree::Text(c))
        },
        HtmlTree::Other => a,
        HtmlTree::Element(tag, attrs, cs) => if is_skipped(tag) {
            a
        } else if heading_level(tag) is Some {
            let b = end_par(a);
            let inner = walk_seq(cs, inline_start(b), depth);
            let after = restored(inner, b);
            Acc {
                root: after.root.push(MdTree::Heading(heading_level(tag)->0, gathered(inner))),
                para: after.para,
            }
        } else if tag == "p"@ {
            end_par(walk_seq(cs, start_par(a), depth))
        } else if tag == "pre"@ {
            let b = end_par(a);
            Acc { root: b.root.push(MdTree::Code(collect_text(cs), None)), para: b.para }
        } else if tag == "a"@ {
            let inner = walk_seq(cs, inline_start(a), depth);
            let href = match attr_value(attrs, "href"@) {
                Some(h) => h,
                None => "#"@,
            };
            with_inline(restored(inner, a), MdTree::Link(rewritten_link(href, depth), gathered(inner)))
        } else if tag == "ul"@ || tag == "ol"@ {
            let b = end_par(a);
            let ordered = tag == "ol"@;
            Acc {
                root: b.root.push(
                    MdTree::List(
                        ordered,
                        if ordered {
                            Some(1u32)
                        } else {
                            None
                        },
                        list_items(cs, depth),
                    ),
                ),
                para: b.para,
            }
        } else if tag == "blockquote"@ {
            let b = end_par(a);
            Acc { root: b.root.push(MdTree::Blockquote(block_children(cs, depth))), para: b.para }
        } else if tag == "code"@ {
            with_inline(a, MdTree::InlineCode(collect_text(cs)))
        } else if tag == "em"@ || tag == "i"@ {
            let inner = walk_seq(cs, inline_start(a), depth);
            with_inline(restored(inner, a), MdTree::Emphasis(gathered(inner)))
        } else if tag == "strong"@ || tag == "b"@ {
            let inner = walk_seq(cs, inline_start(a), depth);
            with_inline(restored(inner, a), MdTree::Strong(gathered(inner)))
        } else if tag == "table"@ {
            let b = end_par(a);
            let rows = table_rows_of(cs, depth);
            Acc {
                root: b.root.push(
                    MdTree::Table(Seq::new(max_cells(rows), |i: int| ColumnAlign::Unaligned), rows),
                ),
                para: b.para,
            }
        } else {
            walk_seq(cs, a, depth)
        },
    }
}

/// The state after walking the nodes in order.
pub open spec fn walk_seq(ns: Seq<HtmlTree>, a: Acc, depth: nat) -> Acc
    decreases ns, 0int,
{
    if ns.len() == 0 {
        a
    } else {
        walk(ns.last(), walk_seq(ns.drop_last(), a, depth), depth)
    }
}

/// The blocks that the nodes give when walked on their own (the content of a
/// list item, block quote or table cell).
pub open spec fn block_children(cs: Seq<HtmlTree>, depth: nat) -> Seq<MdTree>
    decreases cs, 1int,
{
    end_par(walk_seq(cs, fresh(), depth)).root
}

/// The items of a list: one per `li` child.
pub open spec fn list_items(cs: Seq<HtmlTree>, depth: nat) -> Seq<MdTree>
    decreases cs, 1int,
{
    if cs.len() == 0 {
        Seq::empty()
    } else {
        let rest = list_items(cs.drop_last(), depth);
        match cs.last() {
            HtmlTree::Element(tag, _, ch) => if tag == "li"@ {
                rest.push(MdTree::ListItem(block_children(ch, depth)))
            } else {
                rest
            },
            _ => rest,
        }
    }
}

/// The rows of a table: `tr` children, and those of `thead` and `tbody` children.
pub open spec fn table_rows_of(cs: Seq<HtmlTree>, depth: nat) -> Seq<MdTree>
    decreases cs, 1int,
{
    if cs.len() == 0 {
        Seq::empty()
    } else {
        let rest = table_rows_of(cs.drop_last(), depth);
        match cs.last() {
            HtmlTree::Element(tag, _, ch) => if tag == "thead"@ || tag == "tbody"@ {
                rest + section_rows(ch, depth)
            } else if tag == "tr"@ {
                rest.push(MdTree::TableRow(row_cells_of(ch, depth)))
            } else {
                rest
            },
            _ => rest,
        }
    }
}

/// The rows of a table section: one per `tr` child.
pub open spec fn section_rows(cs: Seq<HtmlTree>, depth: nat) -> Seq<MdTree>
    decreases cs, 1int,
{
    if cs.len() == 0 {
        Seq::empty()
    } else {
        let rest = section_rows(cs.drop_last(), depth);
        match cs.last() {
            HtmlTree::Element(tag, _, ch) => if tag == "tr"@ {
                rest.push(MdTree::TableRow(row_cells_of(ch, depth)))
            } else {
                rest
            },
            _ => rest,
        }
    }
}

/// The cells of a table row: one per `th` or `td` child; an empty cell holds
/// an empty text node.
pub open spec fn row_cells_of(cs: Seq<HtmlTree>, depth: nat) -> Seq<MdTree>
    decreases cs, 1int,
{
    if cs.len() == 0 {
        Seq::empty()
    } else {
        let rest = row_cells_of(cs.drop_last(), depth);
        match cs.last() {
            HtmlTree::Element(tag, _, ch) => if tag == "th"@ || tag == "td"@ {
                let content = block_children(ch, depth);
                rest.push(
                    MdTree::TableCell(
                        if content.len() == 0 {
                            seq![MdTree::Text(Seq::empty())]
                        } else {
                            content
                        },
                    ),
                )
            } else {
                rest
            },
            _ => rest,
        }
    }
}

/// The mdast tree of a parsed document: a root holding the blocks of the walk.
pub open spec fn mdast_of(doc: HtmlTree, depth: nat) -> MdTree {
    MdTree::Root(end_par(walk(doc, fresh(), depth)).root)
}

/// The views of an optional sequence of nodes.
pub open spec fn para_view(p: Option<Vec<MdNode>>) -> Option<Seq<MdTree>> {
    match p {
        Some(v) => Some(md_views(v@)),
        None => None,
    }
}

pub proof fn lemma_md_views_push(s: Seq<MdNode>, x: MdNode)
    ensures
        md_views(s.push(x)) == md_views(s).push(md_view(x)),
{
    assert(s.push(x).drop_last() =~= s);
}

pub proof fn lemma_html_views_step(ns: Seq<HtmlNode>, i: int)
    requires
        0 <= i < ns.len(),
    ensures
        html_views(ns.take(i + 1)) == html_views(ns.take(i)).push(html_view(ns[i])),
        html_views(ns.take(i + 1)).drop_last() == html_views(ns.take(i)),
        html_views(ns.take(i + 1)).last() == html_view(ns[i]),
{
    assert(ns.take(i + 1).drop_last() =~= ns.take(i));
}

pub proof fn lemma_html_views_full(ns: Seq<HtmlNode>)
    ensures
        html_views(ns.take(ns.len() as int)) == html_views(ns),
{
    assert(ns.take(ns.len() as int) =~= ns);
}

/// Whether `tag` names an element whose content is dropped.
fn skipped_tag(tag: &str) -> (r: bool)
    ensures
        r == is_skipped(tag@),
{
    text_eq(tag, "script") || text_eq(tag, "iframe") || text_eq(tag, "object") || text_eq(tag, "embed")
        || text_eq(tag, "style") || text_eq(tag, "link")
}

/// The level of a heading tag.
fn heading_level_of(tag: &str) -> (r: Option<u8>)
    ensures
        r == heading_level(tag@),
{
    if text_eq(tag, "h1") {
        Some(1)
    } else if text_eq(tag, "h2") {
        Some(2)
    } else if text_eq(tag, "h3") {
        Some(3)
    } else if text_eq(tag, "h4") {
        Some(4)
    } else if text_eq(tag, "h5") {
        Some(5)
    } else if text_eq(tag, "h6") {
        Some(6)
    } else {
        None
    }
}

/// The value of the first attribute named `name`.
pub fn get_attr(attrs: &Vec<(String, String)>, name: &str) -> (r: Option<String>)
    ensures
        match attr_value(crate::html::attr_views(attrs@), name@) {
            Some(v) => r matches Some(s) && s@ == v,
            None => r is None,
        },
{
    let ghost av = crate::html::attr_views(attrs@);
    let mut i: usize = 0;
    while i < attrs.len()
        invariant
            av == crate::html::attr_views(attrs@),
            av.len() == attrs@.len(),
            i <= attrs@.len(),
            attr_from(av, name@, 0) == attr_from(av, name@, i as int),
        decreases attrs.len() - i,
    {
        assert(av[i as int] == (attrs@[i as int].0@, attrs@[i as int].1@));
        if text_eq(attrs[i].0.as_str(), name) {
            return Some(attrs[i].1.clone());
        }
        i = i + 1;
    }
    None
}

/// The value of the first `class` attribute.
pub fn get_class(attrs: &Vec<(String, String)>) -> (r: Option<String>)
    ensures
        match attr_value(crate::html::attr_views(attrs@), "class"@) {
            Some(v) => r matches Some(s) && s@ == v,
            None => r is None,
        },
{
    get_attr(attrs, "class")
}

/// All character data below the nodes, in document order.
pub fn collect_text_from_children(ns: &Vec<HtmlNode>) -> (r: String)
    ensures
        r@ == collect_text(html_views(ns@)),
    decreases ns,
{
    let mut r = String::new();
    let mut i: usize = 0;
    while i < ns.len()
        invariant
            i <= ns@.len(),
            r@ == collect_text(html_views(ns@.take(i as int))),
        decreases ns.len() - i,
    {
        proof { lemma_html_views_step(ns@, i as int); }
        let ghost before = r@;
        let ghost t = html_views(ns@.take(i + 1));
        assert(collect_text(t) == collect_text(t.drop_last()) + node_text(t.last()));
        match &ns[i] {
            HtmlNode::Text { contents } => {
                r.append(contents.as_str());
            },
            HtmlNode::Element { children, .. } => {
                let inner = collect_text_from_children(children);
                r.append(inner.as_str());
            },
            _ => {},
        }
        assert(r@ =~= before + node_text(html_view(ns@[i as int])));
        i = i + 1;
    }
    proof { lemma_html_views_full(ns@); }
    r
}

/// Whether the text is all whitespace (`str::trim` leaves nothing).
fn blank_text(s: &str) -> (r: bool)
    ensures
        r == (trim_ws(s@).len() == 0),
{
    let cs = chars_of(s);
    let (a, b) = trim_bounds(&cs, 0, cs.len());
    assert(cs@.subrange(0, cs@.len() as int) =~= s@);
    a == b
}

/// The walk's state in executable form.
struct Converter {
    root: Vec<MdNode>,
    para: Option<Vec<MdNode>>,
    depth: usize,
}

impl Converter {
    spec fn acc(&self) -> Acc {
        Acc { root: md_views(self.root@), para: para_view(self.para) }
    }

    /// Closes the open paragraph.
    fn end_paragraph(&mut self)
        ensures
            final(self).acc() == end_par(old(self).acc()),
            final(self).depth == old(self).depth,
    {
        match self.para.take() {
            Some(children) => {
                if children.len() > 0 {
                    let ghost before = self.root@;
                    let node = MdNode::Paragraph { children };
                    self.root.push(node);
                    proof { lemma_md_views_push(before, node); }
                }
            },
            None => {},
        }
    }

    /// Adds an inline node to the open paragraph, opening one if needed.
    fn push_inline(&mut self, t: MdNode)
        ensures
            final(self).acc() == with_inline(old(self).acc(), t@),
            final(self).depth == old(self).depth,
    {
        match self.para.take() {
            Some(mut p) => {
                let ghost before = p@;
                p.push(t);
                proof { lemma_md_views_push(before, t); }
                self.para = Some(p);
            },
            None => {
                let mut p: Vec<MdNode> = Vec::new();
                p.push(t);
                proof {
                    lemma_md_views_push(Seq::empty(), t);
                    assert(Seq::<MdNode>::empty().push(t) =~= p@);
                    assert(md_views(Seq::<MdNode>::empty()) =~= Seq::<MdTree>::empty());
                    assert(Seq::<MdTree>::empty().push(t@) =~= seq![t@]);
                }
                self.para = Some(p);
            },
        }
    }

    /// Walks the nodes in order.
    fn walk_seq(&mut self, ns: &Vec<HtmlNode>)
        ensures
            final(self).acc() == walk_seq(html_views(ns@), old(self).acc(), old(self).depth as nat),
            final(self).depth == old(self).depth,
        decreases ns, 0int,
    {
        let ghost start = self.acc();
        let mut i: usize = 0;
        while i < ns.len()
            invariant
                i <= ns@.len(),
                self.depth == old(self).depth,
                start == old(self).acc(),
                self.acc() == walk_seq(html_views(ns@.take(i as int)), start, self.depth as nat),
            decreases ns.len() - i,
        {
            proof { lemma_html_views_step(ns@, i as int); }
            self.walk(&ns[i]);
            i = i + 1;
        }
        proof { lemma_html_views_full(ns@); }
    }

    /// Walks one node.
    fn walk(&mut self, n: &HtmlNode)
        ensures
            final(self).acc() == walk(n@, old(self).acc(), old(self).depth as nat),
            final(self).depth == old(self).depth,
        decreases n, 3int,
    {
        match n {
            HtmlNode::Document { children } => self.walk_seq(children),
            HtmlNode::Element { tag, attrs, children } => self.walk_element(tag, attrs, children),
            HtmlNode::Text { contents } => {
                if !blank_text(contents.as_str()) {
                    self.push_inline(MdNode::Text { value: contents.clone() });
                }
            },
            HtmlNode::Other => {},
        }
    }

    /// Walks an element.
    fn walk_element(&mut self, tag: &String, attrs: &Vec<(String, String)>, cs: &Vec<HtmlNode>)
        ensures
            final(self).acc() == walk(
                HtmlTree::Element(tag@, crate::html::attr_views(attrs@), html_views(cs@)),
                old(self).acc(),
                old(self).depth as nat,
            ),
            final(self).depth == old(self).depth,
        decreases cs, 2int,
    {
        let t = tag.as_str();
        let ghost kids = html_views(cs@);
        let ghost depth = self.depth as nat;
        if skipped_tag(t) {
            return;
        }
        if let Some(level) = heading_level_of(t) {
            self.end_paragraph();
            let children = self.accumulate(cs);
            let ghost before = self.root@;
            let node = MdNode::Heading { depth: level, children };
            self.root.push(node);
            proof { lemma_md_views_push(before, node); }
        } else if text_eq(t, "p") {
            if self.para.is_none() {
                self.para = Some(Vec::new());
            }
            self.walk_seq(cs);
            self.end_paragraph();
        } else if text_eq(t, "pre") {
            self.end_paragraph();
            let value = collect_text_from_children(cs);
            let ghost before = self.root@;
            let node = MdNode::Code { value, lang: None };
            self.root.push(node);
            proof { lemma_md_views_push(before, node); }
        } else if text_eq(t, "a") {
            let href = get_attr(attrs, "href");
            let children = self.accumulate(cs);
            let raw = match href {
                Some(h) => h,
                None => {
                    proof { reveal_strlit("#"); }
                    String::from_str("#")
                },
            };
            let url = rewrite_docs_link(raw.as_str(), self.depth);
            self.push_inline(MdNode::Link { url, children });
        } else if text_eq(t, "ul") || text_eq(t, "ol") {
            self.end_paragraph();
            let ordered = text_eq(t, "ol");
            let items = self.build_list(cs);
            let ghost before = self.root@;
            let node = MdNode::List { ordered, start: if ordered { Some(1) } else { None }, children: items };
            self.root.push(node);
            proof { lemma_md_views_push(before, node); }
        } else if text_eq(t, "blockquote") {
            self.end_paragraph();
            let blocks = self.fresh_block(cs);
            let ghost before = self.root@;
            let node = MdNode::Blockquote { children: blocks };
            self.root.push(node);
            proof { lemma_md_views_push(before, node); }
        } else if text_eq(t, "code") {
            let value = collect_text_from_children(cs);
            self.push_inline(MdNode::InlineCode { value });
        } else if text_eq(t, "em") || text_eq(t, "i") {
            let children = self.accumulate(cs);
            self.push_inline(MdNode::Emphasis { children });
        } else if text_eq(t, "strong") || text_eq(t, "b") {
            let children = self.accumulate(cs);
            self.push_inline(MdNode::Strong { children });
        } else if text_eq(t, "table") {
            self.end_paragraph();
            let rows = self.build_table_rows(cs);
            let count = max_row_cells(&rows);
            let mut align: Vec<ColumnAlign> = Vec::new();
            let mut j: usize = 0;
            while j < count
                invariant
                    j <= count,
                    align@ =~= Seq::new(j as nat, |k: int| ColumnAlign::Unaligned),
                decreases count - j,
            {
                align.push(ColumnAlign::Unaligned);
                j = j + 1;
            }
            let ghost before = self.root@;
            let node = MdNode::Table { align, children: rows };
            self.root.push(node);
            proof { lemma_md_views_push(before, node); }
        } else {
            self.walk_seq(cs);
        }
    }

    /// Gathers the inline content of an element, keeping the paragraph of before.
    fn accumulate(&mut self, cs: &Vec<HtmlNode>) -> (children: Vec<MdNode>)
        ensures
            md_views(children@) == gathered(
                walk_seq(html_views(cs@), inline_start(old(self).acc()), old(self).depth as nat),
            ),
            final(self).acc() == restored(
                walk_seq(html_views(cs@), inline_start(old(self).acc()), old(self).depth as nat),
                old(self).acc(),
            ),
            final(self).depth == old(self).depth,
        decreases cs, 1int,
    {
        let saved = self.para.take();
        self.para = Some(Vec::new());
        assert(self.acc() == inline_start(old(self).acc()));
        self.walk_seq(cs);
        let children = match self.para.take() {
            Some(c) => c,
            None => Vec::new(),
        };
        self.para = saved;
        children
    }

    /// The blocks that the nodes give when walked on their own.
    fn fresh_block(&mut self, cs: &Vec<HtmlNode>) -> (blocks: Vec<MdNode>)
        ensures
            md_views(blocks@) == block_children(html_views(cs@), old(self).depth as nat),
            final(self).acc() == old(self).acc(),
            final(self).depth == old(self).depth,
        decreases cs, 1int,
    {
        let mut saved_root: Vec<MdNode> = Vec::new();
        std::mem::swap(&mut saved_root, &mut self.root);
        let saved_para = self.para.take();
        assert(self.acc() == fresh());
        self.walk_seq(cs);
        self.end_paragraph();
        let mut blocks: Vec<MdNode> = Vec::new();
        std::mem::swap(&mut blocks, &mut self.root);
        self.root = saved_root;
        self.para = saved_para;
        blocks
    }

    /// The items of a list.
    fn build_list(&mut self, cs: &Vec<HtmlNode>) -> (items: Vec<MdNode>)
        ensures
            md_views(items@) == list_items(html_views(cs@), old(self).depth as nat),
            final(self).acc() == old(self).acc(),
            final(self).depth == old(self).depth,
        decreases cs, 1int,
    {
        let mut items: Vec<MdNode> = Vec::new();
        let mut i: usize = 0;
        while i < cs.len()
            invariant
                i <= cs@.len(),
                self.depth == old(self).depth,
                self.acc() == old(self).acc(),
                md_views(items@) == list_items(html_views(cs@.take(i as int)), self.depth as nat),
            decreases cs.len() - i,
        {
            proof { lemma_html_views_step(cs@, i as int); }
            match &cs[i] {
                HtmlNode::Element { tag, children, .. } => {
                    if text_eq(tag.as_str(), "li") {
                        let blocks = self.fresh_block(children);
                        let ghost before = items@;
                        let item = MdNode::ListItem { children: blocks };
                        items.push(item);
                        proof { lemma_md_views_push(before, item); }
                    }
                },
                _ => {},
            }
            i = i + 1;
        }
        proof { lemma_html_views_full(cs@); }
        items
    }

    /// The cells of a table row.
    fn build_row(&mut self, cs: &Vec<HtmlNode>) -> (cells: Vec<MdNode>)
        ensures
            md_views(cells@) == row_cells_of(html_views(cs@), old(self).depth as nat),
            final(self).acc() == old(self).acc(),
            final(self).depth == old(self).depth,
        decreases cs, 1int,
    {
        let mut cells: Vec<MdNode> = Vec::new();
        let mut i: usize = 0;
        while i < cs.len()
            invariant
                i <= cs@.len(),
                self.depth == old(self).depth,
                self.acc() == old(self).acc(),
                md_views(cells@) == row_cells_of(html_views(cs@.take(i as int)), self.depth as nat),
            decreases cs.len() - i,
        {
            proof { lemma_html_views_step(cs@, i as int); }
            match &cs[i] {
                HtmlNode::Element { tag, children, .. } => {
                    if text_eq(tag.as_str(), "th") || text_eq(tag.as_str(), "td") {
                        let mut blocks = self.fresh_block(children);
                        if blocks.len() == 0 {
                            let empty = MdNode::Text { value: String::new() };
                            blocks.push(empty);
                            proof {
                                lemma_md_views_push(Seq::empty(), empty);
                                assert(Seq::<MdNode>::empty().push(empty) =~= blocks@);
                                assert(md_views(Seq::<MdNode>::empty()) =~= Seq::<MdTree>::empty());
                                assert(Seq::<MdTree>::empty().push(empty@) =~= seq![MdTree::Text(Seq::empty())]);
                            }
                        }
                        let ghost before = cells@;
                        let cell = MdNode::TableCell { children: blocks };
                        cells.push(cell);
                        proof { lemma_md_views_push(before, cell); }
                    }
                },
                _ => {},
            }
            i = i + 1;
        }
        proof { lemma_html_views_full(cs@); }
        cells
    }

    /// The rows of a table section.
    fn build_section(&mut self, cs: &Vec<HtmlNode>) -> (rows: Vec<MdNode>)
        ensures
            md_views(rows@) == section_rows(html_views(cs@), old(self).depth as nat),
            final(self).acc() == old(self).acc(),
            final(self).depth == old(self).depth,
        decreases cs, 1int,
    {
        let mut rows: Vec<MdNode> = Vec::new();
        let mut i: usize = 0;
        while i < cs.len()
            invariant
                i <= cs@.len(),
                self.depth == old(self).depth,
                self.acc() == old(self).acc(),
                md_views(rows@) == section_rows(html_views(cs@.take(i as int)), self.depth as nat),
            decreases cs.len() - i,
        {
            proof { lemma_html_views_step(cs@, i as int); }
            match &cs[i] {
                HtmlNode::Element { tag, children, .. } => {
                    if text_eq(tag.as_str(), "tr") {
                        let cells = self.build_row(children);
                        let ghost before = rows@;
                        let row = MdNode::TableRow { children: cells };
                        rows.push(row);
                        proof { lemma_md_views_push(before, row); }
                    }
                },
                _ => {},
            }
            i = i + 1;
        }
        proof { lemma_html_views_full(cs@); }
        rows
    }

    /// The rows of a table.
    fn build_table_rows(&mut self, cs: &Vec<HtmlNode>) -> (rows: Vec<MdNode>)
        ensures
            md_views(rows@) == table_rows_of(html_views(cs@), old(self).depth as nat),
            final(self).acc() == old(self).acc(),
            final(self).depth == old(self).depth,
        decreases cs, 1int,
    {
        let mut rows: Vec<MdNode> = Vec::new();
        let mut i: usize = 0;
        while i < cs.len()
            invariant
                i <= cs@.len(),
                self.depth == old(self).depth,
                self.acc() == old(self).acc(),
                md_views(rows@) == table_rows_of(html_views(cs@.take(i as int)), self.depth as nat),
            decreases cs.len() - i,
        {
            proof { lemma_html_views_step(cs@, i as int); }
            match &cs[i] {
                HtmlNode::Element { tag, children, .. } => {
                    if text_eq(tag.as_str(), "thead") || text_eq(tag.as_str(), "tbody") {
                        let mut section = self.build_section(children);
                        let ghost before = rows@;
                        let ghost added = section@;
                        rows.append(&mut section);
                        proof { lemma_md_views_append(before, added); }
                    } else if text_eq(tag.as_str(), "tr") {
                        let cells = self.build_row(children);
                        let ghost before = rows@;
                        let row = MdNode::TableRow { children: cells };
                        rows.push(row);
                        proof { lemma_md_views_push(before, row); }
                    }
                },
                _ => {},
            }
            i = i + 1;
        }
        proof { lemma_html_views_full(cs@); }
        rows
    }
}

/// The largest number of cells in a row.
fn max_row_cells(rows: &Vec<MdNode>) -> (r: usize)
    ensures
        r == max_cells(md_views(rows@)),
{
    let mut m: usize = 0;
    let mut i: usize = 0;
    while i < rows.len()
        invariant
            i <= rows@.len(),
            m == max_cells(md_views(rows@.take(i as int))),
        decreases rows.len() - i,
    {
        let ghost t = md_views(rows@.take(i + 1));
        proof { crate::mdast::lemma_md_views_step(rows@, i as int); }
        let c: usize = match &rows[i] {
            MdNode::TableRow { children } => children.len(),
            _ => 0,
        };
        proof { lemma_md_views_len(match rows@[i as int] { MdNode::TableRow { children } => children@, _ => Seq::empty() }); }
        if c > m {
            m = c;
        }
        i = i + 1;
    }
    proof { crate::mdast::lemma_md_views_full(rows@); }
    m
}

pub proof fn lemma_md_views_append(a: Seq<MdNode>, b: Seq<MdNode>)
    ensures
        md_views(a + b) == md_views(a) + md_views(b),
    decreases b.len(),
{
    if b.len() == 0 {
        assert(a + b =~= a);
        assert(md_views(a) + md_views(b) =~= md_views(a));
    } else {
        lemma_md_views_append(a, b.drop_last());
        assert((a + b).drop_last() =~= a + b.drop_last());
        assert(md_views(a) + md_views(b) =~= (md_views(a) + md_views(b.drop_last())).push(md_view(b.last())));
    }
}

/// Errors of the conversion.
#[derive(Debug)]
pub enum ConversionError {
    /// The HTML could not be read; the message of the reader.
    ParseError(String),
}

/// The mdast tree of a parsed document: a root whose children are the blocks
/// of the walk (`mdast_of`).
pub fn convert_document(doc: &HtmlNode, depth: usize) -> (r: MdNode)
    ensures
        r@ == mdast_of(doc@, depth as nat),
{
    let mut c = Converter { root: Vec::new(), para: None, depth };
    assert(c.acc() == fresh());
    c.walk(doc);
    c.end_paragraph();
    MdNode::Root { children: c.root }
}

/// Parses `html` as a document and converts it into an mdast root.
pub fn convert(html: &str, depth: usize) -> (r: Result<MdNode, ConversionError>)
    ensures
        match html_document(html@) {
            Ok(doc) => r matches Ok(t) && t@ == mdast_of(doc, depth as nat),
            Err(m) => r matches Err(ConversionError::ParseError(x)) && x@ == m,
        },
{
    match parse_html_document(html) {
        Ok(doc) => Ok(convert_document(&doc, depth)),
        Err(m) => Err(ConversionError::ParseError(m)),
    }
}

/// A skipped element (`script`, `style`, `iframe`, `object`, `embed`, `link`)
/// changes nothing: walking a sequence of nodes with one inserted anywhere
/// gives the same state as walking the sequence without it.
pub proof fn lemma_skipped_element_ignored(
    ns: Seq<HtmlTree>,
    k: int,
    tag: Seq<char>,
    attrs: Seq<(Seq<char>, Seq<char>)>,
    cs: Seq<HtmlTree>,
    a: Acc,
    depth: nat,
)
    requires
        0 <= k <= ns.len(),
        is_skipped(tag),
    ensures
        walk_seq(ns.insert(k, HtmlTree::Element(tag, attrs, cs)), a, depth) == walk_seq(ns, a, depth),
    decreases ns.len(),
{
    let e = HtmlTree::Element(tag, attrs, cs);
    let with = ns.insert(k, e);
    if k == ns.len() {
        assert(with.drop_last() =~= ns);
        assert(with.last() == e);
        let before = walk_seq(ns, a, depth);
        assert(walk(e, before, depth) == before);
        assert(walk_seq(with, a, depth) == walk(e, walk_seq(with.drop_last(), a, depth), depth));
    } else {
        lemma_skipped_element_ignored(ns.drop_last(), k, tag, attrs, cs, a, depth);
        assert(with.drop_last() =~= ns.drop_last().insert(k, e));
        assert(with.last() == ns.last());
        assert(walk_seq(with, a, depth) == walk(with.last(), walk_seq(with.drop_last(), a, depth), depth));
        assert(walk_seq(ns, a, depth) == walk(ns.last(), walk_seq(ns.drop_last(), a, depth), depth));
    }
}

/// A document converts to the same mdast with or without a skipped element
/// among its top-level nodes.
pub proof fn lemma_skipped_element_ignored_in_document(
    ns: Seq<HtmlTree>,
    k: int,
    tag: Seq<char>,
    attrs: Seq<(Seq<char>, Seq<char>)>,
    cs: Seq<HtmlTree>,
    depth: nat,
)
    requires
        0 <= k <= ns.len(),
        is_skipped(tag),
    ensures
        mdast_of(HtmlTree::Document(ns.insert(k, HtmlTree::Element(tag, attrs, cs))), depth) == mdast_of(
            HtmlTree::Document(ns),
            depth,
        ),
{
    lemma_skipped_element_ignored(ns, k, tag, attrs, cs, fresh(), depth);
}

/// A block that the walk puts at the top level.
pub open spec fn is_top_block(t: MdTree) -> bool {
    ||| t is Paragraph
    ||| t is Heading
    ||| t matches MdTree::Code(_, None)
    ||| t is List
    ||| t is Blockquote
    ||| t is Table
}

/// All of `s` are top-level blocks.
pub open spec fn all_top_blocks(s: Seq<MdTree>) -> bool {
    forall|i: int| 0 <= i < s.len() ==> is_top_block(#[trigger] s[i])
}

proof fn lemma_end_par_blocks(a: Acc)
    requires
        all_top_blocks(a.root),
    ensures
        all_top_blocks(end_par(a).root),
{
}

proof fn lemma_walk_blocks(n: HtmlTree, a: Acc, depth: nat)
    requires
        all_top_blocks(a.root),
    ensures
        all_top_blocks(walk(n, a, depth).root),
    decreases n, 2int,
{
    match n {
        HtmlTree::Document(cs) => lemma_walk_seq_blocks(cs, a, depth),
        HtmlTree::Element(tag, attrs, cs) => {
            let b = end_par(a);
            lemma_end_par_blocks(a);
            lemma_walk_seq_blocks(cs, inline_start(b), depth);
            lemma_walk_seq_blocks(cs, inline_start(a), depth);
            lemma_walk_seq_blocks(cs, start_par(a), depth);
            lemma_end_par_blocks(walk_seq(cs, start_par(a), depth));
            lemma_walk_seq_blocks(cs, a, depth);
        },
        _ => {},
    }
}

proof fn lemma_walk_seq_blocks(ns: Seq<HtmlTree>, a: Acc, depth: nat)
    requires
        all_top_blocks(a.root),
    ensures
        all_top_blocks(walk_seq(ns, a, depth).root),
    decreases ns, 0int,
{
    if ns.len() > 0 {
        lemma_walk_seq_blocks(ns.drop_last(), a, depth);
        lemma_walk_blocks(ns.last(), walk_seq(ns.drop_last(), a, depth), depth);
    }
}

/// A converted document is a root whose children are paragraphs, headings,
/// code blocks without a language, lists, block quotes and tables.
pub proof fn lemma_document_blocks(doc: HtmlTree, depth: nat)
    ensures
        mdast_of(doc, depth) is Root,
        all_top_blocks(mdast_of(doc, depth)->Root_0),
{
    lemma_walk_blocks(doc, fresh(), depth);
    lemma_end_par_blocks(walk(doc, fresh(), depth));
}

/// A heading element `h1` to `h6` becomes a heading whose depth is the digit
/// of its tag: walking `<hn>` (any attributes and children, in any state)
/// appends a heading of depth `n` as the last top-level block.
pub proof fn lemma_heading_depth_is_tag_digit(
    n: nat,
    attrs: Seq<(Seq<char>, Seq<char>)>,
    cs: Seq<HtmlTree>,
    a: Acc,
    depth: nat,
)
    requires
        1 <= n <= 6,
    ensures
        heading_level(seq!['h', crate::text::digit_char(n)]) == Some(n as u8),
        walk(HtmlTree::Element(seq!['h', crate::text::digit_char(n)], attrs, cs), a, depth).root.last()
            matches MdTree::Heading(d, _) && d == n,
{
    reveal_strlit("h1");
    reveal_strlit("h2");
    reveal_strlit("h3");
    reveal_strlit("h4");
    reveal_strlit("h5");
    reveal_strlit("h6");
    reveal_strlit("script");
    reveal_strlit("iframe");
    reveal_strlit("object");
    reveal_strlit("embed");
    reveal_strlit("style");
    reveal_strlit("link");
    let tag = seq!['h', crate::text::digit_char(n)];
    assert(tag.len() == 2);
    assert(!is_skipped(tag)) by {
        assert(tag != "link"@ && tag != "style"@ && tag != "embed"@ && tag != "object"@ && tag != "iframe"@
            && tag != "script"@);
    }
    if n == 1 {
        assert(tag =~= "h1"@);
    } else if n == 2 {
        assert(tag =~= "h2"@);
        assert(tag != "h1"@) by { assert(tag[1] != "h1"@[1]); }
    } else if n == 3 {
        assert(tag =~= "h3"@);
        assert(tag != "h1"@) by { assert(tag[1] != "h1"@[1]); }
        assert(tag != "h2"@) by { assert(tag[1] != "h2"@[1]); }
    } else if n == 4 {
        assert(tag =~= "h4"@);
        assert(tag != "h1"@) by { assert(tag[1] != "h1"@[1]); }
        assert(tag != "h2"@) by { assert(tag[1] != "h2"@[1]); }
        assert(tag != "h3"@) by { assert(tag[1] != "h3"@[1]); }
    } else if n == 5 {
        assert(tag =~= "h5"@);
        assert(tag != "h1"@) by { assert(tag[1] != "h1"@[1]); }
        assert(tag != "h2"@) by { assert(tag[1] != "h2"@[1]); }
        assert(tag != "h3"@) by { assert(tag[1] != "h3"@[1]); }
        assert(tag != "h4"@) by { assert(tag[1] != "h4"@[1]); }
    } else {
        assert(tag =~= "h6"@);
        assert(tag != "h1"@) by { assert(tag[1] != "h1"@[1]); }
        assert(tag != "h2"@) by { assert(tag[1] != "h2"@[1]); }
        assert(tag != "h3"@) by { assert(tag[1] != "h3"@[1]); }
        assert(tag != "h4"@) by { assert(tag[1] != "h4"@[1]); }
        assert(tag != "h5"@) by { assert(tag[1] != "h5"@[1]); }
    }
}

} // verus!
