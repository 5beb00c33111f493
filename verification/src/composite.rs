//! The composite renderer: each node goes to the renderer made for its kind,
//! and the pieces are composed into one Markdown text.

use vstd::prelude::*;
use crate::compositor::{composable, composed, rows_fit, Compositor};
use crate::mdast::{lemma_md_views_len, md_views, MdNode, MdTree};
use crate::render::{
    blockquote_rendering, heading_rendering, list_rendering, paragraph_rendering, BlockquoteRenderer,
    HeadingRenderer, ListRenderer, MdRender, ParagraphRenderer, RenderError, RenderResult, Rendered,
};
use crate::standard::{markdown_writable, standard_markdown, standard_rendered, StandardRenderer};
use crate::table::{table_rendering, table_rows, StructuralTableRenderer};

verus! {

/// A node that one of the structural renderers handles itself.
pub open spec fn has_own_renderer(t: MdTree) -> bool {
    t is Table || t is Paragraph || t is Heading || t is List || t is Blockquote
}

/// A node that the composite renderer can take among a root's children:
/// a table whose rows are no longer than its first row, a node with a
/// renderer of its own, or one that the standard renderer can write.
pub open spec fn renderable_child(t: MdTree) -> bool {
    match t {
        MdTree::Table(_, rows) => rows_fit(table_rows(rows)),
        _ => has_own_renderer(t) || markdown_writable(t),
    }
}

/// The piece a child of a root gives, or `None` where rendering fails (a table
/// without rows, or an error of the standard renderer).
pub open spec fn child_piece(t: MdTree) -> Option<Rendered> {
    if t is Table {
        table_rendering(t)
    } else if t is Paragraph {
        paragraph_rendering(t)
    } else if t is Heading {
        heading_rendering(t)
    } else if t is List {
        list_rendering(t)
    } else if t is Blockquote {
        blockquote_rendering(t)
    } else {
        match standard_markdown(t) {
            Ok(md) => Some(standard_rendered(t, md)),
            Err(_) => None,
        }
    }
}

/// `e` is the error that rendering `t` fails with.
pub open spec fn child_error(t: MdTree, e: RenderError) -> bool {
    if t is Table {
        e is InvalidTable
    } else {
        e matches RenderError::StandardFailed(m) && standard_markdown(t) == Err::<Seq<char>, Seq<char>>(m@)
    }
}

/// The outcome of rendering a sequence of nodes: the composition of their
/// pieces when all succeed, else the error of the first one that fails.
pub open spec fn many_outcome(ts: Seq<MdTree>, r: Result<String, RenderError>) -> bool {
    match r {
        Ok(s) => (forall|i: int| 0 <= i < ts.len() ==> #[trigger] child_piece(ts[i]) is Some) && s@ == composed(
            Seq::new(ts.len(), |i: int| child_piece(ts[i])->0),
        ),
        Err(e) => exists|k: int|
            0 <= k < ts.len() && (forall|j: int| 0 <= j < k ==> #[trigger] child_piece(ts[j]) is Some)
                && #[trigger] child_piece(ts[k]) is None && child_error(ts[k], e),
    }
}

/// A node that the composite renderer can take: a root of renderable children,
/// a table whose rows fit, or a node the standard renderer can write.
pub open spec fn renderable(t: MdTree) -> bool {
    match t {
        MdTree::Root(k) => forall|i: int| 0 <= i < k.len() ==> renderable_child(#[trigger] k[i]),
        MdTree::Table(_, rows) => rows_fit(table_rows(rows)),
        _ => markdown_writable(t),
    }
}

/// The outcome of rendering one node: a root renders its children one by one,
/// a table goes to the table renderer, anything else to the standard renderer.
pub open spec fn render_outcome(t: MdTree, r: Result<String, RenderError>) -> bool {
    match t {
        MdTree::Root(k) => many_outcome(k, r),
        MdTree::Table(_, _) => match table_rendering(t) {
            Some(v) => r matches Ok(s) && s@ == composed(seq![v]),
            None => r matches Err(e) && e is InvalidTable,
        },
        _ => match standard_markdown(t) {
            Ok(md) => r matches Ok(s) && s@ == composed(seq![standard_rendered(t, md)]),
            Err(m) => r matches Err(e) && e matches RenderError::StandardFailed(x) && x@ == m,
        },
    }
}

proof fn lemma_root_children(k: Seq<MdTree>)
    requires
        renderable(MdTree::Root(k)),
    ensures
        forall|j: int| 0 <= j < k.len() ==> renderable_child(#[trigger] k[j]),
{
    let t = MdTree::Root(k);
    assert(t->Root_0 == k);
}

/// Renders mdast nodes with the renderer made for each kind and composes the
/// pieces.
pub struct CompositeRenderer {
    blockquote: BlockquoteRenderer,
    heading: HeadingRenderer,
    list: ListRenderer,
    paragraph: ParagraphRenderer,
    standard: StandardRenderer,
    table: StructuralTableRenderer,
    compositor: Compositor,
}

impl CompositeRenderer {
    /// The composite renderer with the default renderer for each kind.
    pub closed spec fn with_default_parts() -> CompositeRenderer {
        CompositeRenderer {
            blockquote: BlockquoteRenderer,
            heading: HeadingRenderer,
            list: ListRenderer,
            paragraph: ParagraphRenderer,
            standard: StandardRenderer,
            table: StructuralTableRenderer,
            compositor: Compositor,
        }
    }

    pub fn new() -> (r: Self)
        ensures
            r == CompositeRenderer::with_default_parts(),
    {
        CompositeRenderer {
            blockquote: BlockquoteRenderer::new(),
            heading: HeadingRenderer::new(),
            list: ListRenderer::new(),
            paragraph: ParagraphRenderer::new(),
            standard: StandardRenderer::new(),
            table: StructuralTableRenderer::new(),
            compositor: Compositor::new(),
        }
    }

    /// Renders one child of a root with the renderer for its kind.
    fn render_child(&self, node: &MdNode) -> (r: Result<RenderResult, RenderError>)
        requires
            renderable_child(node@),
        ensures
            match child_piece(node@) {
                Some(v) => r matches Ok(res) && res@ == v && composable(v),
                None => r matches Err(e) && child_error(node@, e),
            },
    {
        match node {
            MdNode::Table { .. } => self.table.render(node),
            MdNode::Paragraph { .. } => self.paragraph.render(node),
            MdNode::Heading { .. } => self.heading.render(node),
            MdNode::List { .. } => self.list.render(node),
            MdNode::Blockquote { .. } => self.blockquote.render(node),
            _ => self.standard.render(node),
        }
    }

    /// Renders the nodes one by one and composes the pieces; fails with the
    /// error of the first node that cannot be rendered.
    pub fn render_many(&self, nodes: &Vec<MdNode>) -> (r: Result<String, RenderError>)
        requires
            forall|i: int| 0 <= i < nodes@.len() ==> renderable_child(#[trigger] nodes@[i]@),
        ensures
            many_outcome(md_views(nodes@), r),
    {
        let ghost ts = md_views(nodes@);
        proof { lemma_md_views_len(nodes@); }
        let mut results: Vec<RenderResult> = Vec::new();
        let mut i: usize = 0;
        while i < nodes.len()
            invariant
                ts == md_views(nodes@),
                ts.len() == nodes@.len(),
                forall|k: int| 0 <= k < nodes@.len() ==> #[trigger] ts[k] == nodes@[k]@,
                forall|k: int| 0 <= k < nodes@.len() ==> renderable_child(#[trigger] nodes@[k]@),
                i <= nodes@.len(),
                results@.len() == i,
                forall|k: int| 0 <= k < i ==> #[trigger] child_piece(ts[k]) is Some,
                forall|k: int| 0 <= k < i ==> #[trigger] results@[k]@ == child_piece(ts[k])->0,
                forall|k: int| 0 <= k < i ==> composable(#[trigger] results@[k]@),
            decreases nodes.len() - i,
        {
            assert(ts[i as int] == nodes@[i as int]@);
            match self.render_child(&nodes[i]) {
                Ok(res) => {
                    results.push(res);
                },
                Err(e) => {
                    assert(child_piece(ts[i as int]) is None);
                    return Err(e);
                },
            }
            i = i + 1;
        }
        let ghost pieces = Seq::new(ts.len(), |k: int| child_piece(ts[k])->0);
        assert(results@.map_values(|x: RenderResult| x@) =~= pieces);
        Ok(self.compositor.compose(results))
    }

    /// Renders a node: a root child by child, a table with the table renderer,
    /// anything else with the standard renderer.
    pub fn render(&self, node: &MdNode) -> (r: Result<String, RenderError>)
        requires
            renderable(node@),
        ensures
            render_outcome(node@, r),
    {
        match node {
            MdNode::Root { children } => {
                proof {
                    lemma_md_views_len(children@);
                    lemma_root_children(md_views(children@));
                    assert forall|i: int| 0 <= i < children@.len() implies renderable_child(#[trigger] children@[i]@) by {
                        assert(md_views(children@)[i] == children@[i]@);
                    }
                }
                self.render_many(children)
            },
            MdNode::Table { .. } => {
                let result = self.table.render(node)?;
                let mut v: Vec<RenderResult> = Vec::new();
                v.push(result);
                assert(v@.map_values(|x: RenderResult| x@) =~= seq![result@]);
                Ok(self.compositor.compose(v))
            },
            _ => {
                let result = self.standard.render(node)?;
                let mut v: Vec<RenderResult> = Vec::new();
                v.push(result);
                assert(v@.map_values(|x: RenderResult| x@) =~= seq![result@]);
                Ok(self.compositor.compose(v))
            },
        }
    }
}

/// A composite renderer with its default parts: the same renderer that
/// [`CompositeRenderer::new`] gives, so it renders every node alike.
pub fn create_composite_renderer() -> (r: CompositeRenderer)
    ensures
        r == CompositeRenderer::with_default_parts(),
{
    CompositeRenderer::new()
}

} // verus!
