//! Structural rendering of mdast tables into rows of cell text.

use vstd::prelude::*;
use crate::mdast::{lemma_md_views_full, lemma_md_views_step, md_view, md_views, MdNode, MdTree};
use crate::render::{strs, lemma_strs_push, MdRender, RenderError, RenderResult, Rendered};
use crate::text::push_char;

verus! {

/// `s` with every `|` written as `\|`.
pub open spec fn escape_pipes(s: Seq<char>) -> Seq<char>
    decreases s.len(),
{
    if s.len() == 0 {
        Seq::empty()
    } else {
        escape_pipes(s.drop_last()) + if s.last() == '|' {
            seq!['\\', '|']
        } else {
            seq![s.last()]
        }
    }
}

/// Cell text of an inline node: like inline Markdown, with pipes escaped in
/// text and code, and paragraphs flattened.
pub open spec fn cell_inline(t: MdTree) -> Seq<char>
    decreases t,
{
    match t {
        MdTree::Text(v) => escape_pipes(v),
        MdTree::InlineCode(v) => "`"@ + escape_pipes(v) + "`"@,
        MdTree::Emphasis(k) => "*"@ + cell_inline_seq(k) + "*"@,
        MdTree::Strong(k) => "**"@ + cell_inline_seq(k) + "**"@,
        MdTree::Link(url, k) => "["@ + cell_inline_seq(k) + "]("@ + url + ")"@,
        MdTree::Paragraph(k) => cell_inline_seq(k),
        _ => Seq::empty(),
    }
}

/// Concatenated cell text of a sequence of nodes.
pub open spec fn cell_inline_seq(s: Seq<MdTree>) -> Seq<char>
    decreases s,
{
    if s.len() == 0 {
        Seq::empty()
    } else {
        cell_inline_seq(s.drop_last()) + cell_inline(s.last())
    }
}

/// The texts of the cells of a row (children that are not cells are skipped).
pub open spec fn row_cells(cs: Seq<MdTree>) -> Seq<Seq<char>>
    decreases cs.len(),
{
    if cs.len() == 0 {
        Seq::empty()
    } else {
        let rest = row_cells(cs.drop_last());
        match cs.last() {
            MdTree::TableCell(k) => rest.push(cell_inline_seq(k)),
            _ => rest,
        }
    }
}

/// The rows of a table (children that are not rows are skipped).
pub open spec fn table_rows(rs: Seq<MdTree>) -> Seq<Seq<Seq<char>>>
    decreases rs.len(),
{
    if rs.len() == 0 {
        Seq::empty()
    } else {
        let rest = table_rows(rs.drop_last());
        match rs.last() {
            MdTree::TableRow(k) => rest.push(row_cells(k)),
            _ => rest,
        }
    }
}

/// What the table renderer gives for a node: `Some` for a table with at least one row.
pub open spec fn table_rendering(t: MdTree) -> Option<Rendered> {
    match t {
        MdTree::Table(align, rows) => {
            let r = table_rows(rows);
            if r.len() == 0 {
                None
            } else {
                Some(Rendered::Table(r, align))
            }
        },
        _ => None,
    }
}

/// Renders tables into rows of cell text.
pub struct StructuralTableRenderer;

impl StructuralTableRenderer {
    pub fn new() -> (r: Self) {
        StructuralTableRenderer
    }

    /// Escapes pipe characters (`|` becomes `\|`).
    fn escape_pipe(out: &mut String, text: &str)
        ensures
            final(out)@ == old(out)@ + escape_pipes(text@),
    {
        let cs = crate::text::chars_of(text);
        let ghost start = out@;
        let mut i: usize = 0;
        while i < cs.len()
            invariant
                i <= cs@.len(),
                cs@ == text@,
                out@ == start + escape_pipes(cs@.take(i as int)),
            decreases cs.len() - i,
        {
            if cs[i] == '|' {
                push_char(out, '\\');
                push_char(out, '|');
            } else {
                push_char(out, cs[i]);
            }
            assert(cs@.take(i + 1).drop_last() =~= cs@.take(i as int));
            i = i + 1;
            assert(out@ =~= start + escape_pipes(cs@.take(i as int)));
        }
        assert(cs@.take(cs@.len() as int) =~= cs@);
    }

    fn render_inline_node(&self, out: &mut String, node: &MdNode)
        ensures
            final(out)@ == old(out)@ + cell_inline(node@),
        decreases node,
    {
        proof {
            reveal_strlit("*");
            reveal_strlit("**");
            reveal_strlit("[");
            reveal_strlit("](");
            reveal_strlit(")");
            reveal_strlit("`");
        }
        match node {
            MdNode::Text { value } => {
                Self::escape_pipe(out, value.as_str());
            },
            MdNode::InlineCode { value } => {
                out.append("`");
                Self::escape_pipe(out, value.as_str());
                out.append("`");
            },
            MdNode::Emphasis { children } => {
                out.append("*");
                self.render_inline_nodes(out, children);
                out.append("*");
            },
            MdNode::Strong { children } => {
                out.append("**");
                self.render_inline_nodes(out, children);
                out.append("**");
            },
            MdNode::Link { url, children } => {
                out.append("[");
                self.render_inline_nodes(out, children);
                out.append("](");
                out.append(url.as_str());
                out.append(")");
            },
            MdNode::Paragraph { children } => {
                self.render_inline_nodes(out, children);
            },
            _ => {},
        }
    }

    fn render_inline_nodes(&self, out: &mut String, ns: &Vec<MdNode>)
        ensures
            final(out)@ == old(out)@ + cell_inline_seq(md_views(ns@)),
        decreases ns,
    {
        let ghost start = out@;
        let mut i: usize = 0;
        while i < ns.len()
            invariant
                i <= ns@.len(),
                out@ == start + cell_inline_seq(md_views(ns@.take(i as int))),
            decreases ns.len() - i,
        {
            assert(decreases_to!(ns => ns@[i as int]));
            self.render_inline_node(out, &ns[i]);
            proof { lemma_md_views_step(ns@, i as int); }
            i = i + 1;
        }
        proof { lemma_md_views_full(ns@); }
    }

    /// Text of one cell.
    pub fn render_cell_inline(&self, children: &Vec<MdNode>) -> (r: String)
        ensures
            r@ == cell_inline_seq(md_views(children@)),
    {
        let mut r = String::new();
        self.render_inline_nodes(&mut r, children);
        assert(r@ =~= cell_inline_seq(md_views(children@)));
        r
    }

    /// Texts of the cells of one row.
    fn render_row_cells(&self, cells: &Vec<MdNode>) -> (r: Vec<String>)
        ensures
            strs(r@) == row_cells(md_views(cells@)),
    {
        let mut r: Vec<String> = Vec::new();
        let mut i: usize = 0;
        while i < cells.len()
            invariant
                i <= cells@.len(),
                strs(r@) == row_cells(md_views(cells@.take(i as int))),
            decreases cells.len() - i,
        {
            proof { lemma_md_views_step(cells@, i as int); }
            match &cells[i] {
                MdNode::TableCell { children } => {
                    let c = self.render_cell_inline(children);
                    proof { lemma_strs_push(r@, c); }
                    r.push(c);
                },
                _ => {},
            }
            i = i + 1;
        }
        proof { lemma_md_views_full(cells@); }
        r
    }
}

impl MdRender for StructuralTableRenderer {
    fn render(&self, node: &MdNode) -> (r: Result<RenderResult, RenderError>)
        ensures
            match table_rendering(node@) {
                Some(v) => r matches Ok(res) && res@ == v,
                None => r matches Err(e) && (if node@ is Table {
                    e is InvalidTable
                } else {
                    e is UnsupportedNode
                }),
            },
    {
        match node {
            MdNode::Table { align, children } => {
                let mut rows: Vec<Vec<String>> = Vec::new();
                let mut i: usize = 0;
                while i < children.len()
                    invariant
                        i <= children@.len(),
                        rows@.map_values(|r: Vec<String>| strs(r@)) == table_rows(md_views(children@.take(i as int))),
                    decreases children.len() - i,
                {
                    proof { lemma_md_views_step(children@, i as int); }
                    let ghost before = rows@;
                    match &children[i] {
                        MdNode::TableRow { children: cells } => {
                            let row = self.render_row_cells(cells);
                            rows.push(row);
                            assert(rows@.map_values(|r: Vec<String>| strs(r@)) =~= before.map_values(|r: Vec<String>| strs(r@)).push(strs(row@)));
                        },
                        _ => {},
                    }
                    i = i + 1;
                }
                proof { lemma_md_views_full(children@); }
                if rows.len() == 0 {
                    proof { reveal_strlit("No rows found"); }
                    return Err(RenderError::InvalidTable(String::from_str("No rows found")));
                }
                let mut al: Vec<crate::mdast::ColumnAlign> = Vec::new();
                let mut j: usize = 0;
                while j < align.len()
                    invariant
                        j <= align@.len(),
                        al@ == align@.take(j as int),
                    decreases align.len() - j,
                {
                    al.push(align[j]);
                    j = j + 1;
                    assert(al@ =~= align@.take(j as int));
                }
                assert(align@.take(align@.len() as int) =~= align@);
                Ok(RenderResult::Table { rows, align: al })
            },
            _ => {
                proof { reveal_strlit("Not a Table node"); }
                Err(RenderError::UnsupportedNode(String::from_str("Not a Table node")))
            },
        }
    }
}

} // verus!
