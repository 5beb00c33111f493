//! Assembly of rendered pieces into the final Markdown text, including GFM
//! table layout.

use vstd::prelude::*;
use vstd::utf8::encode_utf8;
use crate::mdast::ColumnAlign;
use crate::render::{lemma_strs_push, strs, RenderResult, Rendered};
use crate::text::{join, push_repeat, repeat};

verus! {

/// Byte length of a string in UTF-8, as `str::len` reports it.
pub open spec fn byte_len(s: Seq<char>) -> usize {
    encode_utf8(s).len() as usize
}

/// Largest byte length of column `col` over the first `k` rows (0 if none).
pub open spec fn max_cell_len(rows: Seq<Seq<Seq<char>>>, col: int, k: int) -> usize
    decreases k,
{
    if k <= 0 {
        0
    } else {
        let m = max_cell_len(rows, col, k - 1);
        let c = if col < rows[k - 1].len() { byte_len(rows[k - 1][col]) } else { 0 };
        if m >= c { m } else { c }
    }
}

/// Width of column `col`: the longest cell in bytes, at least 3.
pub open spec fn col_width(rows: Seq<Seq<Seq<char>>>, col: int) -> usize {
    let m = max_cell_len(rows, col, rows.len() as int);
    if m >= 3 { m } else { 3 }
}

/// Column widths, one per cell of the first row.
pub open spec fn col_widths(rows: Seq<Seq<Seq<char>>>) -> Seq<usize> {
    if rows.len() == 0 {
        Seq::empty()
    } else {
        Seq::new(rows[0].len(), |i: int| col_width(rows, i))
    }
}

/// No row has more cells than the first one (the widths are computed from the first row).
pub open spec fn rows_fit(rows: Seq<Seq<Seq<char>>>) -> bool {
    forall|r: int| 0 <= r < rows.len() ==> #[trigger] rows[r].len() <= rows[0].len()
}

/// `cell` padded on the right with spaces to `width` characters.
pub open spec fn padded(cell: Seq<char>, width: usize) -> Seq<char> {
    if cell.len() < width {
        cell + repeat(" "@, (width - cell.len()) as nat)
    } else {
        cell
    }
}

/// The number of columns a line is laid out with: as many as both sequences have.
pub open spec fn zip_len(a: int, b: int) -> int {
    if a <= b { a } else { b }
}

/// A table row line: `| cell | cell |`, each cell padded to its column width.
pub open spec fn row_line(row: Seq<Seq<char>>, widths: Seq<usize>) -> Seq<char> {
    "|"@ + join(
        Seq::new(zip_len(row.len() as int, widths.len() as int) as nat, |j: int| " "@ + padded(row[j], widths[j]) + " "@),
        "|"@,
    ) + "|"@
}

/// The alignment marker of a column of the given width.
pub open spec fn align_marker(a: ColumnAlign, width: usize) -> Seq<char> {
    let dashes = repeat("-"@, width as nat);
    match a {
        ColumnAlign::Left => ":"@ + dashes,
        ColumnAlign::Right => dashes + ":"@,
        ColumnAlign::Center => ":"@ + dashes + ":"@,
        ColumnAlign::Unaligned => dashes,
    }
}

/// The separator line under the header row.
pub open spec fn separator_line(align: Seq<ColumnAlign>, widths: Seq<usize>) -> Seq<char> {
    "|"@ + join(
        Seq::new(zip_len(align.len() as int, widths.len() as int) as nat, |j: int| " "@ + align_marker(align[j], widths[j]) + " "@),
        "|"@,
    ) + "|"@
}

/// A GFM table: header row, separator, remaining rows, joined by newlines.
pub open spec fn gfm_table(rows: Seq<Seq<Seq<char>>>, align: Seq<ColumnAlign>) -> Seq<char> {
    if rows.len() == 0 {
        Seq::empty()
    } else {
        let w = col_widths(rows);
        join(
            seq![row_line(rows[0], w), separator_line(align, w)] + Seq::new(
                (rows.len() - 1) as nat,
                |i: int| row_line(rows[i + 1], w),
            ),
            "\n"@,
        )
    }
}

/// The text of one rendered piece; blocks and tables that are not last are
/// followed by a blank line.
pub open spec fn piece_text(r: Rendered, is_last: bool) -> Seq<char> {
    let gap = if is_last { Seq::empty() } else { "\n\n"@ };
    match r {
        Rendered::Inline(s) => s,
        Rendered::Block(lines) => join(lines, "\n"@) + gap,
        Rendered::Table(rows, align) => gfm_table(rows, align) + gap,
    }
}

/// The composition of the first `k` of `rs`.
pub open spec fn composed_prefix(rs: Seq<Rendered>, k: int) -> Seq<char>
    decreases k,
{
    if k <= 0 {
        Seq::empty()
    } else {
        composed_prefix(rs, k - 1) + piece_text(rs[k - 1], k - 1 == rs.len() - 1)
    }
}

/// The composition of all of `rs`.
pub open spec fn composed(rs: Seq<Rendered>) -> Seq<char> {
    composed_prefix(rs, rs.len() as int)
}

/// A rendered piece that can be laid out: tables have no row longer than the first.
pub open spec fn composable(r: Rendered) -> bool {
    match r {
        Rendered::Table(rows, _) => rows_fit(rows),
        _ => true,
    }
}

/// Assembles rendered pieces into Markdown text.
pub struct Compositor;

impl Compositor {
    pub fn new() -> (r: Self) {
        Compositor
    }

    /// Joins the pieces: inline text as is, blocks and tables followed by a blank
    /// line unless they come last.
    pub fn compose(&self, results: Vec<RenderResult>) -> (r: String)
        requires
            forall|i: int| 0 <= i < results@.len() ==> composable(#[trigger] results@[i]@),
        ensures
            r@ == composed(results@.map_values(|x: RenderResult| x@)),
    {
        let ghost rs = results@.map_values(|x: RenderResult| x@);
        let mut out = String::new();
        let n = results.len();
        let mut i: usize = 0;
        proof {
            reveal_strlit("\n\n");
            reveal_strlit("\n");
        }
        while i < n
            invariant
                n == results@.len(),
                rs == results@.map_values(|x: RenderResult| x@),
                i <= n,
                out@ == composed_prefix(rs, i as int),
                forall|k: int| 0 <= k < results@.len() ==> composable(#[trigger] results@[k]@),
            decreases n - i,
        {
            let ghost before = out@;
            let is_last = i == n - 1;
            match &results[i] {
                RenderResult::Inline(s) => {
                    out.append(s.as_str());
                },
                RenderResult::Block(lines) => {
                    let content = join_strings(lines, "\n");
                    out.append(content.as_str());
                    if !is_last {
                        out.append("\n\n");
                    }
                },
                RenderResult::Table { rows, align } => {
                    assert(composable(results@[i as int]@));
                    let table = self.format_gfm_table(rows, align);
                    out.append(table.as_str());
                    if !is_last {
                        out.append("\n\n");
                    }
                },
            }
            assert(out@ =~= before + piece_text(rs[i as int], i == rs.len() - 1));
            i = i + 1;
        }
        out
    }

    pub fn format_gfm_table(&self, rows: &Vec<Vec<String>>, align: &Vec<ColumnAlign>) -> (r: String)
        requires
            rows_fit(rows@.map_values(|x: Vec<String>| strs(x@))),
        ensures
            r@ == gfm_table(rows@.map_values(|x: Vec<String>| strs(x@)), align@),
    {
        let ghost rs = rows@.map_values(|x: Vec<String>| strs(x@));
        if rows.len() == 0 {
            return String::new();
        }
        let widths = self.calculate_widths(rows);
        let mut lines: Vec<String> = Vec::new();
        lines.push(self.format_table_row(&rows[0], &widths));
        lines.push(self.format_separator(align, &widths));
        let mut i: usize = 1;
        while i < rows.len()
            invariant
                1 <= i <= rows@.len(),
                rs == rows@.map_values(|x: Vec<String>| strs(x@)),
                widths@ == col_widths(rs),
                strs(lines@) == seq![row_line(rs[0], widths@), separator_line(align@, widths@)] + Seq::new(
                    (i - 1) as nat,
                    |k: int| row_line(rs[k + 1], widths@),
                ),
            decreases rows.len() - i,
        {
            let line = self.format_table_row(&rows[i], &widths);
            let ghost before = lines@;
            lines.push(line);
            proof { lemma_strs_push(before, line); }
            i = i + 1;
            assert(strs(lines@) =~= seq![row_line(rs[0], widths@), separator_line(align@, widths@)] + Seq::new(
                (i - 1) as nat,
                |k: int| row_line(rs[k + 1], widths@),
            ));
        }
        proof { reveal_strlit("\n"); }
        join_strings(&lines, "\n")
    }

    /// Column widths in bytes, at least 3 each, one per cell of the first row.
    pub fn calculate_widths(&self, rows: &Vec<Vec<String>>) -> (r: Vec<usize>)
        requires
            rows_fit(rows@.map_values(|x: Vec<String>| strs(x@))),
        ensures
            r@ == col_widths(rows@.map_values(|x: Vec<String>| strs(x@))),
    {
        let ghost rs = rows@.map_values(|x: Vec<String>| strs(x@));
        if rows.len() == 0 {
            return Vec::new();
        }
        let col_count = rows[0].len();
        let mut widths: Vec<usize> = Vec::new();
        let mut c: usize = 0;
        while c < col_count
            invariant
                col_count == rs[0].len(),
                rs == rows@.map_values(|x: Vec<String>| strs(x@)),
                rows@.len() > 0,
                c <= col_count,
                widths@.len() == c,
                forall|j: int| 0 <= j < c ==> #[trigger] widths@[j] == max_cell_len(rs, j, rows@.len() as int),
            decreases col_count - c,
        {
            let mut m: usize = 0;
            let mut r: usize = 0;
            while r < rows.len()
                invariant
                    rs == rows@.map_values(|x: Vec<String>| strs(x@)),
                    c < rs[0].len(),
                    r <= rows@.len(),
                    m == max_cell_len(rs, c as int, r as int),
                decreases rows.len() - r,
            {
                let row = &rows[r];
                let l: usize = if c < row.len() { row[c].as_str().len() } else { 0 };
                if l > m {
                    m = l;
                }
                r = r + 1;
            }
            widths.push(m);
            c = c + 1;
        }
        let mut out: Vec<usize> = Vec::new();
        let mut j: usize = 0;
        while j < col_count
            invariant
                col_count == rs[0].len(),
                rs == rows@.map_values(|x: Vec<String>| strs(x@)),
                rows@.len() > 0,
                widths@.len() == col_count,
                forall|k: int| 0 <= k < col_count ==> #[trigger] widths@[k] == max_cell_len(rs, k, rows@.len() as int),
                j <= col_count,
                out@ =~= Seq::new(j as nat, |k: int| col_width(rs, k)),
            decreases col_count - j,
        {
            let w = widths[j];
            out.push(if w >= 3 { w } else { 3 });
            j = j + 1;
            assert(out@ =~= Seq::new(j as nat, |k: int| col_width(rs, k)));
        }
        out
    }

    pub fn format_table_row(&self, row: &Vec<String>, col_widths: &Vec<usize>) -> (r: String)
        ensures
            r@ == row_line(strs(row@), col_widths@),
    {
        let n = if row.len() <= col_widths.len() { row.len() } else { col_widths.len() };
        let mut cells: Vec<String> = Vec::new();
        let mut j: usize = 0;
        proof { reveal_strlit(" "); reveal_strlit("|"); }
        while j < n
            invariant
                n == zip_len(row@.len() as int, col_widths@.len() as int),
                j <= n,
                strs(cells@) =~= Seq::new(j as nat, |k: int| " "@ + padded(strs(row@)[k], col_widths@[k]) + " "@),
            decreases n - j,
        {
            let mut cell = String::new();
            cell.append(" ");
            cell.append(row[j].as_str());
            let len = row[j].as_str().unicode_len();
            if len < col_widths[j] {
                push_repeat(&mut cell, " ", col_widths[j] - len);
            }
            cell.append(" ");
            assert(cell@ =~= " "@ + padded(strs(row@)[j as int], col_widths@[j as int]) + " "@);
            let ghost before = cells@;
            cells.push(cell);
            proof { lemma_strs_push(before, cell); }
            j = j + 1;
            assert(strs(cells@) =~= Seq::new(j as nat, |k: int| " "@ + padded(strs(row@)[k], col_widths@[k]) + " "@));
        }
        let mut r = String::new();
        r.append("|");
        let inner = join_strings(&cells, "|");
        r.append(inner.as_str());
        r.append("|");
        r
    }

    pub fn format_separator(&self, align: &Vec<ColumnAlign>, col_widths: &Vec<usize>) -> (r: String)
        ensures
            r@ == separator_line(align@, col_widths@),
    {
        let n = if align.len() <= col_widths.len() { align.len() } else { col_widths.len() };
        let mut cells: Vec<String> = Vec::new();
        let mut j: usize = 0;
        proof { reveal_strlit(" "); reveal_strlit("|"); reveal_strlit(":"); reveal_strlit("-"); }
        while j < n
            invariant
                n == zip_len(align@.len() as int, col_widths@.len() as int),
                j <= n,
                strs(cells@) =~= Seq::new(j as nat, |k: int| " "@ + align_marker(align@[k], col_widths@[k]) + " "@),
            decreases n - j,
        {
            let mut cell = String::new();
            cell.append(" ");
            let (lead, trail) = match align[j] {
                ColumnAlign::Left => (true, false),
                ColumnAlign::Right => (false, true),
                ColumnAlign::Center => (true, true),
                ColumnAlign::Unaligned => (false, false),
            };
            if lead {
                cell.append(":");
            }
            push_repeat(&mut cell, "-", col_widths[j]);
            if trail {
                cell.append(":");
            }
            cell.append(" ");
            assert(cell@ =~= " "@ + align_marker(align@[j as int], col_widths@[j as int]) + " "@);
            let ghost before = cells@;
            cells.push(cell);
            proof { lemma_strs_push(before, cell); }
            j = j + 1;
            assert(strs(cells@) =~= Seq::new(j as nat, |k: int| " "@ + align_marker(align@[k], col_widths@[k]) + " "@));
        }
        let mut r = String::new();
        r.append("|");
        let inner = join_strings(&cells, "|");
        r.append(inner.as_str());
        r.append("|");
        r
    }
}

/// The strings of `parts` with `sep` between consecutive ones.
pub fn join_strings(parts: &Vec<String>, sep: &str) -> (r: String)
    ensures
        r@ == join(strs(parts@), sep@),
{
    let mut r = String::new();
    let mut i: usize = 0;
    while i < parts.len()
        invariant
            i <= parts@.len(),
            r@ == join(strs(parts@).take(i as int), sep@),
        decreases parts.len() - i,
    {
        if i > 0 {
            r.append(sep);
        }
        r.append(parts[i].as_str());
        i = i + 1;
        proof {
            let t = strs(parts@).take(i as int);
            assert(t.drop_last() =~= strs(parts@).take(i - 1));
            if t.len() == 1 {
                assert(r@ =~= t[0]);
            } else {
                assert(r@ =~= join(t.drop_last(), sep@) + sep@ + t.last());
            }
        }
    }
    assert(strs(parts@).take(parts@.len() as int) =~= strs(parts@));
    r
}

} // verus!
