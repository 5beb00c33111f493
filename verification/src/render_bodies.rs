//! Markdown of type definitions, category listings, function groups and
//! symbol tables.

use vstd::prelude::*;
use crate::compositor::join_strings;
use crate::html_to_md::{conversion_outcome, ConversionError};
use crate::json::JsonValue;
use crate::links::{rewrite_docs_link, rewritten_link};
use crate::render_func::{
    details_fit, details_section, format_scoped_function, func_fits, func_md, joined, lemma_seq_fits_step,
    lemma_seq_md_err, lemma_seq_md_full, lemma_seq_md_step, oneliner_part, render_details, render_func_body,
    scoped_md, seq_fits, seq_md, then,
};
use crate::schema::{CategoryContent, CategoryItem, FuncContent, GroupContent, SymbolItem, SymbolsContent, TypeContent};
use crate::text::{push_char, push_repeat, repeat};

verus! {

/// Body rendering errors.
#[derive(Debug)]
pub enum RenderError {
    /// A definition could not be read: the reader's message.
    JsonError(String),
    /// HTML conversion error.
    HtmlConversionError(ConversionError),
    /// Function rendering error.
    FuncRenderError(crate::render_func::RenderError),
}

/// `r` is the outcome `o` describes: the text, or the conversion error of the
/// HTML piece that failed.
pub open spec fn body_rendered_as(o: Result<Seq<char>, Seq<char>>, depth: nat, r: Result<String, RenderError>) -> bool {
    match o {
        Ok(s) => r matches Ok(x) && x@ == s,
        Err(h) => r matches Err(RenderError::HtmlConversionError(e)) && conversion_outcome(h, depth, Err(e)),
    }
}

/// Renders a details section.
fn body_details(d: &Option<JsonValue>, depth: usize) -> (r: Result<String, RenderError>)
    requires
        details_fit(*d, depth as nat),
    ensures
        body_rendered_as(details_section(*d, depth as nat), depth as nat, r),
{
    match render_details(d, depth) {
        Ok(x) => Ok(x),
        Err(crate::render_func::RenderError::HtmlConversionError(e)) => Err(RenderError::HtmlConversionError(e)),
        Err(crate::render_func::RenderError::JsonError(m)) => Err(RenderError::JsonError(m)),
    }
}

// ---------------------------------------------------------------- types

/// The constructor section of a type.
pub open spec fn ctor_section(c: Option<FuncContent>, depth: nat) -> Result<Seq<char>, Seq<char>> {
    match c {
        Some(f) => then(Ok("## Constructor\n\n"@), func_md(f, depth)),
        None => Ok(Seq::empty()),
    }
}

/// The methods section of a type.
pub open spec fn type_methods(scope: Seq<FuncContent>, depth: nat) -> Result<Seq<char>, Seq<char>> {
    if scope.len() > 0 {
        then(Ok("## Methods\n\n"@), seq_md(scope, |m: FuncContent| scoped_md(m, depth)))
    } else {
        Ok(Seq::empty())
    }
}

/// The Markdown of a type: details, constructor and methods; the first HTML
/// piece whose conversion fails otherwise.
pub open spec fn type_md(t: TypeContent, depth: nat) -> Result<Seq<char>, Seq<char>> {
    then(then(details_section(t.details, depth), ctor_section(t.constructor, depth)), type_methods(t.scope@, depth))
}

/// The outcome of rendering a type: details, constructor and methods; a
/// failure in the constructor comes as a function rendering error.
pub open spec fn type_outcome(t: TypeContent, depth: nat, r: Result<String, RenderError>) -> bool {
    match details_section(t.details, depth) {
        Err(h) => body_rendered_as(Err(h), depth, r),
        Ok(ds) => match ctor_section(t.constructor, depth) {
            Err(h) => r matches Err(
                RenderError::FuncRenderError(crate::render_func::RenderError::HtmlConversionError(e)),
            ) && conversion_outcome(h, depth, Err(e)),
            Ok(cs) => match type_methods(t.scope@, depth) {
                Err(h) => body_rendered_as(Err(h), depth, r),
                Ok(ms) => r matches Ok(x) && x@ == ds + cs + ms,
            },
        },
    }
}

/// The HTML that rendering a type converts fits.
pub open spec fn type_fits(t: TypeContent, depth: nat) -> bool {
    &&& details_fit(t.details, depth)
    &&& details_section(t.details, depth) is Ok ==> {
        &&& (match t.constructor {
            Some(f) => func_fits(f, depth),
            None => true,
        })
        &&& ctor_section(t.constructor, depth) is Ok ==> seq_fits(
            t.scope@,
            |m: FuncContent| scoped_md(m, depth),
            |m: FuncContent| details_fit(m.details, depth),
        )
    }
}

/// Appends the entries of the methods.
fn push_scoped(md: &mut String, scope: &Vec<FuncContent>, depth: usize) -> (r: Result<(), RenderError>)
    requires
        seq_fits(scope@, |m: FuncContent| scoped_md(m, depth as nat), |m: FuncContent| details_fit(m.details, depth as nat)),
    ensures
        match seq_md(scope@, |m: FuncContent| scoped_md(m, depth as nat)) {
            Ok(s) => r is Ok && final(md)@ == old(md)@ + s,
            Err(h) => r matches Err(RenderError::HtmlConversionError(e)) && conversion_outcome(h, depth as nat, Err(e)),
        },
{
    let ghost f = |m: FuncContent| scoped_md(m, depth as nat);
    let ghost fits = |m: FuncContent| details_fit(m.details, depth as nat);
    let ghost start = md@;
    let mut i: usize = 0;
    while i < scope.len()
        invariant
            i <= scope@.len(),
            f == (|m: FuncContent| scoped_md(m, depth as nat)),
            fits == (|m: FuncContent| details_fit(m.details, depth as nat)),
            seq_fits(scope@, f, fits),
            seq_md(scope@.take(i as int), f) matches Ok(acc) && md@ == start + acc,
        decreases scope.len() - i,
    {
        proof {
            lemma_seq_md_step(scope@, f, i as int);
            lemma_seq_fits_step(scope@, f, fits, i as int);
        }
        let piece = match format_scoped_function(&scope[i], depth) {
            Ok(x) => x,
            Err(crate::render_func::RenderError::HtmlConversionError(e)) => {
                proof { lemma_seq_md_err(scope@, f, i + 1); }
                return Err(RenderError::HtmlConversionError(e));
            },
            Err(crate::render_func::RenderError::JsonError(m)) => {
                return Err(RenderError::JsonError(m));
            },
        };
        md.append(piece.as_str());
        i = i + 1;
    }
    proof { lemma_seq_md_full(scope@, f); }
    Ok(())
}

/// Renders a type definition: its details, its constructor and its methods.
pub fn render_type_body(ty: &TypeContent, depth: usize) -> (r: Result<String, RenderError>)
    requires
        type_fits(*ty, depth as nat),
    ensures
        type_outcome(*ty, depth as nat, r),
{
    proof {
        reveal_strlit("## Constructor\n\n");
        reveal_strlit("## Methods\n\n");
    }
    let mut md = body_details(&ty.details, depth)?;
    let ghost ds = md@;
    let mut cv = String::new();
    match &ty.constructor {
        Some(c) => {
            cv.append("## Constructor\n\n");
            match render_func_body(c, depth) {
                Ok(x) => cv.append(x.as_str()),
                Err(e) => return Err(RenderError::FuncRenderError(e)),
            }
        },
        None => {},
    }
    md.append(cv.as_str());
    let mut mv = String::new();
    if ty.scope.len() > 0 {
        mv.append("## Methods\n\n");
        match push_scoped(&mut mv, &ty.scope, depth) {
            Ok(()) => {},
            Err(e) => return Err(e),
        }
    }
    md.append(mv.as_str());
    assert(md@ =~= ds + cv@ + mv@);
    Ok(md)
}

// ---------------------------------------------------------------- categories

/// The line of a category item: a link to its (rewritten) route, and its description.
pub open spec fn item_line(it: CategoryItem, depth: nat) -> Seq<char> {
    "- ["@ + it.name@ + "]("@ + rewritten_link(it.route@, depth) + ")"@ + match it.oneliner {
        Some(o) => " - "@ + o@,
        None => Seq::empty(),
    } + "\n"@
}

/// The lines of the items, in order.
pub open spec fn item_lines(items: Seq<CategoryItem>, depth: nat) -> Seq<char>
    decreases items.len(),
{
    if items.len() == 0 {
        Seq::empty()
    } else {
        item_lines(items.drop_last(), depth) + item_line(items.last(), depth)
    }
}

/// The Markdown of a category: its details and the list of its items.
pub open spec fn category_md(c: CategoryContent, depth: nat) -> Result<Seq<char>, Seq<char>> {
    then(
        details_section(c.details, depth),
        Ok(
            if c.items@.len() > 0 {
                "## Items\n\n"@ + item_lines(c.items@, depth) + "\n"@
            } else {
                Seq::empty()
            },
        ),
    )
}

/// Renders a category listing: its details and its items, each a link.
pub fn render_category_body(cat: &CategoryContent, depth: usize) -> (r: Result<String, RenderError>)
    requires
        details_fit(cat.details, depth as nat),
    ensures
        body_rendered_as(category_md(*cat, depth as nat), depth as nat, r),
{
    proof {
        reveal_strlit("## Items\n\n");
        reveal_strlit("- [");
        reveal_strlit("](");
        reveal_strlit(")");
        reveal_strlit(" - ");
        reveal_strlit("\n");
    }
    let mut md = body_details(&cat.details, depth)?;
    let ghost ds = md@;
    let mut iv = String::new();
    if cat.items.len() > 0 {
        iv.append("## Items\n\n");
        let mut i: usize = 0;
        while i < cat.items.len()
            invariant
                i <= cat.items@.len(),
                iv@ == "## Items\n\n"@ + item_lines(cat.items@.take(i as int), depth as nat),
            decreases cat.items.len() - i,
        {
            assert(cat.items@.take(i + 1).drop_last() =~= cat.items@.take(i as int));
            let item = &cat.items[i];
            let ghost before = iv@;
            iv.append("- [");
            iv.append(item.name.as_str());
            iv.append("](");
            iv.append(rewrite_docs_link(item.route.as_str(), depth).as_str());
            iv.append(")");
            match &item.oneliner {
                Some(o) => {
                    iv.append(" - ");
                    iv.append(o.as_str());
                },
                None => {},
            }
            iv.append("\n");
            assert(iv@ =~= before + item_line(*item, depth as nat));
            i = i + 1;
        }
        assert(cat.items@.take(cat.items@.len() as int) =~= cat.items@);
        iv.append("\n");
    }
    md.append(iv.as_str());
    Ok(md)
}

// ---------------------------------------------------------------- groups

/// The route of a function relative to its group: its path and name.
pub open spec fn func_route(f: FuncContent) -> Seq<char> {
    if f.path@.len() > 0 {
        joined(f.path, "/"@) + "/"@ + f.name@
    } else {
        f.name@
    }
}

/// The line of a group member: a link to it, and its description.
pub open spec fn entry_line(f: FuncContent) -> Seq<char> {
    "- ["@ + f.title@ + "]("@ + "../"@ + func_route(f) + ")"@ + oneliner_dash(f.oneliner) + "\n"@
}

/// ` - description`, if any.
pub open spec fn oneliner_dash(o: Option<String>) -> Seq<char> {
    match o {
        Some(x) => " - "@ + x@,
        None => Seq::empty(),
    }
}

/// The lines of the members that are elements (or not), leaving out
/// contextual ones.
pub open spec fn entry_lines(fs: Seq<FuncContent>, elements: bool) -> Seq<char>
    decreases fs.len(),
{
    if fs.len() == 0 {
        Seq::empty()
    } else {
        let f = fs.last();
        entry_lines(fs.drop_last(), elements) + if f.element == elements && !f.contextual {
            entry_line(f)
        } else {
            Seq::empty()
        }
    }
}

/// A titled list of group members, when there are any.
pub open spec fn entry_section(fs: Seq<FuncContent>, elements: bool, title: Seq<char>) -> Seq<char> {
    let ls = entry_lines(fs, elements);
    if ls.len() > 0 {
        title + ls + "\n"@
    } else {
        Seq::empty()
    }
}

/// The Markdown of a group: its details, its functions and its elements.
pub open spec fn group_md(g: GroupContent, depth: nat) -> Result<Seq<char>, Seq<char>> {
    then(
        details_section(g.details, depth),
        Ok(
            entry_section(g.functions@, false, "## Functions\n\n"@) + entry_section(
                g.functions@,
                true,
                "## Elements\n\n"@,
            ),
        ),
    )
}

/// The lines of the members that are elements (or not), leaving out contextual ones.
fn push_entries(out: &mut String, fs: &Vec<FuncContent>, elements: bool)
    ensures
        final(out)@ == old(out)@ + entry_lines(fs@, elements),
{
    proof {
        reveal_strlit("- [");
        reveal_strlit("](");
        reveal_strlit("../");
        reveal_strlit("/");
        reveal_strlit(")");
        reveal_strlit(" - ");
        reveal_strlit("\n");
    }
    let ghost start = out@;
    let mut i: usize = 0;
    while i < fs.len()
        invariant
            i <= fs@.len(),
            out@ == start + entry_lines(fs@.take(i as int), elements),
        decreases fs.len() - i,
    {
        assert(fs@.take(i + 1).drop_last() =~= fs@.take(i as int));
        let f = &fs[i];
        let ghost before = out@;
        if f.element == elements && !f.contextual {
            out.append("- [");
            out.append(f.title.as_str());
            out.append("](");
            out.append("../");
            if f.path.len() > 0 {
                out.append(join_strings(&f.path, "/").as_str());
                out.append("/");
            }
            out.append(f.name.as_str());
            out.append(")");
            match &f.oneliner {
                Some(o) => {
                    out.append(" - ");
                    out.append(o.as_str());
                },
                None => {},
            }
            out.append("\n");
            assert(out@ =~= before + entry_line(*f));
        } else {
            assert(out@ =~= before + Seq::<char>::empty());
        }
        i = i + 1;
    }
    assert(fs@.take(fs@.len() as int) =~= fs@);
}

/// Appends a titled list of group members, when there are any.
fn push_entry_section(out: &mut String, fs: &Vec<FuncContent>, elements: bool, title: &str)
    ensures
        final(out)@ == old(out)@ + entry_section(fs@, elements, title@),
{
    let mut ls = String::new();
    push_entries(&mut ls, fs, elements);
    if !ls.as_str().is_empty() {
        out.append(title);
        out.append(ls.as_str());
        proof { reveal_strlit("\n"); }
        out.append("\n");
    }
}

/// Renders a function group: its details, then links to its functions and to
/// its elements (contextual members are left out).
pub fn render_group_body(group: &GroupContent, depth: usize) -> (r: Result<String, RenderError>)
    requires
        details_fit(group.details, depth as nat),
    ensures
        body_rendered_as(group_md(*group, depth as nat), depth as nat, r),
{
    let mut md = body_details(&group.details, depth)?;
    let ghost ds = md@;
    let mut rest = String::new();
    push_entry_section(&mut rest, &group.functions, false, "## Functions\n\n");
    push_entry_section(&mut rest, &group.functions, true, "## Elements\n\n");
    md.append(rest.as_str());
    Ok(md)
}

// ---------------------------------------------------------------- symbols

/// The uppercase hexadecimal digit of `d`.
pub open spec fn upper_hex_digit(d: nat) -> char {
    seq!['0', '1', '2', '3', '4', '5', '6', '7', '8', '9', 'A', 'B', 'C', 'D', 'E', 'F'][d as int]
}

/// The uppercase hexadecimal digits of `n`, without leading zeros.
pub open spec fn hex_digits(n: nat) -> Seq<char>
    decreases n,
{
    if n < 16 {
        seq![upper_hex_digit(n)]
    } else {
        hex_digits(n / 16) + seq![upper_hex_digit(n % 16)]
    }
}

/// `U+` and the code point in uppercase hexadecimal, at least four digits.
pub open spec fn code_point_text(n: nat) -> Seq<char> {
    let d = hex_digits(n);
    "U+"@ + if d.len() < 4 {
        repeat("0"@, (4 - d.len()) as nat) + d
    } else {
        d
    }
}

/// A shorthand in backticks, or `-`.
pub open spec fn shorthand_text(s: Option<String>) -> Seq<char> {
    match s {
        Some(x) => "`"@ + x@ + "`"@,
        None => "-"@,
    }
}

/// The Unicode column of a symbol: its code point, else that of the first
/// character of its value, else `-`.
pub open spec fn unicode_text(s: SymbolItem) -> Seq<char> {
    match s.codepoint {
        Some(c) => code_point_text(c as nat),
        None => match s.value {
            Some(v) => if v@.len() > 0 {
                code_point_text((v@[0] as u32) as nat)
            } else {
                "-"@
            },
            None => "-"@,
        },
    }
}

/// The table row of a symbol.
pub open spec fn symbol_row(s: SymbolItem) -> Seq<char> {
    "| "@ + s.name@ + " | "@ + shorthand_text(s.markup_shorthand) + " | "@ + shorthand_text(s.math_shorthand)
        + " | "@ + unicode_text(s) + " |\n"@
}

/// The rows of the symbols, in order.
pub open spec fn symbol_rows(list: Seq<SymbolItem>) -> Seq<char>
    decreases list.len(),
{
    if list.len() == 0 {
        Seq::empty()
    } else {
        symbol_rows(list.drop_last()) + symbol_row(list.last())
    }
}

/// The Markdown of a symbol listing: its details and a table of its symbols.
pub open spec fn symbols_md(s: SymbolsContent, depth: nat) -> Result<Seq<char>, Seq<char>> {
    then(
        details_section(s.details, depth),
        Ok(
            if s.list@.len() > 0 {
                "## Symbols\n\n"@ + "| Name | Markup | Math | Unicode |\n"@ + "|------|--------|------|---------|\n"@
                    + symbol_rows(s.list@) + "\n"@
            } else {
                Seq::empty()
            },
        ),
    )
}

/// The uppercase hexadecimal digit of `d`.
fn upper_hex_char(d: u32) -> (c: char)
    requires
        d < 16,
    ensures
        c == upper_hex_digit(d as nat),
{
    match d {
        0 => '0',
        1 => '1',
        2 => '2',
        3 => '3',
        4 => '4',
        5 => '5',
        6 => '6',
        7 => '7',
        8 => '8',
        9 => '9',
        10 => 'A',
        11 => 'B',
        12 => 'C',
        13 => 'D',
        14 => 'E',
        _ => 'F',
    }
}

/// Appends the uppercase hexadecimal digits of `n`.
fn push_hex(out: &mut String, n: u32)
    ensures
        final(out)@ == old(out)@ + hex_digits(n as nat),
    decreases n,
{
    if n >= 16 {
        push_hex(out, n / 16);
    }
    push_char(out, upper_hex_char(n % 16));
}

/// Appends `U+` and the code point, at least four hexadecimal digits.
fn push_code_point(out: &mut String, n: u32)
    ensures
        final(out)@ == old(out)@ + code_point_text(n as nat),
{
    let mut d = String::new();
    push_hex(&mut d, n);
    proof { reveal_strlit("U+"); reveal_strlit("0"); }
    out.append("U+");
    let len = d.as_str().unicode_len();
    if len < 4 {
        push_repeat(out, "0", 4 - len);
    }
    out.append(d.as_str());
}

/// Appends a shorthand in backticks, or `-`.
fn push_shorthand(out: &mut String, s: &Option<String>)
    ensures
        final(out)@ == old(out)@ + shorthand_text(*s),
{
    proof { reveal_strlit("`"); reveal_strlit("-"); }
    match s {
        Some(x) => {
            out.append("`");
            out.append(x.as_str());
            out.append("`");
        },
        None => out.append("-"),
    }
}

/// Appends the Unicode column of a symbol.
fn push_unicode(out: &mut String, s: &SymbolItem)
    ensures
        final(out)@ == old(out)@ + unicode_text(*s),
{
    proof { reveal_strlit("-"); }
    match s.codepoint {
        Some(c) => {
            push_code_point(out, c);
            assert(unicode_text(*s) == code_point_text(c as nat));
        },
        None => match &s.value {
            Some(v) => {
                let cs = crate::text::chars_of(v.as_str());
                if cs.len() > 0 {
                    let code: u32 = cs[0] as u32;
                    push_code_point(out, code);
                } else {
                    out.append("-");
                }
            },
            None => out.append("-"),
        },
    }
}

/// Renders a symbol listing: its details and a table with each symbol's
/// name, markup and math shorthands, and code point.
pub fn render_symbols_body(symbols: &SymbolsContent, depth: usize) -> (r: Result<String, RenderError>)
    requires
        details_fit(symbols.details, depth as nat),
    ensures
        body_rendered_as(symbols_md(*symbols, depth as nat), depth as nat, r),
{
    proof {
        reveal_strlit("## Symbols\n\n");
        reveal_strlit("| Name | Markup | Math | Unicode |\n");
        reveal_strlit("|------|--------|------|---------|\n");
        reveal_strlit("| ");
        reveal_strlit(" | ");
        reveal_strlit(" |\n");
        reveal_strlit("\n");
    }
    let mut md = body_details(&symbols.details, depth)?;
    let mut tv = String::new();
    if symbols.list.len() > 0 {
        tv.append("## Symbols\n\n");
        tv.append("| Name | Markup | Math | Unicode |\n");
        tv.append("|------|--------|------|---------|\n");
        let ghost start = tv@;
        let mut i: usize = 0;
        while i < symbols.list.len()
            invariant
                i <= symbols.list@.len(),
                tv@ == start + symbol_rows(symbols.list@.take(i as int)),
            decreases symbols.list.len() - i,
        {
            assert(symbols.list@.take(i + 1).drop_last() =~= symbols.list@.take(i as int));
            let s = &symbols.list[i];
            let ghost before = tv@;
            tv.append("| ");
            tv.append(s.name.as_str());
            tv.append(" | ");
            push_shorthand(&mut tv, &s.markup_shorthand);
            tv.append(" | ");
            push_shorthand(&mut tv, &s.math_shorthand);
            tv.append(" | ");
            push_unicode(&mut tv, s);
            tv.append(" |\n");
            assert(tv@ =~= before + symbol_row(*s));
            i = i + 1;
        }
        assert(symbols.list@.take(symbols.list@.len() as int) =~= symbols.list@);
        tv.append("\n");
    }
    md.append(tv.as_str());
    Ok(md)
}

} // verus!
