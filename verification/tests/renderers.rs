use typstlab_typst::composite::CompositeRenderer;
use typstlab_typst::compositor::Compositor;
use typstlab_typst::mdast::{ColumnAlign, MdNode};
use typstlab_typst::render::{
    BlockquoteRenderer, HeadingRenderer, ListRenderer, MdRender, ParagraphRenderer, RenderError,
    RenderResult,
};
use typstlab_typst::standard::StandardRenderer;
use typstlab_typst::table::StructuralTableRenderer;

/// A renderer that answers by node kind, for exercising the trait.
struct DummyRenderer;

impl MdRender for DummyRenderer {
    fn render(&self, node: &MdNode) -> Result<RenderResult, RenderError> {
        match node {
            MdNode::Text { value } => Ok(RenderResult::Inline(value.clone())),
            MdNode::Paragraph { .. } => Ok(RenderResult::Block(vec!["[Paragraph]".to_string()])),
            MdNode::Table { .. } => Ok(RenderResult::Table {
                rows: vec![vec!["A".to_string(), "B".to_string()]],
                align: vec![ColumnAlign::Left, ColumnAlign::Right],
            }),
            _ => Err(RenderError::UnsupportedNode(format!("{:?}", node))),
        }
    }
}

fn text(s: &str) -> MdNode {
    MdNode::Text { value: s.to_string() }
}

fn para(children: Vec<MdNode>) -> MdNode {
    MdNode::Paragraph { children }
}

fn heading(depth: u8, children: Vec<MdNode>) -> MdNode {
    MdNode::Heading { depth, children }
}

fn emphasis(children: Vec<MdNode>) -> MdNode {
    MdNode::Emphasis { children }
}

fn strong(children: Vec<MdNode>) -> MdNode {
    MdNode::Strong { children }
}

fn link(url: &str, children: Vec<MdNode>) -> MdNode {
    MdNode::Link { url: url.to_string(), children }
}

fn inline_code(s: &str) -> MdNode {
    MdNode::InlineCode { value: s.to_string() }
}

fn item(children: Vec<MdNode>) -> MdNode {
    MdNode::ListItem { children }
}

fn list(ordered: bool, start: Option<u32>, children: Vec<MdNode>) -> MdNode {
    MdNode::List { ordered, start, children }
}

fn quote(children: Vec<MdNode>) -> MdNode {
    MdNode::Blockquote { children }
}

fn cell(children: Vec<MdNode>) -> MdNode {
    MdNode::TableCell { children }
}

fn row(children: Vec<MdNode>) -> MdNode {
    MdNode::TableRow { children }
}

/// A table whose cells each hold one text.
fn create_test_table(rows: Vec<Vec<&str>>) -> MdNode {
    let width = rows.first().map(|r| r.len()).unwrap_or(0);
    MdNode::Table {
        align: vec![ColumnAlign::Unaligned; width],
        children: rows
            .into_iter()
            .map(|r| row(r.into_iter().map(|c| cell(vec![text(c)])).collect()))
            .collect(),
    }
}

fn block_lines(r: Result<RenderResult, RenderError>) -> Vec<String> {
    match r {
        Ok(RenderResult::Block(lines)) => lines,
        _ => panic!("Expected Block result"),
    }
}

#[test]
fn test_blockquote_renderer_simple() {
    let renderer = BlockquoteRenderer::new();
    let lines = block_lines(renderer.render(&quote(vec![para(vec![text("Simple quote")])])));
    assert_eq!(lines.len(), 1);
    assert_eq!(lines[0], "> Simple quote");
}

#[test]
fn test_blockquote_renderer_multi_paragraph() {
    let renderer = BlockquoteRenderer::new();
    let node = quote(vec![para(vec![text("First paragraph")]), para(vec![text("Second paragraph")])]);
    let lines = block_lines(renderer.render(&node));
    assert_eq!(lines.len(), 2);
    assert_eq!(lines[0], "> First paragraph");
    assert_eq!(lines[1], "> Second paragraph");
}

#[test]
fn test_blockquote_renderer_with_emphasis() {
    let renderer = BlockquoteRenderer::new();
    let node = quote(vec![para(vec![text("Quote with "), emphasis(vec![text("emphasis")])])]);
    let lines = block_lines(renderer.render(&node));
    assert_eq!(lines[0], "> Quote with *emphasis*");
}

#[test]
fn test_blockquote_renderer_with_heading() {
    let renderer = BlockquoteRenderer::new();
    let node = quote(vec![heading(2, vec![text("Quoted Heading")]), para(vec![text("Content")])]);
    let lines = block_lines(renderer.render(&node));
    assert_eq!(lines.len(), 2);
    assert_eq!(lines[0], "> ## Quoted Heading");
    assert_eq!(lines[1], "> Content");
}

#[test]
fn test_blockquote_renderer_nested() {
    let renderer = BlockquoteRenderer::new();
    let node = quote(vec![para(vec![text("Outer quote")]), quote(vec![para(vec![text("Inner quote")])])]);
    let lines = block_lines(renderer.render(&node));
    assert_eq!(lines.len(), 2);
    assert_eq!(lines[0], "> Outer quote");
    assert_eq!(lines[1], "> > Inner quote");
}

#[test]
fn test_blockquote_renderer_refuses_other_nodes() {
    let renderer = BlockquoteRenderer::new();
    match renderer.render(&text("x")) {
        Err(RenderError::UnsupportedNode(m)) => {
            assert_eq!(m, "BlockquoteRenderer only supports Blockquote nodes")
        }
        _ => panic!("Expected UnsupportedNode"),
    }
}

#[test]
fn test_composite_renders_paragraph() {
    let renderer = CompositeRenderer::new();
    let result = renderer.render(&para(vec![text("Hello, world!")])).expect("Should render");
    assert!(result.contains("Hello, world!"));
}

#[test]
fn test_composite_renders_heading() {
    let renderer = CompositeRenderer::new();
    let result = renderer.render(&heading(1, vec![text("Title")])).expect("Should render");
    assert!(result.contains("# Title"));
}

#[test]
fn test_composite_delegates_table() {
    let renderer = CompositeRenderer::new();
    let table = create_test_table(vec![vec!["A", "B"], vec!["1", "2"]]);
    let result = renderer.render(&table).expect("Should render table");
    assert!(result.contains("| A   | B   |"));
    assert!(result.contains("| --- | --- |"));
    assert!(result.contains("| 1   | 2   |"));
}

#[test]
fn test_composite_render_many() {
    let renderer = CompositeRenderer::new();
    let nodes = vec![heading(1, vec![text("Document")]), para(vec![text("Content")])];
    let result = renderer.render_many(&nodes).expect("Should render many");
    assert!(result.contains("# Document"));
    assert!(result.contains("Content"));
}

#[test]
fn test_composite_render_many_with_table() {
    let renderer = CompositeRenderer::new();
    let nodes = vec![
        para(vec![text("Before table")]),
        create_test_table(vec![vec!["Cell"]]),
        para(vec![text("After table")]),
    ];
    let result = renderer.render_many(&nodes).expect("Should render many");
    assert!(result.contains("Before table"));
    assert!(result.contains("| Cell |"));
    assert!(result.contains("After table"));
}

#[test]
fn test_composite_uses_standard_for_blocks() {
    let renderer = CompositeRenderer::new();
    let node = MdNode::Root { children: vec![para(vec![text("Test")])] };
    let result = renderer.render(&node).expect("Should render");
    assert!(result.contains("Test"));
}

#[test]
fn test_composite_renders_root_with_table() {
    let renderer = CompositeRenderer::new();
    let root = MdNode::Root {
        children: vec![
            para(vec![text("Before table")]),
            create_test_table(vec![vec!["A", "B"], vec!["1", "2"]]),
            para(vec![text("After table")]),
        ],
    };
    let result = renderer.render(&root).expect("Should render");
    assert!(result.contains("Before table"));
    assert!(result.contains("| A   | B   |"));
    assert!(result.contains("| --- | --- |"));
    assert!(result.contains("| 1   | 2   |"));
    assert!(result.contains("After table"));
    assert_eq!(result, "Before table\n\n| A   | B   |\n| --- | --- |\n| 1   | 2   |\n\nAfter table");
}

#[test]
fn test_composite_empty_table_fails() {
    let renderer = CompositeRenderer::new();
    let root = MdNode::Root { children: vec![para(vec![text("x")]), create_test_table(vec![])] };
    assert!(matches!(renderer.render(&root), Err(RenderError::InvalidTable(_))));
}

#[test]
fn test_compositor_inline_only() {
    let compositor = Compositor::new();
    let results = vec![RenderResult::Inline("Hello, world!".to_string())];
    assert_eq!(compositor.compose(results), "Hello, world!");
}

#[test]
fn test_compositor_blocks_with_spacing() {
    let compositor = Compositor::new();
    let results = vec![
        RenderResult::Block(vec!["# Heading".to_string()]),
        RenderResult::Block(vec!["Paragraph text".to_string()]),
    ];
    assert_eq!(compositor.compose(results), "# Heading\n\nParagraph text");
}

#[test]
fn test_compositor_mixed_content() {
    let compositor = Compositor::new();
    let results = vec![
        RenderResult::Block(vec!["# Title".to_string()]),
        RenderResult::Inline("inline".to_string()),
        RenderResult::Block(vec!["End".to_string()]),
    ];
    assert_eq!(compositor.compose(results), "# Title\n\ninlineEnd");
}

#[test]
fn test_compositor_format_separator_none() {
    let compositor = Compositor::new();
    let align = vec![ColumnAlign::Unaligned, ColumnAlign::Unaligned];
    let widths = vec![3, 3];
    assert_eq!(compositor.format_separator(&align, &widths), "| --- | --- |");
}

#[test]
fn test_compositor_format_separator_aligned() {
    let compositor = Compositor::new();
    let align = vec![ColumnAlign::Left, ColumnAlign::Right, ColumnAlign::Center];
    let widths = vec![5, 5, 5];
    assert_eq!(compositor.format_separator(&align, &widths), "| :----- | -----: | :-----: |");
}

#[test]
fn test_compositor_format_gfm_table_simple() {
    let compositor = Compositor::new();
    let rows = vec![
        vec!["Name".to_string(), "Age".to_string()],
        vec!["Alice".to_string(), "30".to_string()],
    ];
    let align = vec![ColumnAlign::Unaligned, ColumnAlign::Unaligned];
    let output = compositor.format_gfm_table(&rows, &align);
    assert_eq!(output, "| Name  | Age |\n| ----- | --- |\n| Alice | 30  |");
}

#[test]
fn test_compositor_format_gfm_table_with_alignment() {
    let compositor = Compositor::new();
    let rows = vec![vec!["Left".to_string(), "Right".to_string()]];
    let align = vec![ColumnAlign::Left, ColumnAlign::Right];
    let output = compositor.format_gfm_table(&rows, &align);
    assert!(output.contains(":----"));
    assert!(output.contains("----:"));
}

#[test]
fn test_compositor_table_in_context() {
    let compositor = Compositor::new();
    let results = vec![
        RenderResult::Block(vec!["# Table Example".to_string()]),
        RenderResult::Table {
            rows: vec![
                vec!["A".to_string(), "B".to_string()],
                vec!["1".to_string(), "2".to_string()],
            ],
            align: vec![ColumnAlign::Unaligned, ColumnAlign::Unaligned],
        },
        RenderResult::Block(vec!["End".to_string()]),
    ];
    let output = compositor.compose(results);
    assert!(output.starts_with("# Table Example\n\n"));
    assert!(output.contains("| A   | B   |"));
    assert!(output.contains("| 1   | 2   |"));
    assert!(output.ends_with("\n\nEnd"));
}

#[test]
fn test_compositor_empty_table() {
    let compositor = Compositor::new();
    let rows: Vec<Vec<String>> = vec![];
    let align: Vec<ColumnAlign> = vec![];
    assert_eq!(compositor.format_gfm_table(&rows, &align), "");
}

#[test]
fn test_compositor_widths_count_bytes() {
    let compositor = Compositor::new();
    let rows = vec![vec!["äöü".to_string()]];
    assert_eq!(compositor.calculate_widths(&rows), vec![6]);
}

#[test]
fn test_heading_renderer_h1() {
    let lines = block_lines(HeadingRenderer::new().render(&heading(1, vec![text("Title")])));
    assert_eq!(lines.len(), 1);
    assert_eq!(lines[0], "# Title");
}

#[test]
fn test_heading_renderer_h2() {
    let lines = block_lines(HeadingRenderer::new().render(&heading(2, vec![text("Subtitle")])));
    assert_eq!(lines[0], "## Subtitle");
}

#[test]
fn test_heading_renderer_h6() {
    let lines = block_lines(HeadingRenderer::new().render(&heading(6, vec![text("Deep heading")])));
    assert_eq!(lines[0], "###### Deep heading");
}

#[test]
fn test_heading_renderer_with_emphasis() {
    let node = heading(1, vec![text("Title with "), emphasis(vec![text("emphasis")])]);
    let lines = block_lines(HeadingRenderer::new().render(&node));
    assert_eq!(lines[0], "# Title with *emphasis*");
}

#[test]
fn test_heading_renderer_with_link() {
    let node = heading(2, vec![text("Check "), link("https://example.com", vec![text("this link")])]);
    let lines = block_lines(HeadingRenderer::new().render(&node));
    assert_eq!(lines[0], "## Check [this link](https://example.com)");
}

#[test]
fn test_heading_renderer_with_inline_code() {
    let node = heading(3, vec![text("Using "), inline_code("function()")]);
    let lines = block_lines(HeadingRenderer::new().render(&node));
    assert_eq!(lines[0], "### Using `function()`");
}

#[test]
fn test_list_renderer_unordered_simple() {
    let node = list(false, None, vec![item(vec![para(vec![text("Item 1")])]), item(vec![para(vec![text("Item 2")])])]);
    let lines = block_lines(ListRenderer::new().render(&node));
    assert_eq!(lines.len(), 2);
    assert_eq!(lines[0], "- Item 1");
    assert_eq!(lines[1], "- Item 2");
}

#[test]
fn test_list_renderer_ordered() {
    let node = list(true, Some(1), vec![item(vec![para(vec![text("First")])]), item(vec![para(vec![text("Second")])])]);
    let lines = block_lines(ListRenderer::new().render(&node));
    assert_eq!(lines[0], "1. First");
    assert_eq!(lines[1], "2. Second");
}

#[test]
fn test_list_renderer_with_emphasis() {
    let node = list(false, None, vec![item(vec![para(vec![text("Item with "), emphasis(vec![text("emphasis")])])])]);
    let lines = block_lines(ListRenderer::new().render(&node));
    assert_eq!(lines[0], "- Item with *emphasis*");
}

#[test]
fn test_list_renderer_nested() {
    let node = list(
        false,
        None,
        vec![
            item(vec![para(vec![text("Parent 1")]), list(false, None, vec![item(vec![para(vec![text("Child 1")])])])]),
            item(vec![para(vec![text("Parent 2")])]),
        ],
    );
    let lines = block_lines(ListRenderer::new().render(&node));
    assert_eq!(lines.len(), 3);
    assert_eq!(lines[0], "- Parent 1");
    assert_eq!(lines[1], "  - Child 1");
    assert_eq!(lines[2], "- Parent 2");
}

#[test]
fn test_list_renderer_ordered_start() {
    let node = list(true, Some(7), vec![item(vec![para(vec![text("a")])]), item(vec![para(vec![text("b")])])]);
    let lines = block_lines(ListRenderer::new().render(&node));
    assert_eq!(lines, vec!["7. a".to_string(), "8. b".to_string()]);
}

#[test]
fn test_paragraph_renderer_simple() {
    let lines = block_lines(ParagraphRenderer::new().render(&para(vec![text("Simple text")])));
    assert_eq!(lines.len(), 1);
    assert_eq!(lines[0], "Simple text");
}

#[test]
fn test_paragraph_renderer_with_emphasis() {
    let node = para(vec![text("Text with "), emphasis(vec![text("emphasis")])]);
    let lines = block_lines(ParagraphRenderer::new().render(&node));
    assert_eq!(lines[0], "Text with *emphasis*");
}

#[test]
fn test_paragraph_renderer_with_strong() {
    let node = para(vec![text("Text with "), strong(vec![text("bold")])]);
    let lines = block_lines(ParagraphRenderer::new().render(&node));
    assert_eq!(lines[0], "Text with **bold**");
}

#[test]
fn test_paragraph_renderer_with_link() {
    let node = para(vec![link("https://example.com", vec![text("link text")])]);
    let lines = block_lines(ParagraphRenderer::new().render(&node));
    assert_eq!(lines[0], "[link text](https://example.com)");
}

#[test]
fn test_paragraph_renderer_with_inline_code() {
    let node = para(vec![text("Inline "), inline_code("code()")]);
    let lines = block_lines(ParagraphRenderer::new().render(&node));
    assert_eq!(lines[0], "Inline `code()`");
}

#[test]
fn test_standard_renderer_paragraph() {
    let result = StandardRenderer::new().render(&para(vec![text("Hello, world!")])).expect("Should render");
    assert!(matches!(result, RenderResult::Block(_)));
    if let RenderResult::Block(lines) = result {
        assert_eq!(lines.len(), 1);
        assert!(lines[0].contains("Hello, world!"));
    }
}

#[test]
fn test_standard_renderer_heading() {
    let result = StandardRenderer::new().render(&heading(2, vec![text("Title")])).expect("Should render");
    assert!(matches!(result, RenderResult::Block(_)));
    if let RenderResult::Block(lines) = result {
        assert!(lines[0].contains("##"));
        assert!(lines[0].contains("Title"));
    }
}

#[test]
fn test_standard_renderer_code_block() {
    let node = MdNode::Code { value: "let x = 1;".to_string(), lang: Some("rust".to_string()) };
    let result = StandardRenderer::new().render(&node).expect("Should render");
    assert!(matches!(result, RenderResult::Block(_)));
    if let RenderResult::Block(lines) = result {
        assert!(lines[0].contains("```"));
        assert!(lines[0].contains("let x = 1;"));
    }
}

#[test]
fn test_standard_renderer_inline_text() {
    let result = StandardRenderer::new().render(&text("inline text")).expect("Should render");
    assert!(matches!(result, RenderResult::Inline(_)));
    if let RenderResult::Inline(content) = result {
        assert_eq!(content.trim(), "inline text");
    }
}

#[test]
fn test_standard_renderer_root_node() {
    let node = MdNode::Root { children: vec![para(vec![text("Content")])] };
    let result = StandardRenderer::new().render(&node).expect("Should render");
    assert!(matches!(result, RenderResult::Block(_)));
    if let RenderResult::Block(lines) = result {
        assert!(lines[0].contains("Content"));
    }
}

#[test]
fn test_structural_table_simple() {
    let renderer = StructuralTableRenderer::new();
    let result = renderer.render(&create_test_table(vec![vec!["A", "B"], vec!["1", "2"]])).expect("Should render");
    assert!(matches!(result, RenderResult::Table { .. }));
    if let RenderResult::Table { rows, align } = result {
        assert_eq!(rows.len(), 2);
        assert_eq!(rows[0], vec!["A", "B"]);
        assert_eq!(rows[1], vec!["1", "2"]);
        assert_eq!(align.len(), 2);
    }
}

#[test]
fn test_structural_table_with_alignment() {
    let renderer = StructuralTableRenderer::new();
    let mut table = create_test_table(vec![vec!["Left", "Center", "Right"]]);
    let wanted = vec![ColumnAlign::Left, ColumnAlign::Center, ColumnAlign::Right];
    if let MdNode::Table { align, .. } = &mut table {
        *align = wanted.clone();
    }
    let result = renderer.render(&table).expect("Should render");
    if let RenderResult::Table { align, .. } = result {
        assert_eq!(align, wanted);
    }
}

#[test]
fn test_structural_table_inline_formatting() {
    let renderer = StructuralTableRenderer::new();
    let children = vec![inline_code("code"), text(" and "), strong(vec![text("bold")])];
    assert_eq!(renderer.render_cell_inline(&children), "`code` and **bold**");
}

#[test]
fn test_structural_table_pipe_escaping() {
    let renderer = StructuralTableRenderer::new();
    let result = renderer.render(&create_test_table(vec![vec!["A|B", "C|D|E"]])).expect("Should render");
    if let RenderResult::Table { rows, .. } = result {
        assert_eq!(rows[0], vec!["A\\|B", "C\\|D\\|E"]);
    }
}

#[test]
fn test_structural_table_empty_cells() {
    let renderer = StructuralTableRenderer::new();
    let result = renderer.render(&create_test_table(vec![vec!["A", ""], vec!["", "B"]])).expect("Should render");
    if let RenderResult::Table { rows, .. } = result {
        assert_eq!(rows.len(), 2);
        assert_eq!(rows[0], vec!["A", ""]);
        assert_eq!(rows[1], vec!["", "B"]);
    }
}

#[test]
fn test_structural_table_not_table_node() {
    let renderer = StructuralTableRenderer::new();
    let result = renderer.render(&text("text"));
    assert!(result.is_err());
    assert!(matches!(result.unwrap_err(), RenderError::UnsupportedNode(_)));
}

#[test]
fn test_structural_table_empty_table() {
    let renderer = StructuralTableRenderer::new();
    let result = renderer.render(&MdNode::Table { align: vec![], children: vec![] });
    assert!(result.is_err());
    assert!(matches!(result.unwrap_err(), RenderError::InvalidTable(_)));
}

#[test]
fn test_render_result_inline() {
    let result = RenderResult::Inline("hello".to_string());
    assert!(matches!(result, RenderResult::Inline(_)));
    if let RenderResult::Inline(content) = result {
        assert_eq!(content, "hello");
    }
}

#[test]
fn test_render_result_block() {
    let result = RenderResult::Block(vec!["Line 1".to_string(), "Line 2".to_string()]);
    assert!(matches!(result, RenderResult::Block(_)));
    if let RenderResult::Block(lines) = result {
        assert_eq!(lines.len(), 2);
        assert_eq!(lines[0], "Line 1");
        assert_eq!(lines[1], "Line 2");
    }
}

#[test]
fn test_render_result_table() {
    let result = RenderResult::Table {
        rows: vec![
            vec!["A".to_string(), "B".to_string()],
            vec!["1".to_string(), "2".to_string()],
        ],
        align: vec![ColumnAlign::Left, ColumnAlign::Right],
    };
    assert!(matches!(result, RenderResult::Table { .. }));
    if let RenderResult::Table { rows, align } = result {
        assert_eq!(rows.len(), 2);
        assert_eq!(rows[0], vec!["A", "B"]);
        assert_eq!(rows[1], vec!["1", "2"]);
        assert_eq!(align.len(), 2);
        assert_eq!(align[0], ColumnAlign::Left);
        assert_eq!(align[1], ColumnAlign::Right);
    }
}

#[test]
fn test_render_error_display() {
    let err = RenderError::StandardFailed("test error".to_string());
    assert!(err.message().contains("Standard rendering failed"));
    assert!(err.message().contains("test error"));
    let err = RenderError::UnsupportedNode("Code".to_string());
    assert!(err.message().contains("Unsupported node type"));
    let err = RenderError::InvalidTable("empty rows".to_string());
    assert!(err.message().contains("Invalid table structure"));
}

#[test]
fn test_md_render_trait_inline() {
    let result = DummyRenderer.render(&text("hello")).expect("Should render");
    assert!(matches!(result, RenderResult::Inline(_)));
    if let RenderResult::Inline(content) = result {
        assert_eq!(content, "hello");
    }
}

#[test]
fn test_md_render_trait_block() {
    let result = DummyRenderer.render(&para(vec![])).expect("Should render");
    assert!(matches!(result, RenderResult::Block(_)));
}

#[test]
fn test_md_render_trait_table() {
    let result = DummyRenderer.render(&MdNode::Table { align: vec![], children: vec![] }).expect("Should render");
    assert!(matches!(result, RenderResult::Table { .. }));
}

#[test]
fn test_md_render_trait_unsupported() {
    let node = MdNode::Code { value: "code".to_string(), lang: None };
    let result = DummyRenderer.render(&node);
    assert!(result.is_err());
    assert!(matches!(result.unwrap_err(), RenderError::UnsupportedNode(_)));
}
