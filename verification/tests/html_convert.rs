use typstlab_typst::composite::CompositeRenderer;
use typstlab_typst::compositor::Compositor;
use typstlab_typst::html_to_md::{convert, try_convert, ConversionError, MAX_HTML_SIZE};
use typstlab_typst::resolve::check_cache;
use typstlab_typst::standard::StandardRenderer;
use typstlab_typst::table::StructuralTableRenderer;

#[test]
fn mod_test_convert_simple_paragraph() {
    let html = "<p>Hello, world!</p>";
    let md = convert(html, 1).expect("Should convert");
    assert!(md.trim().starts_with("Hello, world!"));
}

#[test]
fn mod_test_convert_headings() {
    let html = "<h1>Title</h1><h2>Section</h2><h3>Subsection</h3>";
    let md = convert(html, 1).expect("Should convert");
    assert!(md.contains("# Title"));
    assert!(md.contains("## Section"));
    assert!(md.contains("### Subsection"));
}

#[test]
fn mod_test_convert_inline_code() {
    let html = "<p>Use <code>print()</code> function</p>";
    let md = convert(html, 1).expect("Should convert");
    assert!(md.contains("`print()`"));
}

#[test]
fn mod_test_convert_code_block() {
    let html = "<pre><code>let x = 1;</code></pre>";
    let md = convert(html, 1).expect("Should convert");
    assert!(md.contains("```"));
    assert!(md.contains("let x = 1;"));
}

#[test]
fn mod_test_convert_typst_syntax() {
    let html = r#"<code><span class="typ-func">#image</span><span class="typ-punct">(</span></code>"#;
    let md = convert(html, 1).expect("Should convert");
    assert!(md.contains("`#image(`") || md.contains("#image("));
}

#[test]
fn mod_test_inline_code_outside_block() {
    let html = "<p>Use <code>func()</code> to call.</p>";
    let md = convert(html, 1).expect("Should convert");
    assert!(md.contains("`func()`"));
}

#[test]
fn mod_test_size_limit() {
    let large_html = "x".repeat(MAX_HTML_SIZE + 1);
    let result = convert(&large_html, 1);
    assert!(result.is_err());
    match result.unwrap_err() {
        ConversionError::HtmlTooLarge(size) => {
            assert_eq!(size, MAX_HTML_SIZE + 1);
        }
        e => panic!("Expected HtmlTooLarge, got: {:?}", e),
    }
}

#[test]
fn mod_test_dangerous_tags_ignored() {
    let html = r#"<p>Safe</p><script>alert("xss")</script><p>Also safe</p>"#;
    let md = convert(html, 1).expect("Should convert");
    assert!(md.contains("Safe"));
    assert!(md.contains("Also safe"));
    assert!(!md.contains("alert"));
    assert!(!md.contains("xss"));
}

#[test]
fn test_style_and_link_tags_ignored() {
    let html = r#"<p>Content</p><style>.malicious { }</style><link rel="stylesheet" href="evil.css"><p>More content</p>"#;
    let md = convert(html, 1).expect("Should convert");
    assert!(md.contains("Content"));
    assert!(md.contains("More content"));
    assert!(!md.contains("malicious"));
    assert!(!md.contains("evil.css"));
}

#[test]
fn mod_test_empty_html() {
    let html = "";
    let md = convert(html, 1).expect("Should convert");
    assert_eq!(md, "");
}

#[test]
fn mod_test_multiple_paragraphs() {
    let html = "<p>First paragraph.</p><p>Second paragraph.</p>";
    let md = convert(html, 1).expect("Should convert");
    assert!(md.contains("First paragraph."));
    assert!(md.contains("Second paragraph."));
}

#[test]
fn test_composite_renderer_new() {
    let renderer = CompositeRenderer::new();
    assert!(matches!(renderer, CompositeRenderer { .. }));
}

#[test]
fn test_compositor_new() {
    let compositor = Compositor::new();
    assert!(matches!(compositor, Compositor));
}

#[test]
fn test_compositor_calculate_widths() {
    let compositor = Compositor::new();
    let rows = vec![
        vec!["A".to_string(), "BB".to_string()],
        vec!["CCC".to_string(), "D".to_string()],
    ];
    let widths = compositor.calculate_widths(&rows);
    assert_eq!(widths, vec![3, 3]);
}

#[test]
fn test_compositor_calculate_widths_large() {
    let compositor = Compositor::new();
    let rows = vec![
        vec!["Short".to_string(), "Longer Cell".to_string()],
        vec!["X".to_string(), "Y".to_string()],
    ];
    let widths = compositor.calculate_widths(&rows);
    assert_eq!(widths, vec![5, 11]);
}

#[test]
fn test_compositor_format_table_row() {
    let compositor = Compositor::new();
    let row = vec!["A".to_string(), "B".to_string()];
    let widths = vec![3, 3];
    let output = compositor.format_table_row(&row, &widths);
    assert_eq!(output, "| A   | B   |");
}

#[test]
fn test_standard_renderer_new() {
    let renderer = StandardRenderer::new();
    assert!(matches!(renderer, StandardRenderer));
}

#[test]
fn test_structural_table_renderer_new() {
    let renderer = StructuralTableRenderer::new();
    assert!(matches!(renderer, StructuralTableRenderer));
}

#[test]
fn test_check_cache_none_when_version_not_cached() {
    let result = check_cache("0.13.1");
    assert!(result.is_none());
}

#[test]
fn test_check_cache_returns_info_when_cached() {
    let result = check_cache("0.13.1");
    assert!(result.is_none() || result.is_some());
}

#[test]
fn test_check_cache_none_when_path_not_exists() {
    let result = check_cache("0.13.1");
    assert!(result.is_none());
}

#[test]
fn test_convert_exact_paragraph_text() {
    assert_eq!(convert("<p>Hello</p>", 1).unwrap(), "Hello");
    assert_eq!(convert("<h2>Section</h2><p>Body</p>", 1).unwrap(), "## Section\n\nBody");
}

#[test]
fn test_convert_table_layout() {
    let html = "<table><tr><th>A</th><th>Longer</th></tr><tr><td>x</td><td>y</td></tr></table>";
    let md = convert(html, 1).unwrap();
    assert!(md.contains("| A   | Longer |"), "got: {}", md);
    assert!(md.contains("| x   | y      |"), "got: {}", md);
}

#[test]
fn test_try_convert_refuses_ragged_table() {
    let html = "<table><tr><td>a</td></tr><tr><td>b</td><td>c</td></tr></table>";
    assert!(try_convert(html, 1).is_none());
    assert!(try_convert("<p>fine</p>", 1).is_some());
}

#[test]
fn test_try_convert_size_limit_error() {
    let large_html = "y".repeat(MAX_HTML_SIZE + 1);
    match try_convert(&large_html, 1) {
        Some(Err(ConversionError::HtmlTooLarge(n))) => assert_eq!(n, MAX_HTML_SIZE + 1),
        other => panic!("unexpected: {:?}", other),
    }
}
