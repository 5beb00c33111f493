use typstlab_typst::details::{default_value_to_text, extract_html_from_details};
use typstlab_typst::generate::{entry_to_markdown, generate_body_markdown, generate_frontmatter, DocsFrontmatter};
use typstlab_typst::html_to_mdast::{convert, get_attr, get_class};
use typstlab_typst::json::{to_json_string, JsonValue};
use typstlab_typst::mdast::MdNode;
use typstlab_typst::render_func::{format_function_signature, render_func_body};
use typstlab_typst::resolve::parse_typst_version;
use typstlab_typst::schema::{Body, Definition, DocsEntry, FuncContent, ParamContent, SchemaError};

fn s(v: &str) -> JsonValue {
    JsonValue::Str(v.to_string())
}

fn num(v: &str) -> JsonValue {
    JsonValue::Number(v.to_string())
}

fn obj(members: Vec<(&str, JsonValue)>) -> JsonValue {
    JsonValue::Object(members.into_iter().map(|(k, v)| (k.to_string(), v)).collect())
}

fn detail(kind: &str, content: &str) -> JsonValue {
    obj(vec![("kind", s(kind)), ("content", s(content))])
}

fn func(name: &str, title: &str, params: Vec<ParamContent>, returns: Vec<&str>) -> FuncContent {
    FuncContent {
        path: vec![],
        name: name.to_string(),
        title: title.to_string(),
        keywords: vec![],
        oneliner: None,
        element: false,
        contextual: false,
        details: None,
        example: None,
        is_self: false,
        params,
        returns: returns.into_iter().map(|r| r.to_string()).collect(),
        scope: vec![],
    }
}

fn param(name: &str, types: Vec<&str>, default: Option<JsonValue>) -> ParamContent {
    ParamContent {
        name: name.to_string(),
        details: None,
        example: None,
        types: types.into_iter().map(|t| t.to_string()).collect(),
        strings: vec![],
        default,
        positional: false,
        named: true,
        required: false,
        variadic: false,
        settable: false,
    }
}

fn entry(route: &str, title: &str, html: Option<&str>) -> DocsEntry {
    DocsEntry {
        route: route.to_string(),
        title: title.to_string(),
        description: None,
        part: None,
        outline: vec![],
        body: html.map(|h| Body {
            kind: "html".to_string(),
            content: s(h),
            definition: Definition::Unread,
        }),
        children: vec![],
        extra: vec![],
    }
}

#[test]
fn test_extract_string_format() {
    let details = s("<p>Simple HTML string</p>");
    assert_eq!(extract_html_from_details(&details), "<p>Simple HTML string</p>");
}

#[test]
fn test_extract_array_format() {
    let details = JsonValue::Array(vec![
        detail("html", "<p>First paragraph</p>"),
        detail("html", "<p>Second paragraph</p>"),
    ]);
    assert_eq!(extract_html_from_details(&details), "<p>First paragraph</p>\n\n<p>Second paragraph</p>");
}

#[test]
fn test_extract_array_with_mixed_kinds() {
    let details = JsonValue::Array(vec![
        detail("html", "<p>HTML content</p>"),
        detail("example", "ignored"),
        detail("html", "<p>More HTML</p>"),
    ]);
    assert_eq!(extract_html_from_details(&details), "<p>HTML content</p>\n\n<p>More HTML</p>");
}

#[test]
fn test_extract_empty_array() {
    assert_eq!(extract_html_from_details(&JsonValue::Array(vec![])), "");
}

#[test]
fn test_extract_null() {
    assert_eq!(extract_html_from_details(&JsonValue::Null), "");
}

#[test]
fn test_extract_invalid_structure() {
    let details = obj(vec![("not", s("expected"))]);
    assert_eq!(extract_html_from_details(&details), "");
}

#[test]
fn test_extract_html_from_details_array() {
    let details = JsonValue::Array(vec![
        detail("html", "<p>First paragraph</p>"),
        detail("example", "should be ignored"),
        detail("html", "<p>Second paragraph</p>"),
    ]);
    let result = extract_html_from_details(&details);
    assert_eq!(
        result, "<p>First paragraph</p>\n\n<p>Second paragraph</p>",
        "Should extract only html kind items and join with double newline"
    );
}

#[test]
fn test_extract_html_from_details_string() {
    let result = extract_html_from_details(&s("<p>Simple HTML</p>"));
    assert_eq!(result, "<p>Simple HTML</p>", "Should return string as-is");
}

#[test]
fn test_extract_html_from_details_empty() {
    assert_eq!(extract_html_from_details(&JsonValue::Null), "", "Null should return empty string");
    assert_eq!(extract_html_from_details(&JsonValue::Array(vec![])), "", "Empty array should return empty string");
    assert_eq!(extract_html_from_details(&num("42")), "", "Number should return empty string");
}

#[test]
fn test_default_value_plain_string() {
    assert_eq!(default_value_to_text(&s("plain text")).unwrap(), "plain text");
}

#[test]
fn test_default_value_html_simple() {
    assert_eq!(default_value_to_text(&s("<code>100%</code>")).unwrap(), "100%");
}

#[test]
fn test_default_value_html_nested_spans() {
    let value = s("<code><span class=\"typ-num\">100%</span> <span class=\"typ-op\">+</span> <span class=\"typ-num\">0pt</span></code>");
    assert_eq!(default_value_to_text(&value).unwrap(), "100% + 0pt");
}

#[test]
fn test_default_value_html_comparison_operators() {
    let value = s("&lt;code&gt;auto&lt;/code&gt;");
    assert_eq!(default_value_to_text(&value).unwrap(), "&lt;code&gt;auto&lt;/code&gt;");
}

#[test]
fn test_default_value_number() {
    assert_eq!(default_value_to_text(&num("42")).unwrap(), "42");
}

#[test]
fn test_default_value_boolean() {
    assert_eq!(default_value_to_text(&JsonValue::Bool(true)).unwrap(), "true");
}

#[test]
fn test_default_value_array() {
    let value = JsonValue::Array(vec![s("a"), s("b"), s("c")]);
    assert_eq!(default_value_to_text(&value).unwrap(), "[\"a\",\"b\",\"c\"]");
}

#[test]
fn test_default_value_object() {
    let value = obj(vec![("key", s("value"))]);
    assert_eq!(default_value_to_text(&value).unwrap(), "{\"key\":\"value\"}");
}

#[test]
fn test_json_text_escapes_like_serde_json() {
    let value = obj(vec![("k\"q", s("line\nbreak\ttab\\ \u{1}")), ("n", JsonValue::Null), ("list", JsonValue::Array(vec![num("1.5"), JsonValue::Bool(false)]))]);
    assert_eq!(to_json_string(&value), "{\"k\\\"q\":\"line\\nbreak\\ttab\\\\ \\u0001\",\"n\":null,\"list\":[1.5,false]}");
}

#[test]
fn test_simple_signature() {
    let f = func("assert", "Assert", vec![], vec!["none"]);
    assert_eq!(format_function_signature(&f), "`assert() -> none`");
}

#[test]
fn test_signature_with_path() {
    let mut f = func("map", "Map", vec![], vec!["array"]);
    f.path = vec!["array".to_string()];
    assert_eq!(format_function_signature(&f), "`array.map() -> array`");
}

#[test]
fn test_signature_with_params() {
    let mut x = param("x", vec!["int"], None);
    x.positional = true;
    x.named = false;
    x.required = true;
    let mut y = param("y", vec!["int", "float"], Some(num("42")));
    y.positional = true;
    y.named = false;
    let f = func("func", "Func", vec![x, y], vec!["int"]);
    assert_eq!(format_function_signature(&f), "`func(x: int, y: int | float = 42) -> int`");
}

#[test]
fn test_signature_no_return() {
    let f = func("func", "Func", vec![], vec![]);
    assert_eq!(format_function_signature(&f), "`func()`");
}

#[test]
fn test_render_variadic_parameter() {
    let mut p = param("args", vec!["any"], None);
    p.positional = true;
    p.named = false;
    p.variadic = true;
    let f = func("test_func", "Test Function", vec![p], vec!["none"]);
    let result = render_func_body(&f, 1).expect("Should render variadic param");
    assert!(result.contains("variadic"), "Should show variadic flag for parameter");
    assert!(result.contains("**args**"), "Should show parameter name");
}

#[test]
fn test_render_default_array() {
    let p = param("items", vec!["array"], Some(JsonValue::Array(vec![num("1"), num("2"), num("3")])));
    let f = func("test_func", "Test Function", vec![p], vec!["none"]);
    let result = render_func_body(&f, 1).expect("Should render array default");
    assert!(result.contains("default:"), "Should show default label");
    assert!(result.contains("[1,2,3]") || result.contains("[1, 2, 3]"), "Should show array default value as JSON");
}

#[test]
fn test_render_default_object() {
    let p = param("options", vec!["dictionary"], Some(obj(vec![("key", s("value"))])));
    let f = func("test_func", "Test Function", vec![p], vec!["none"]);
    let result = render_func_body(&f, 1).expect("Should render object default");
    assert!(result.contains("default:"), "Should show default label");
    assert!(result.contains("key") && result.contains("value"), "Should show object default value as JSON");
}

#[test]
fn test_default_value_html_stripped() {
    let mut p = param(
        "length",
        vec!["relative"],
        Some(s("<code><span class=\"typ-num\">100%</span> <span class=\"typ-op\">+</span> <span class=\"typ-num\">3pt</span></code>")),
    );
    p.details = Some(s("<p>The length of the line.</p>"));
    p.example = Some(JsonValue::Null);
    p.settable = true;
    let mut f = func("cancel", "Cancel", vec![p], vec!["content"]);
    f.oneliner = Some("Displays a diagonal line through content.".to_string());
    f.element = true;
    f.details = Some(s("<p>Displays a diagonal line through content.</p>"));
    let result = render_func_body(&f, 1).expect("Should render HTML default");
    assert!(result.contains("default:"), "Should show default label");
    assert!(result.contains("100% + 3pt"), "Should extract plain text from HTML: found\n{}", result);
    assert!(!result.contains("<code>") && !result.contains("<span>"), "Should not contain HTML tags in output: found\n{}", result);
}

#[test]
fn test_default_value_simple_html() {
    let mut p = param("size", vec!["auto"], Some(s("<code><span class=\"typ-key\">auto</span></code>")));
    p.details = Some(s("<p>The size.</p>"));
    p.example = Some(JsonValue::Null);
    p.settable = true;
    let mut f = func("test_func", "Test", vec![p], vec!["content"]);
    f.oneliner = Some("Test function.".to_string());
    f.element = true;
    f.details = Some(s("<p>Test.</p>"));
    let result = render_func_body(&f, 1).expect("Should render simple HTML default");
    assert!(result.contains("default: `auto`"), "Should show 'auto' without HTML tags: found\n{}", result);
    assert!(!result.contains("<code>") && !result.contains("<span>"), "Should not contain HTML tags: found\n{}", result);
}

#[test]
fn test_validation_valid_entry() {
    let e = entry("tutorial/writing/", "Writing", None);
    assert!(e.validate().is_ok());
}

#[test]
fn test_validation_empty_route() {
    let e = entry("", "Title", None);
    let result = e.validate();
    assert!(result.is_err());
    assert!(matches!(result.unwrap_err(), SchemaError::MissingRoute));
}

#[test]
fn test_validation_empty_title() {
    let e = entry("tutorial/", "", None);
    let result = e.validate();
    assert!(result.is_err());
    assert!(matches!(result.unwrap_err(), SchemaError::MissingTitle));
}

#[test]
fn test_validation_absolute_path() {
    let e = entry("/tmp/malicious", "Malicious", None);
    let result = e.validate();
    assert!(result.is_err());
    match result.unwrap_err() {
        SchemaError::AbsolutePath(path) => assert_eq!(path, "/tmp/malicious"),
        e => panic!("Expected AbsolutePath error, got: {:?}", e),
    }
}

#[test]
fn test_validation_parent_traversal() {
    let e = entry("../../../etc/passwd", "Malicious", None);
    let result = e.validate();
    assert!(result.is_err());
    match result.unwrap_err() {
        SchemaError::PathTraversal(path) => assert_eq!(path, "../../../etc/passwd"),
        e => panic!("Expected PathTraversal error, got: {:?}", e),
    }
}

#[test]
fn test_parse_typst_version_valid() {
    assert_eq!(parse_typst_version("typst 0.11.0"), Some("0.11.0".to_string()));
    assert_eq!(parse_typst_version("typst 1.0.0"), Some("1.0.0".to_string()));
    assert_eq!(parse_typst_version("typst v0.11.0"), Some("0.11.0".to_string()));
    assert_eq!(parse_typst_version("typst 0.13.1"), Some("0.13.1".to_string()));
}

#[test]
fn test_parse_typst_version_invalid() {
    assert_eq!(parse_typst_version("typst invalid.version.format"), None);
    assert_eq!(parse_typst_version("typst 1.a.b"), None);
    assert_eq!(parse_typst_version("typst 1...2...3"), None);
    assert_eq!(parse_typst_version("typst test.0.0"), None);
    assert_eq!(parse_typst_version("not a version"), None);
    assert_eq!(parse_typst_version(""), None);
}

#[test]
fn test_generate_body_markdown_html() {
    let e = entry("/DOCS-BASE/test/", "Test", Some("<p>Hello World</p>"));
    let result = generate_body_markdown(&e).expect("Should generate markdown");
    assert!(result.contains("Hello World"));
}

#[test]
fn test_generate_body_markdown_no_body() {
    let e = entry("/DOCS-BASE/test/", "Test", None);
    let result = generate_body_markdown(&e).expect("Should generate empty markdown");
    assert_eq!(result, "");
}

#[test]
fn test_integration_nested_link() {
    let mut e = entry("/DOCS-BASE/test/", "Nested", Some(r#"<a href="/DOCS-BASE/reference/math/stretch">Stretch</a>"#));
    e.route = "/DOCS-BASE/reference/math/attach".to_string();
    let result = generate_body_markdown(&e).expect("Failed to generate markdown");
    assert!(result.contains("../../reference/math/stretch.md"), "Should have correct relative link for nested document, got: {}", result);
}

#[test]
fn test_generate_frontmatter_title_only() {
    let result = generate_frontmatter("My Page", None).expect("Should generate frontmatter");
    assert!(result.starts_with("---\n"), "Should start with YAML delimiter");
    assert!(result.contains("title: My Page"), "Should contain title field");
    assert!(result.ends_with("---\n\n"), "Should end with delimiter");
    assert!(!result.contains("description:"), "Should not have description field");
    assert_eq!(result, "---\ntitle: My Page\n---\n\n");
}

#[test]
fn test_generate_frontmatter_with_description() {
    let result = generate_frontmatter("Overview", Some("A detailed description")).expect("Should generate frontmatter");
    assert!(result.starts_with("---\n"));
    assert!(result.contains("title: Overview"));
    assert!(result.contains("description:"));
    assert!(result.contains("A detailed description"));
    assert!(result.ends_with("---\n\n"));
}

#[test]
fn test_generate_frontmatter_multiline_description() {
    let desc = "Line 1\nLine 2\nLine 3";
    let result = generate_frontmatter("Test", Some(desc)).expect("Should generate frontmatter");
    assert!(result.contains("description: |"));
    assert!(result.contains("Line 1"));
    assert!(result.contains("Line 2"));
    assert!(result.contains("Line 3"));
}

#[test]
fn test_entry_to_markdown_frontmatter_and_body() {
    let e = entry("/DOCS-BASE/guide/", "Guide", Some("<h1>Guide</h1><p>Body text</p>"));
    let md = entry_to_markdown(&e).expect("Should generate");
    assert_eq!(md, "---\ntitle: Guide\n---\n\nBody text\n\n");
}

#[test]
fn mod_test_link_conversion() {
    let html = r#"<a href="/DOCS-BASE/reference/func">Function Reference</a>"#;
    let result = convert(html, 1).expect("Should convert link");
    if let MdNode::Root { children } = result {
        assert_eq!(children.len(), 1, "Should have one paragraph");
        if let MdNode::Paragraph { children: para } = &children[0] {
            assert_eq!(para.len(), 1, "Should have one link");
            if let MdNode::Link { url, children: link_children } = &para[0] {
                assert_eq!(url, "../reference/func.md", "Should rewrite internal links");
                assert_eq!(link_children.len(), 1, "Should have one text child");
                if let MdNode::Text { value } = &link_children[0] {
                    assert_eq!(value, "Function Reference");
                } else {
                    panic!("Link should contain Text node");
                }
            } else {
                panic!("Paragraph should contain Link node");
            }
        } else {
            panic!("Root should contain Paragraph node");
        }
    } else {
        panic!("Result should be Root node");
    }
}

#[test]
fn mod_test_list_conversion() {
    let result_ul = convert(r#"<ul><li>Item 1</li><li>Item 2</li></ul>"#, 1).expect("Should convert unordered list");
    if let MdNode::Root { children } = result_ul {
        assert_eq!(children.len(), 1, "Should have one list");
        if let MdNode::List { ordered, children: items, .. } = &children[0] {
            assert!(!ordered, "Should be unordered list");
            assert_eq!(items.len(), 2, "Should have two items");
        } else {
            panic!("Root should contain List node");
        }
    } else {
        panic!("Result should be Root node");
    }
    let result_ol = convert(r#"<ol><li>First</li><li>Second</li></ol>"#, 1).expect("Should convert ordered list");
    if let MdNode::Root { children } = result_ol {
        if let MdNode::List { ordered, start, .. } = &children[0] {
            assert!(*ordered, "Should be ordered list");
            assert_eq!(*start, Some(1), "Should start at 1");
        } else {
            panic!("Root should contain List node");
        }
    } else {
        panic!("Result should be Root node");
    }
}

#[test]
fn mod_test_table_conversion() {
    let html = r#"<table>
            <thead><tr><th>Name</th><th>Value</th></tr></thead>
            <tbody><tr><td>Alpha</td><td>1</td></tr></tbody>
        </table>"#;
    let result = convert(html, 1).expect("Should convert table");
    if let MdNode::Root { children } = result {
        assert_eq!(children.len(), 1, "Should have one table");
        if let MdNode::Table { align, children: rows } = &children[0] {
            assert_eq!(rows.len(), 2, "Should have two rows");
            assert_eq!(align.len(), 2, "Should have alignment for 2 columns");
        } else {
            panic!("Root should contain Table node");
        }
    } else {
        panic!("Result should be Root node");
    }
}

#[test]
fn mod_test_blockquote_conversion() {
    let result = convert(r#"<blockquote><p>Important note</p></blockquote>"#, 1).expect("Should convert blockquote");
    if let MdNode::Root { children } = result {
        assert_eq!(children.len(), 1, "Should have one blockquote");
        if let MdNode::Blockquote { children: inner } = &children[0] {
            assert_eq!(inner.len(), 1, "Should have one paragraph inside");
            if let MdNode::Paragraph { children: para } = &inner[0] {
                if let MdNode::Text { value } = &para[0] {
                    assert_eq!(value, "Important note");
                } else {
                    panic!("Paragraph should contain Text node");
                }
            } else {
                panic!("Blockquote should contain Paragraph node");
            }
        } else {
            panic!("Root should contain Blockquote node");
        }
    } else {
        panic!("Result should be Root node");
    }
}

#[test]
fn mod_test_nested_structures() {
    let html = r#"<ul><li><code>function()</code> calls</li><li>Returns <strong>result</strong></li></ul>"#;
    let result = convert(html, 1).expect("Should convert nested structures");
    if let MdNode::Root { children } = result {
        assert_eq!(children.len(), 1, "Should have one list");
        if let MdNode::List { children: items, .. } = &children[0] {
            assert_eq!(items.len(), 2, "Should have two items");
            if let MdNode::ListItem { children: item1 } = &items[0] {
                if let MdNode::Paragraph { children: para1 } = &item1[0] {
                    assert!(para1.len() >= 2, "Should have multiple children");
                    if let MdNode::InlineCode { value } = &para1[0] {
                        assert_eq!(value, "function()");
                    } else {
                        panic!("First child should be InlineCode");
                    }
                } else {
                    panic!("ListItem should contain Paragraph");
                }
            } else {
                panic!("List should contain ListItem");
            }
            if let MdNode::ListItem { children: item2 } = &items[1] {
                if let MdNode::Paragraph { children: para2 } = &item2[0] {
                    assert!(para2.len() >= 2, "Should have multiple children");
                } else {
                    panic!("ListItem should contain Paragraph");
                }
            } else {
                panic!("List should contain ListItem");
            }
        } else {
            panic!("Root should contain List node");
        }
    } else {
        panic!("Result should be Root node");
    }
}

#[test]
fn test_typst_syntax_spans_flattened() {
    let html = r#"<code><span class="typ-func">#image</span><span class="typ-punct">(</span><span class="typ-str">"file.jpg"</span><span class="typ-punct">)</span></code>"#;
    let result = convert(html, 1).expect("Should convert Typst syntax");
    if let MdNode::Root { children } = result {
        if let MdNode::Paragraph { children: para } = &children[0] {
            if let MdNode::InlineCode { value } = &para[0] {
                assert!(value.contains("#image"));
                assert!(value.contains("file.jpg"));
            } else {
                panic!("Should contain InlineCode node");
            }
        }
    }
}

#[test]
fn test_skipped_elements_leave_no_trace() {
    let with = convert("<p>a</p><script>x()</script><style>p{}</style><p>b</p>", 1).unwrap();
    let without = convert("<p>a</p><p>b</p>", 1).unwrap();
    assert_eq!(format!("{:?}", with), format!("{:?}", without));
}

#[test]
fn test_frontmatter_struct_serialization() {
    let frontmatter = DocsFrontmatter {
        title: "Test Title".to_string(),
        description: Some("Test description".to_string()),
    };
    let yaml = frontmatter.to_yaml().expect("Should serialize");
    assert!(yaml.contains("title: Test Title"));
    assert!(yaml.contains("description:"));
}

#[test]
fn test_frontmatter_struct_no_description() {
    let frontmatter = DocsFrontmatter { title: "Test Title".to_string(), description: None };
    let yaml = frontmatter.to_yaml().expect("Should serialize");
    assert!(yaml.contains("title: Test Title"));
    assert!(!yaml.contains("description:"));
}

#[test]
fn test_get_attr_and_class() {
    let attrs = vec![
        ("href".to_string(), "/x".to_string()),
        ("class".to_string(), "typ-func".to_string()),
        ("href".to_string(), "/y".to_string()),
    ];
    assert_eq!(get_attr(&attrs, "href"), Some("/x".to_string()));
    assert_eq!(get_class(&attrs), Some("typ-func".to_string()));
    assert_eq!(get_attr(&attrs, "id"), None);
}

/// The library's form of a `serde_json` value.
fn from_serde(v: &serde_json::Value) -> JsonValue {
    match v {
        serde_json::Value::Null => JsonValue::Null,
        serde_json::Value::Bool(b) => JsonValue::Bool(*b),
        serde_json::Value::Number(n) => JsonValue::Number(n.to_string()),
        serde_json::Value::String(s) => JsonValue::Str(s.clone()),
        serde_json::Value::Array(items) => JsonValue::Array(items.iter().map(from_serde).collect()),
        serde_json::Value::Object(m) => JsonValue::Object(m.iter().map(|(k, v)| (k.clone(), from_serde(v))).collect()),
    }
}

#[test]
fn test_json_text_agrees_with_serde_json() {
    let samples = [
        r#"null"#,
        r#"[1, -2.5, 3e10, true, false, null]"#,
        r#"{"b": "x\"y\\z", "a": ["\n\r\t\u0008\u000c", "\u0001\u001f\u007f", "ümlaut ☃ 😀"], "c": {}}"#,
        r#""<code><span class=\"typ-num\">100%</span></code>""#,
    ];
    for text in samples.iter() {
        let v: serde_json::Value = serde_json::from_str(text).unwrap();
        assert_eq!(to_json_string(&from_serde(&v)), serde_json::to_string(&v).unwrap(), "on {}", text);
    }
}
