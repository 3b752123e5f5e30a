use md2cb::html::{convert_code_block_newlines, normalize_whitespace};
use md2cb::render::convert;

#[test]
fn test_headers() {
    assert!(convert("# Hello").contains("<h1>"));
    assert!(convert("## World").contains("<h2>"));
    assert!(convert("### Test").contains("<h3>"));
}

#[test]
fn test_bold() {
    assert!(convert("**bold**").contains("<strong>"));
    assert!(convert("__bold__").contains("<strong>"));
}

#[test]
fn test_italic() {
    assert!(convert("*italic*").contains("<em>"));
    assert!(convert("_italic_").contains("<em>"));
}

#[test]
fn test_links() {
    let result = convert("[text](http://example.com)");
    assert!(result.contains("<a href="));
    assert!(result.contains("example.com"));
}

#[test]
fn test_code_blocks() {
    let result = convert("```rust\nfn main() {}\n```");
    assert!(result.contains("<pre"));
    assert!(result.contains("<code"));
    assert!(result.contains("fn "));
    assert!(result.contains("main"));
    // the language tag names the class; the content is passed through verbatim
    assert!(result.contains("class=\"language-rust\""));
}

#[test]
fn test_inline_code() {
    assert!(convert("`code`").contains("<code>"));
}

#[test]
fn test_horizontal_rule() {
    assert!(convert("---").contains("<hr"));
}

#[test]
fn test_blockquote() {
    assert!(convert("> quote").contains("<blockquote>"));
}

#[test]
fn test_unordered_list() {
    let result = convert("- item1\n- item2");
    assert!(result.contains("<ul>"));
    assert!(result.contains("<li>"));
}

#[test]
fn test_ordered_list() {
    let result = convert("1. first\n2. second");
    assert!(result.contains("<ol>"));
    assert!(result.contains("<li>"));
}

#[test]
fn test_task_list() {
    let result = convert("- [ ] todo\n- [x] done");
    // ballot boxes instead of HTML checkboxes
    assert!(result.contains("\u{2610}"));
    assert!(result.contains("\u{2611}"));
    assert!(!result.contains(r#"type="checkbox""#));
}

#[test]
fn test_table() {
    let result = convert("| A | B |\n|---|---|\n| 1 | 2 |");
    assert!(result.contains("<table>"));
    assert!(result.contains("<th>"));
    assert!(result.contains("<td>"));
}

#[test]
fn test_strikethrough() {
    assert!(convert("~~deleted~~").contains("<del>"));
}

#[test]
fn test_images() {
    let result = convert("![alt](http://example.com/img.png)");
    assert!(result.contains("<img"));
    assert!(result.contains("src="));
}

#[test]
fn test_autolink() {
    let result = convert("Visit https://example.com for more.");
    assert!(result.contains("<a href="));
}

#[test]
fn test_code_block_no_trailing_br() {
    let result = convert_code_block_newlines(&convert("```rust\nfn main() {}\n```"));
    assert!(
        !result.contains("<br></span></code>"),
        "Should not have trailing <br> before closing tags"
    );
    assert!(result.contains("main"));
}

#[test]
fn test_normalize_whitespace_removes_between_tags() {
    let html = "<ul>\n<li>item</li>\n</ul>";
    let result = normalize_whitespace(html);
    assert_eq!(result, "<ul><li>item</li></ul>");
}

#[test]
fn test_normalize_whitespace_preserves_inline_content() {
    let html = "<li>hello\nworld</li>";
    let result = normalize_whitespace(html);
    assert_eq!(result, "<li>hello world</li>");
}

#[test]
fn test_normalize_whitespace_mixed() {
    let html = "<ul>\n<li>hello\nworld</li>\n</ul>";
    let result = normalize_whitespace(html);
    assert_eq!(result, "<ul><li>hello world</li></ul>");
}

#[test]
fn test_list_no_extra_whitespace_between_items() {
    let result = convert("- item1\n- item2\n- item3");
    assert!(!result.contains("</li> <li>"));
    assert!(!result.contains("</li>\n<li>"));
    assert!(result.contains("</li><li>"));
}

#[test]
fn test_nested_list_no_extra_whitespace() {
    let result = convert("- parent\n  - child1\n  - child2");
    assert!(!result.contains("</li> <li>"));
    assert!(!result.contains("<ul> <li>"));
    assert!(!result.contains("</ul> </li>"));
}

#[test]
fn test_paragraph_structure_preserved() {
    let result = convert("First paragraph.\n\nSecond paragraph.");
    assert!(result.contains("<p>First paragraph.</p>"));
    assert!(result.contains("<p>Second paragraph.</p>"));
    assert!(result.contains("</p><p>"));
}

#[test]
fn code_block_lines_become_breaks() {
    let html = convert("```python\ndef hello():\n    print('world')\n\nhello()\n```");
    let result = convert_code_block_newlines(&html);
    assert_eq!(
        result,
        "<pre><code class=\"language-python\">def hello():<br>    print('world')<br><br>hello()</code></pre>"
    );
    assert!(result.matches("<br>").count() >= 3);
}

#[test]
fn breaks_only_inside_code() {
    let html = "<p>a\nb</p><pre><code>x\ny</code></pre>";
    assert_eq!(
        convert_code_block_newlines(html),
        "<p>a\nb</p><pre><code>x<br>y</code></pre>"
    );
}

#[test]
fn test_code_block_newlines_converted_to_br() {
    let result = convert_code_block_newlines(&convert(
        "```rust\nfn main() {\n    println!(\"Hello\");\n}\n```",
    ));
    assert!(result.contains("<pre"));
    assert!(result.contains("<code"));
    assert!(result.contains("<br>"));
    assert!(result.contains("main"));
    assert!(result.contains("println"));
}

#[test]
fn test_code_block_multiline_preserves_structure() {
    let result = convert_code_block_newlines(&convert(
        "```python\ndef hello():\n    print('world')\n\nhello()\n```",
    ));
    let br_count = result.matches("<br>").count();
    assert!(br_count >= 3, "Expected at least 3 <br> tags, got {br_count}");
}

#[test]
fn trailing_break_before_span_goes() {
    let html = "<pre style=\"x\"><code><span>fn main() {}\n</span></code></pre>";
    assert_eq!(
        convert_code_block_newlines(html),
        "<pre style=\"x\"><code><span>fn main() {}</span></code></pre>"
    );
}

#[test]
fn test_inline_html_spacing_preserved() {
    // the indented line is no list item, so it closes the list
    let result = convert("- <u>underline</u>, <span>orange</span>,\n  <strong>strong</strong>");
    assert_eq!(
        result,
        "<ul><li><u>underline</u>, <span>orange</span>,</li></ul><p>  <strong>strong</strong></p>"
    );
}

#[test]
fn clipboard_chain() {
    let html = md2cb::render::convert_for_clipboard("# T\n\n```\na\nb\n```\n\n- x\n- y");
    assert_eq!(
        html,
        "<h1>T</h1><pre><code>a<br>b</code></pre><ul><li>x</li><li>y</li></ul>"
    );
}

#[test]
fn whitespace_between_tags_is_unicode_aware() {
    assert_eq!(normalize_whitespace("<a>\u{a0}\u{2003}<b>"), "<a><b>");
}
