use md2cb::render::convert;

#[test]
fn header_levels_one_to_six() {
    for k in 1..=6 {
        let line = format!("{} Title", "#".repeat(k));
        assert_eq!(convert(&line), format!("<h{k}>Title</h{k}>"));
    }
}

#[test]
fn hashes_without_space_are_no_header() {
    assert_eq!(convert("#Title"), "<p>#Title</p>");
    assert_eq!(convert("###Title"), "<p>###Title</p>");
}

#[test]
fn seven_hashes_are_no_header() {
    assert_eq!(convert("####### Title"), "<p>####### Title</p>");
}

#[test]
fn bold_and_italic_side_by_side() {
    let r = convert("**bold** and *italic*");
    assert_eq!(r, "<p><strong>bold</strong> and <em>italic</em></p>");
}

#[test]
fn underscores_inside_words_stay() {
    assert_eq!(convert("snake_case_word"), "<p>snake_case_word</p>");
}

#[test]
fn task_items_exact() {
    assert_eq!(
        convert("- [ ] todo\n- [x] done"),
        "<ul><li>\u{2610} todo</li><li>\u{2611} done</li></ul>"
    );
}

#[test]
fn table_alignment() {
    let r = convert("| A | B |\n|:--|--:|\n| 1 | 2 |");
    assert!(r.contains("<th>A</th>"));
    assert!(r.contains("<th style=\"text-align:right\">B</th>"));
    assert_eq!(
        r,
        "<table><thead><tr><th>A</th><th style=\"text-align:right\">B</th></tr></thead>\
         <tbody><tr><td>1</td><td style=\"text-align:right\">2</td></tr></tbody></table>"
    );
}

#[test]
fn table_centre_alignment() {
    let r = convert("| A |\n|:-:|\n| 1 |");
    assert!(r.contains("<th style=\"text-align:center\">A</th>"));
    assert!(r.contains("<td style=\"text-align:center\">1</td>"));
}

#[test]
fn table_short_row_keeps_its_cells() {
    let r = convert("| A | B |\n|---|---|\n| 1 |");
    assert!(r.contains("<tr><td>1</td></tr>"));
}

#[test]
fn reference_link_resolves() {
    let r = convert("[text][ref]\n\n[ref]: https://example.com");
    assert!(r.contains("<a href=\"https://example.com\">text</a>"));
    assert!(!r.contains("[ref]:"));
}

#[test]
fn reference_keys_fold_case() {
    let r = convert("[text][REF]\n\n[Ref]: https://example.com");
    assert!(r.contains("<a href=\"https://example.com\">text</a>"));
}

#[test]
fn earliest_definition_wins() {
    let r = convert("[x][ref]\n\n[ref]: A\n[ref]: B");
    assert!(r.contains("<a href=\"A\">x</a>"));
    assert!(!r.contains("href=\"B\""));
}

#[test]
fn unresolved_reference_stays_literal() {
    assert_eq!(convert("[text][nothing]"), "<p>[text][nothing]</p>");
}

#[test]
fn rendering_twice_is_not_the_same() {
    // re-rendering is not a no-op: the text of a generated link is an address again
    let once = convert("see https://example.com");
    assert_eq!(once, "<p>see <a href=\"https://example.com\">https://example.com</a></p>");
    let twice = convert(&once);
    assert_ne!(once, twice);
}

#[test]
fn nested_list_is_a_sibling() {
    assert_eq!(
        convert("- a\n  - b\n- c"),
        "<ul><li>a</li><ul><li>b</li></ul><li>c</li></ul>"
    );
}

#[test]
fn list_kind_change_at_same_indent() {
    assert_eq!(
        convert("- a\n1. b"),
        "<ul><li>a</li></ul><ol><li>b</li></ol>"
    );
}

#[test]
fn list_closes_before_other_line() {
    assert_eq!(convert("- a\n\ntext"), "<ul><li>a</li></ul><p>text</p>");
}

#[test]
fn fenced_code_exact() {
    assert_eq!(
        convert("```rust\nfn main() {}\nlet x = 1;\n```"),
        "<pre><code class=\"language-rust\">fn main() {}\nlet x = 1;</code></pre>"
    );
    assert_eq!(convert("```\nx\n```"), "<pre><code>x</code></pre>");
}

#[test]
fn unterminated_fence_is_text() {
    assert_eq!(convert("```rust\nx"), "<p>```rust x</p>");
}

#[test]
fn blockquote_lines_join() {
    assert_eq!(
        convert("> one\n> two\n\nafter"),
        "<blockquote><p>one two</p></blockquote><p>after</p>"
    );
}

#[test]
fn rules() {
    assert_eq!(convert("***"), "<hr>");
    assert_eq!(convert("___"), "<hr>");
    assert_eq!(convert("-*-"), "<p>-*-</p>");
}

#[test]
fn image_with_title() {
    assert_eq!(
        convert("![a](b.png \"T\")"),
        "<p><img alt=\"a\" src=\"b.png\" title=\"T\"></p>"
    );
}

#[test]
fn image_is_no_link() {
    assert_eq!(
        convert("![a](http://x.org/i.png)"),
        "<p><img alt=\"a\" src=\"http://x.org/i.png\"></p>"
    );
}

#[test]
fn direct_link_exact() {
    assert_eq!(
        convert("[t](u)"),
        "<p><a href=\"u\">t</a></p>"
    );
}

#[test]
fn strike_and_code() {
    assert_eq!(
        convert("~~gone~~ `x`"),
        "<p><del>gone</del> <code>x</code></p>"
    );
}

#[test]
fn unmatched_markers_stay() {
    assert_eq!(convert("**open"), "<p>**open</p>");
}

#[test]
fn raw_html_lines_pass() {
    assert_eq!(convert("<div>\nhi\n</div>"), "<div><p>hi</p></div>");
}

#[test]
fn empty_input() {
    assert_eq!(convert(""), "");
}
