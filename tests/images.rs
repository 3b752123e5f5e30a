use md2cb::images::{data_uri, guess_mime_type, image_sources, inline_images, is_remote_source};

#[test]
fn test_skip_data_uri() {
    let html = r#"<img src="data:image/png;base64,abc123">"#;
    let result = inline_images(html, &Vec::new());
    assert_eq!(result, html);
}

#[test]
fn fetched_source_is_replaced() {
    let html = r#"<p><img alt="a" src="pic.png"> and <img src="data:x"></p>"#;
    let fetched = vec![("pic.png".to_string(), "data:image/png;base64,AA==".to_string())];
    assert_eq!(
        inline_images(html, &fetched),
        r#"<p><img alt="a" src="data:image/png;base64,AA=="> and <img src="data:x"></p>"#
    );
}

#[test]
fn unfetched_source_stays() {
    let html = r#"<img src="missing.png">"#;
    assert_eq!(inline_images(html, &Vec::new()), html);
}

#[test]
fn sources_in_order_without_data() {
    let html = r#"<img src="a.png"><img src="data:q"><img alt="x" src="http://h/b.gif">"#;
    assert_eq!(image_sources(html), vec!["a.png".to_string(), "http://h/b.gif".to_string()]);
}

#[test]
fn data_uri_encodes() {
    assert_eq!(data_uri("image/png", &vec![1u8, 2, 3]), "data:image/png;base64,AQID");
    assert_eq!(data_uri("image/gif", &Vec::new()), "data:image/gif;base64,");
}

#[test]
fn mime_types_by_extension() {
    assert_eq!(guess_mime_type("dir/photo.jpeg"), "image/jpeg");
    assert_eq!(guess_mime_type("a.svg"), "image/svg+xml");
    assert_eq!(guess_mime_type("noext"), "image/png");
    assert_eq!(guess_mime_type("x.bmp"), "image/bmp");
}

#[test]
fn remote_sources() {
    assert!(is_remote_source("https://x/y.png"));
    assert!(is_remote_source("http://x"));
    assert!(!is_remote_source("images/a.png"));
}

#[test]
fn source_may_hold_angle_bracket() {
    let fetched = vec![("a>b".to_string(), "data:x".to_string())];
    assert_eq!(inline_images(r#"<img src="a>b">"#, &fetched), r#"<img src="data:x">"#);
}

#[test]
fn last_source_attribute_counts() {
    let html = r#"<img src="a" data-x src="b">"#;
    assert_eq!(image_sources(html), vec!["b".to_string()]);
    let fetched = vec![("b".to_string(), "data:y".to_string())];
    assert_eq!(inline_images(html, &fetched), r#"<img src="a" data-x src="data:y">"#);
}

#[test]
fn any_whitespace_before_source() {
    let fetched = vec![("p.png".to_string(), "data:z".to_string())];
    assert_eq!(inline_images("<img\nsrc=\"p.png\">", &fetched), "<img src=\"data:z\">");
    assert_eq!(
        inline_images("<img\u{a0}src=\"p.png\">", &fetched),
        "<img src=\"data:z\">"
    );
}
