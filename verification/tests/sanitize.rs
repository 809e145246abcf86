use easy_read::sanitize::{filter_book_attribute, is_safe_data_image, sanitize_book_html};
use easy_read::state::strip_html;

#[test]
fn removes_scripts_handlers_and_external_urls() {
    let input = r#"
            <section onclick="alert(1)">
                <script>alert(1)</script>
                <a href="https://example.com">external</a>
                <img alt="remote" src="https://example.com/image.png">
                <img alt="inline" src="data:image/png;base64,AAAA">
            </section>
        "#;

    let sanitized = sanitize_book_html(input);

    assert!(!sanitized.contains("script"));
    assert!(!sanitized.contains("onclick"));
    assert!(!sanitized.contains("https://example.com"));
    assert!(sanitized.contains("<a>external</a>"));
    assert!(sanitized.contains(r#"<img alt="remote">"#));
    assert!(sanitized.contains(r#"<img alt="inline" src="data:image/png;base64,AAAA">"#));
}

#[test]
fn strips_style_and_link_content() {
    let input = r#"
            <link rel="stylesheet" href="https://example.com/book.css">
            <style>body { background: red; }</style>
            <p style="background:url(https://example.com/x)">Text</p>
        "#;

    let sanitized = sanitize_book_html(input);

    assert!(!sanitized.contains("<link"));
    assert!(!sanitized.contains("<style"));
    assert!(!sanitized.contains("style="));
    assert_eq!(sanitized.trim(), "<p>Text</p>");
}

#[test]
fn accepts_only_inline_raster_and_svg_images() {
    assert!(is_safe_data_image("data:image/png;base64,AAAA"));
    assert!(is_safe_data_image("  DATA:IMAGE/JPEG;BASE64,xyz"));
    assert!(is_safe_data_image("data:image/svg+xml;base64,PHN2Zz4="));
    assert!(!is_safe_data_image("data:text/html;base64,PGgxPg=="));
    assert!(!is_safe_data_image("https://example.com/a.png"));
    assert!(!is_safe_data_image("data:image/png,raw"));
}

#[test]
fn attribute_filter_drops_links_and_remote_images() {
    assert_eq!(filter_book_attribute("a", "href", "https://x"), None);
    assert_eq!(filter_book_attribute("img", "src", "https://x/a.png"), None);
    assert_eq!(
        filter_book_attribute("img", "src", "data:image/gif;base64,R0lG").as_deref(),
        Some("data:image/gif;base64,R0lG")
    );
    assert_eq!(filter_book_attribute("img", "alt", "pic").as_deref(), Some("pic"));
    assert_eq!(filter_book_attribute("p", "class", "x").as_deref(), Some("x"));
}

#[test]
fn strips_tags_to_plain_text() {
    assert_eq!(strip_html("<p>Hello <b>world</b></p>"), " Hello  world  ");
    assert_eq!(strip_html("no tags"), "no tags");
    assert_eq!(strip_html("a<unclosed"), "a");
    assert_eq!(strip_html("x > y"), "x   y");
    assert!(!strip_html("<<a>b>").contains('<'));
}
