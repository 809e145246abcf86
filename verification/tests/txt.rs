use easy_read::adapters::txt::{
    decode_text, detect_bom, normalize_content, parse_md, parse_txt, TextEncoding, TxtAdapter,
};
use easy_read::models::book::{BookAdapter, BookFormat, BookSource, ChapterContent};

#[test]
fn normalizes_bom_and_windows_newlines_before_splitting() {
    let content = normalize_content("\u{feff}First\r\n\r\n\r\nSecond\r\n---\r\nThird".into());
    let chapters = parse_txt(&content);

    assert_eq!(chapters.len(), 3);
    assert!(matches!(
        &chapters[0].content,
        ChapterContent::PlainText(text) if text == "First"
    ));
    assert!(matches!(
        &chapters[1].content,
        ChapterContent::PlainText(text) if text == "Second"
    ));
    assert!(matches!(
        &chapters[2].content,
        ChapterContent::PlainText(text) if text == "Third"
    ));
}

#[test]
fn decodes_windows_1252_when_utf8_is_invalid() {
    let content = decode_text(b"Caf\xe9");

    assert_eq!(content, "Caf\u{e9}");
}

#[test]
fn preserves_existing_lf_utf8_txt_splitting() {
    let chapters = parse_txt("First\n\n\nSecond\n---\nThird");

    assert_eq!(chapters.len(), 3);
    assert!(matches!(
        &chapters[0].content,
        ChapterContent::PlainText(text) if text == "First"
    ));
    assert!(matches!(
        &chapters[1].content,
        ChapterContent::PlainText(text) if text == "Second"
    ));
    assert!(matches!(
        &chapters[2].content,
        ChapterContent::PlainText(text) if text == "Third"
    ));
}

#[test]
fn normalizes_lone_carriage_returns_and_keeps_other_text() {
    assert_eq!(normalize_content("a\rb\r\nc\n".to_string()), "a\nb\nc\n");
    assert_eq!(normalize_content("plain".to_string()), "plain");
    assert_eq!(normalize_content("\u{feff}\u{feff}x".to_string()), "\u{feff}x");
    assert!(!normalize_content("\r\r\n\r".to_string()).contains('\r'));
}

#[test]
fn empty_text_gives_one_empty_chapter() {
    let chapters = parse_txt("  \n\n\n \t ");
    assert_eq!(chapters.len(), 1);
    assert_eq!(chapters[0].index, 0);
    assert!(matches!(&chapters[0].content, ChapterContent::PlainText(t) if t.is_empty()));
}

#[test]
fn txt_chapters_are_trimmed_and_numbered() {
    let chapters = parse_txt("  One \n\n\n\n\n\n Two\n---\n\n---\nThree  ");
    let texts: Vec<String> = chapters
        .iter()
        .map(|c| match &c.content {
            ChapterContent::PlainText(t) => t.clone(),
            ChapterContent::Html(h) => h.clone(),
        })
        .collect();
    assert_eq!(texts, vec!["One", "Two", "Three"]);
    let indices: Vec<usize> = chapters.iter().map(|c| c.index).collect();
    assert_eq!(indices, vec![0, 1, 2]);
    assert!(chapters.iter().all(|c| c.title.is_none()));
}

#[test]
fn decodes_byte_order_marks() {
    assert!(matches!(detect_bom(b"\xEF\xBB\xBFhi"), Some((TextEncoding::Utf8, 3))));
    assert!(matches!(detect_bom(b"\xFF\xFEh\x00"), Some((TextEncoding::Utf16Le, 2))));
    assert!(matches!(detect_bom(b"\xFE\xFF\x00h"), Some((TextEncoding::Utf16Be, 2))));
    assert!(detect_bom(b"hi").is_none());
    assert_eq!(decode_text(b"\xEF\xBB\xBFhi"), "hi");
    assert_eq!(decode_text(b"\xFF\xFEh\x00i\x00"), "hi");
    assert_eq!(decode_text(b"\xFE\xFF\x00h\x00i"), "hi");
    assert_eq!(decode_text("caf\u{e9} \u{2014} ok".as_bytes()), "caf\u{e9} \u{2014} ok");
}

#[test]
fn markdown_renders_sanitized_html() {
    let chapters = parse_md("# Title\n\nSome *text*.\n\n<script>alert(1)</script>");
    assert_eq!(chapters.len(), 1);
    match &chapters[0].content {
        ChapterContent::Html(html) => {
            assert!(html.contains("<h1>Title</h1>"));
            assert!(html.contains("<em>text</em>"));
            assert!(!html.contains("script"));
        }
        ChapterContent::PlainText(_) => panic!("markdown should render to HTML"),
    }
}

#[test]
fn text_adapter_names_book_by_file_stem() {
    let book = TxtAdapter::parse(&BookSource {
        file_path: "/b/notes.TXT".to_string(),
        file_stem: Some("notes".to_string()),
        extension: Some("TXT".to_string()),
        bytes: b"A\n\n\nB".to_vec(),
    })
    .unwrap();
    assert_eq!(book.metadata.title, "notes");
    assert_eq!(book.metadata.author, "Unknown");
    assert_eq!(book.format, BookFormat::Txt);
    assert_eq!(book.file_path, "/b/notes.TXT");
    assert_eq!(book.chapters.len(), 2);

    let md = TxtAdapter::parse(&BookSource {
        file_path: "/b/x.md".to_string(),
        file_stem: None,
        extension: Some("md".to_string()),
        bytes: b"hello".to_vec(),
    })
    .unwrap();
    assert_eq!(md.metadata.title, "Untitled");
    assert!(matches!(&md.chapters[0].content, ChapterContent::Html(h) if h.contains("<p>hello</p>")));
}
