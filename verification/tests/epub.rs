use std::io::Write;

use easy_read::adapters::epub::path::{decode_url_path, resolve_path};
use easy_read::adapters::epub::resources::{
    get_resource, guess_image_mime, image_data_uri, inline_image_src, inline_images, Resource,
};
use easy_read::adapters::epub::titles::{clean_chapter_title, extract_html_title, is_placeholder};
use easy_read::adapters::epub::EpubAdapter;
use easy_read::models::book::{AdapterError, BookAdapter, BookFormat, BookSource, ChapterContent};

fn epub_bytes(entries: &[(&str, &[u8])]) -> Vec<u8> {
    let mut zip = zip::ZipWriter::new(std::io::Cursor::new(Vec::new()));
    let options = zip::write::SimpleFileOptions::default()
        .compression_method(zip::CompressionMethod::Stored);
    for (name, bytes) in entries {
        zip.start_file(*name, options).unwrap();
        zip.write_all(bytes).unwrap();
    }
    zip.finish().unwrap().into_inner()
}

fn epub_source(bytes: Vec<u8>) -> BookSource {
    BookSource {
        file_path: "/books/fixture.epub".to_string(),
        file_stem: Some("fixture".to_string()),
        extension: Some("epub".to_string()),
        bytes,
    }
}

const CONTAINER: &[u8] = br#"<?xml version="1.0"?>
            <container>
              <rootfiles>
                <rootfile full-path="OPS/package.opf"/>
              </rootfiles>
            </container>"#;

#[test]
fn parses_percent_encoded_epub_paths_with_case_fallback_and_cover_data_uri() {
    let opf = br#"<?xml version="1.0"?>
            <package>
              <metadata>
                <title>Phase 5 Fixture</title>
                <creator>Fixture Author</creator>
              </metadata>
              <manifest>
                <item id="nav" href="nav.xhtml" properties="nav" media-type="application/xhtml+xml"/>
                <item id="chapter" href="Text/My%20Chapter.xhtml" media-type="application/xhtml+xml"/>
                <item id="cover" href="Images/Cover%20Image.PNG" properties="cover-image" media-type="image/png"/>
                <item id="image" href="Images/Pic%20One.PNG" media-type="image/png"/>
              </manifest>
              <spine>
                <itemref idref="chapter"/>
              </spine>
            </package>"#;
    let nav = br#"<html xmlns:epub="http://www.idpf.org/2007/ops">
            <body>
              <nav epub:type="toc">
                <ol><li><a href="Text/My%20Chapter.xhtml">Decoded Chapter</a></li></ol>
              </nav>
            </body>
          </html>"#;
    let chapter = br#"<html>
            <head><title>Ignored Placeholder</title></head>
            <body><p>Hello</p><img ALT='pic' SRC = '../Images/Pic%20One.PNG'></body>
          </html>"#;
    let bytes = epub_bytes(&[
        ("META-INF/container.xml", CONTAINER),
        ("OPS/package.opf", opf.as_slice()),
        ("OPS/nav.xhtml", nav.as_slice()),
        ("OPS/Text/My Chapter.XHTML", chapter.as_slice()),
        ("OPS/Images/Pic One.PNG", b"image bytes"),
        ("OPS/Images/Cover Image.PNG", b"cover bytes"),
    ]);

    let book = EpubAdapter::parse(&epub_source(bytes)).unwrap();

    assert_eq!(book.metadata.title, "Phase 5 Fixture");
    assert_eq!(book.metadata.author, "Fixture Author");
    assert!(book
        .metadata
        .cover_image
        .as_deref()
        .unwrap()
        .starts_with("data:image/png;base64,"));
    assert_eq!(book.chapters.len(), 1);
    assert_eq!(book.chapters[0].title.as_deref(), Some("Decoded Chapter"));
    assert!(matches!(
        &book.chapters[0].content,
        ChapterContent::Html(html) if html.contains("data:image/png;base64,")
    ));
}

#[test]
fn rejects_epubs_with_encryption_xml() {
    let bytes = epub_bytes(&[
        ("META-INF/container.xml", CONTAINER),
        ("META-INF/encryption.xml", b"<encryption/>"),
    ]);

    let err = match EpubAdapter::parse(&epub_source(bytes)) {
        Ok(_) => panic!("encrypted EPUB should be rejected"),
        Err(err) => err.message(),
    };

    assert!(err.contains("DRM-protected"));
}

#[test]
fn opens_epub_when_unused_entry_is_corrupt() {
    let opf = br#"<?xml version="1.0"?>
            <package>
              <metadata>
                <title>Corrupt Entry Fixture</title>
                <creator>Fixture Author</creator>
              </metadata>
              <manifest>
                <item id="chapter" href="chapter.xhtml" media-type="application/xhtml+xml"/>
              </manifest>
              <spine>
                <itemref idref="chapter"/>
              </spine>
            </package>"#;
    let chapter = br#"<html><body><p>Readable</p></body></html>"#;
    let corrupt_payload = b"CORRUPT_ME_PAYLOAD";
    let mut bytes = epub_bytes(&[
        ("bad.bin", corrupt_payload),
        ("META-INF/container.xml", CONTAINER),
        ("OPS/package.opf", opf.as_slice()),
        ("OPS/chapter.xhtml", chapter.as_slice()),
    ]);
    let corrupt_at = bytes
        .windows(corrupt_payload.len())
        .position(|window| window == corrupt_payload)
        .unwrap();
    bytes[corrupt_at] = b'X';

    let book = EpubAdapter::parse(&epub_source(bytes)).unwrap();

    assert_eq!(book.chapters.len(), 1);
}

#[test]
fn inline_images_handles_single_quotes_case_whitespace_and_percent_encoding() {
    let resources = vec![Resource {
        name: "OPS/Images/Pic One.PNG".to_string(),
        bytes: b"image bytes".to_vec(),
    }];

    let html = "<img ALT='pic' SRC = '../Images/Pic%20One.PNG'>";
    let inlined = inline_images(html, "OPS/Text/chapter.xhtml", &resources);

    assert!(inlined.contains("data:image/png;base64,"));
}

#[test]
fn epub_without_container_is_refused() {
    let bytes = epub_bytes(&[("mimetype", b"application/epub+zip")]);
    let err = EpubAdapter::parse(&epub_source(bytes)).err().unwrap();
    assert_eq!(err.message(), "Parse error: Missing META-INF/container.xml");
}

#[test]
fn epub_whose_bytes_are_no_archive_is_refused() {
    let err = EpubAdapter::parse(&epub_source(b"not a zip file".to_vec())).err().unwrap();
    assert!(matches!(err, AdapterError::ParseError(_)));
}

#[test]
fn epub_with_missing_package_is_refused() {
    let bytes = epub_bytes(&[("META-INF/container.xml", CONTAINER)]);
    let err = EpubAdapter::parse(&epub_source(bytes)).err().unwrap();
    assert_eq!(err.message(), "Parse error: OPF not found: OPS/package.opf");
}

#[test]
fn epub_chapter_titles_fall_back_to_numbers_and_ncx() {
    let opf = br#"<?xml version="1.0"?>
            <package>
              <metadata><title>Numbers</title></metadata>
              <manifest>
                <item id="ncx" href="toc.ncx" media-type="application/x-dtbncx+xml"/>
                <item id="one" href="one.xhtml" media-type="application/xhtml+xml"/>
                <item id="two" href="two.xhtml" media-type="application/xhtml+xml"/>
                <item id="three" href="three.xhtml" media-type="application/xhtml+xml"/>
                <item id="gone" href="gone.xhtml" media-type="application/xhtml+xml"/>
              </manifest>
              <spine>
                <itemref idref="one"/>
                <itemref idref="missing"/>
                <itemref idref="gone"/>
                <itemref idref="two"/>
                <itemref idref="three"/>
              </spine>
            </package>"#;
    let ncx = br#"<?xml version="1.0"?>
            <ncx><navMap>
              <navPoint><navLabel><text>Opening</text></navLabel><content src="one.xhtml"/></navPoint>
              <navPoint><navLabel><text>Untitled</text></navLabel><content src="two.xhtml#start"/></navPoint>
            </navMap></ncx>"#;
    let one = b"<html><body><p>One</p></body></html>";
    let two = b"<html><head><title>CHAPTER 7</title></head><body><p>Two</p></body></html>";
    let three = b"<html><body><p>Three</p></body></html>";
    let bytes = epub_bytes(&[
        ("META-INF/container.xml", CONTAINER),
        ("OPS/package.opf", opf.as_slice()),
        ("OPS/toc.ncx", ncx.as_slice()),
        ("OPS/one.xhtml", one.as_slice()),
        ("OPS/two.xhtml", two.as_slice()),
        ("OPS/three.xhtml", three.as_slice()),
    ]);

    let book = EpubAdapter::parse(&epub_source(bytes)).unwrap();

    assert_eq!(book.format, BookFormat::Epub);
    assert_eq!(book.metadata.title, "Numbers");
    assert_eq!(book.metadata.author, "Unknown Author");
    assert_eq!(book.metadata.cover_image, None);
    assert_eq!(book.chapters.len(), 3);
    assert_eq!(book.chapters[0].title.as_deref(), Some("Opening"));
    assert_eq!(book.chapters[1].title.as_deref(), Some("Chapter 7"));
    assert_eq!(book.chapters[2].title.as_deref(), Some("Chapter 4"));
}

#[test]
fn resolves_relative_and_absolute_paths() {
    assert_eq!(resolve_path("OPS/Text/chapter.xhtml", "../Images/a.png"), "OPS/Images/a.png");
    assert_eq!(resolve_path("OPS/Text/chapter.xhtml", "./b.png"), "OPS/Text/b.png");
    assert_eq!(resolve_path("OPS/Text/chapter.xhtml", "/root.png"), "root.png");
    assert_eq!(resolve_path("chapter.xhtml", "../../x%20y.png#frag"), "x y.png");
    assert_eq!(decode_url_path("a%2Fb.xhtml#part"), "a/b.xhtml");
}

#[test]
fn looks_up_resources_exactly_then_ignoring_case() {
    let resources = vec![
        Resource { name: "OPS/a.png".to_string(), bytes: vec![1] },
        Resource { name: "OPS/B.PNG".to_string(), bytes: vec![2] },
        Resource { name: "OPS/b.png".to_string(), bytes: vec![3] },
    ];
    assert_eq!(get_resource(&resources, "OPS/a.png"), Some(&vec![1]));
    assert_eq!(get_resource(&resources, "OPS/B.PNG"), Some(&vec![2]));
    assert_eq!(get_resource(&resources, "ops/A.PNG"), Some(&vec![1]));
    assert_eq!(get_resource(&resources, "OPS/c.png"), None);
}

#[test]
fn guesses_image_types_and_builds_data_uris() {
    assert_eq!(guess_image_mime("a/b.JPG").as_deref(), Some("image/jpeg"));
    assert_eq!(guess_image_mime("cover.svg").as_deref(), Some("image/svg+xml"));
    assert_eq!(guess_image_mime("notes.txt"), None);
    assert_eq!(image_data_uri("x.png", b"hi").as_deref(), Some("data:image/png;base64,aGk="));
    assert_eq!(image_data_uri("x.bin", b"hi"), None);
}

#[test]
fn inline_image_src_leaves_unknown_images() {
    let resources = vec![Resource { name: "OPS/pic.gif".to_string(), bytes: b"GIF".to_vec() }];
    assert_eq!(
        inline_image_src("pic.gif", "OPS/ch.xhtml", &resources).as_deref(),
        Some("data:image/gif;base64,R0lG")
    );
    assert_eq!(inline_image_src("missing.gif", "OPS/ch.xhtml", &resources), None);
    let html = "<p>no images</p><img src=\"missing.gif\">";
    assert_eq!(inline_images(html, "OPS/ch.xhtml", &resources), html);
}

#[test]
fn extracts_and_cleans_chapter_titles() {
    assert_eq!(
        extract_html_title("<html><head><title>  Hello  </title></head></html>").as_deref(),
        Some("Hello")
    );
    assert_eq!(extract_html_title("<html><title>   </title></html>"), None);
    assert_eq!(extract_html_title("<html></html>"), None);
    assert_eq!(clean_chapter_title("Chapter 12: The End", 3).as_deref(), Some("Chapter 12"));
    assert_eq!(clean_chapter_title("Part Two", 3).as_deref(), Some("Chapter 3"));
    assert_eq!(clean_chapter_title("  A Fine Day ", 3).as_deref(), Some("A Fine Day"));
    assert_eq!(clean_chapter_title("   ", 3), None);
    assert!(is_placeholder("  Untitled ", &['x']));
    assert!(is_placeholder("My Book", &"my book".chars().collect::<Vec<char>>()));
    assert!(!is_placeholder("Opening", &['x']));
}

#[test]
fn oversized_epub_entry_is_refused() {
    let mut zip = zip::ZipWriter::new(std::io::Cursor::new(Vec::new()));
    let options = zip::write::SimpleFileOptions::default()
        .compression_method(zip::CompressionMethod::Deflated);
    zip.start_file("META-INF/container.xml", options).unwrap();
    zip.write_all(CONTAINER).unwrap();
    zip.start_file("OPS/huge.bin", options).unwrap();
    let chunk = vec![0u8; 1024 * 1024];
    for _ in 0..65 {
        zip.write_all(&chunk).unwrap();
    }
    let bytes = zip.finish().unwrap().into_inner();

    let err = EpubAdapter::parse(&epub_source(bytes)).err().unwrap();
    assert_eq!(err.message(), "Parse error: EPUB too large to open safely");
}
