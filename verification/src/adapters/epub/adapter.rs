//! Turning the bytes of an EPUB file into a book.
use vstd::prelude::*;
use vstd::utf8::{decode_utf8, valid_utf8};

use super::archive::{archive_files, law_oversized_entry_refused, load_resources, too_large_message, zip_opened, MAX_EPUB_ENTRY_SIZE};
use super::package::{
    element_text, find_nav_path, find_rootfile_path, first_element_text, last_value, lookup_last,
    manifest_upto, nav_doc_path, ncx_doc_path, read_manifest, read_spine,
    rootfile_path, spine_upto, string_views,
};
use super::resources::{
    get_resource, lemma_lookup_finds, image_data_uri, image_uri_spec, inline_images, inlined, resource_lookup,
    resource_views, Resource,
};
use super::titles::{
    chapter_number_title, clean_chapter_title, cleaned_title, extract_html_title, html_title,
    is_placeholder, is_placeholder_spec, numbered_title,
};
use super::toc::{nav_labels, ncx_labels, parse_nav_toc, parse_ncx_toc, toc_get, toc_lookup, toc_views, TocLabels};
use super::xml::{node_views, parse_xml, xml_document, XmlNode, XmlNodeView};
use crate::models::book::{
    AdapterError, AdapterErrorView, Book, BookAdapter, BookFormat, BookMetadata, BookMetadataView,
    BookSource, BookView, Chapter, ChapterContent, ChapterContentView, ChapterView, chapter_views,
};
use crate::sanitize::{ammonia_cleaned, book_extra_tags, book_url_schemes, sanitize_book_html};
use crate::text::{
    extend_from, str_chars, str_from_utf8, str_lowercase, string_from_chars, to_chars,
    to_lowercase, trim, trim_chars, utf8_error_message,
};

verus! {

/// Reads `.epub` books.
pub struct EpubAdapter;

// ---------------------------------------------------------------------------
// Chapter titles and chapters
// ---------------------------------------------------------------------------

/// The title of the chapter at spine position `index`: its table-of-contents
/// label unless that is a placeholder, else its cleaned `<title>` unless that
/// is a placeholder, else "Chapter N" with N = index + 1.
pub open spec fn chapter_title_spec(
    toc: Seq<(Seq<char>, Seq<char>)>,
    item_path: Seq<char>,
    html: Seq<char>,
    index: nat,
    book_title_lower: Seq<char>,
) -> Seq<char> {
    let from_toc = match toc_lookup(toc, item_path) {
        Some(l) => if !is_placeholder_spec(l, book_title_lower) {
            Some(trim(l))
        } else {
            None
        },
        None => None,
    };
    match from_toc {
        Some(t) => t,
        None => {
            let from_html = match html_title(html) {
                Some(t) => if !is_placeholder_spec(t, book_title_lower) {
                    cleaned_title(t, index + 1)
                } else {
                    None
                },
                None => None,
            };
            match from_html {
                Some(t) => t,
                None => numbered_title(index + 1),
            }
        },
    }
}

/// The chapter read from the spine item at position `index`, when the file
/// exists and is UTF-8: its HTML with images inlined, sanitized.
pub open spec fn epub_chapter(
    rs: Seq<(Seq<char>, Seq<u8>)>,
    toc: Seq<(Seq<char>, Seq<char>)>,
    item_path: Seq<char>,
    index: nat,
    book_title_lower: Seq<char>,
) -> Option<ChapterView> {
    match resource_lookup(rs, item_path) {
        None => None,
        Some(bytes) => if !valid_utf8(bytes) {
            None
        } else {
            let html = decode_utf8(bytes);
            Some(
                ChapterView {
                    index: index as usize,
                    title: Some(chapter_title_spec(toc, item_path, html, index, book_title_lower)),
                    content: ChapterContentView::Html(
                        ammonia_cleaned(inlined(html, item_path, rs), book_extra_tags(), book_url_schemes()),
                    ),
                },
            )
        },
    }
}

/// The chapters read from the first `k` spine items.
pub open spec fn epub_chapters_upto(
    rs: Seq<(Seq<char>, Seq<u8>)>,
    toc: Seq<(Seq<char>, Seq<char>)>,
    spine: Seq<Seq<char>>,
    book_title_lower: Seq<char>,
    k: int,
) -> Seq<ChapterView>
    decreases k,
{
    if k <= 0 {
        Seq::empty()
    } else {
        let cs = epub_chapters_upto(rs, toc, spine, book_title_lower, k - 1);
        match epub_chapter(rs, toc, spine[k - 1], (k - 1) as nat, book_title_lower) {
            Some(c) => cs.push(c),
            None => cs,
        }
    }
}

/// The title of the chapter at spine position `index`.
fn chapter_title(
    toc: &TocLabels,
    item_path: &str,
    html: &str,
    index: usize,
    book_title_lower: &[char],
) -> (res: String)
    requires
        index < usize::MAX,
    ensures
        res@ == chapter_title_spec(toc_views(toc@), item_path@, html@, index as nat, book_title_lower@),
{
    if let Some(label) = toc_get(toc, item_path) {
        if !is_placeholder(label.as_str(), book_title_lower) {
            let t = trim_chars(to_chars(label.as_str()).as_slice());
            return string_from_chars(t.as_slice());
        }
    }
    if let Some(t) = extract_html_title(html) {
        if !is_placeholder(t.as_str(), book_title_lower) {
            if let Some(c) = clean_chapter_title(t.as_str(), index + 1) {
                return c;
            }
        }
    }
    chapter_number_title(index + 1)
}

/// The chapter of the spine item at position `index`.
fn read_chapter(
    resources: &Vec<Resource>,
    toc: &TocLabels,
    item_path: &str,
    index: usize,
    book_title_lower: &[char],
) -> (res: Option<Chapter>)
    requires
        index < usize::MAX,
    ensures
        match res {
            Some(c) => epub_chapter(resource_views(resources@), toc_views(toc@), item_path@, index as nat, book_title_lower@) == Some(c@),
            None => epub_chapter(resource_views(resources@), toc_views(toc@), item_path@, index as nat, book_title_lower@) is None,
        },
{
    let html_bytes = get_resource(resources, item_path)?;
    let html_str = match str_from_utf8(html_bytes.as_slice()) {
        Ok(s) => s,
        Err(_) => return None,
    };
    let html_with_images = inline_images(html_str.as_str(), item_path, resources);
    let sanitized_html = sanitize_book_html(html_with_images.as_str());
    let title = chapter_title(toc, item_path, html_str.as_str(), index, book_title_lower);
    Some(Chapter { index, title: Some(title), content: ChapterContent::Html(sanitized_html) })
}

// ---------------------------------------------------------------------------
// The whole book
// ---------------------------------------------------------------------------

/// The chapter labels of the book: from the EPUB 3 navigation document when
/// it yields any, else from the EPUB 2 NCX file.
pub open spec fn toc_labels_spec(
    nodes: Seq<XmlNodeView>,
    opf_path: Seq<char>,
    rs: Seq<(Seq<char>, Seq<u8>)>,
) -> Seq<(Seq<char>, Seq<char>)> {
    let nav = match nav_doc_path(nodes, opf_path) {
        Some(p) => match resource_lookup(rs, p) {
            Some(b) => nav_labels(p, b),
            None => Seq::empty(),
        },
        None => Seq::empty(),
    };
    if nav.len() > 0 {
        nav
    } else {
        match ncx_doc_path(nodes, opf_path) {
            Some(p) => match resource_lookup(rs, p) {
                Some(b) => ncx_labels(p, b),
                None => Seq::empty(),
            },
            None => Seq::empty(),
        }
    }
}

/// The cover of the book: the image file that the cover id names, as a
/// `data:` URI.
pub open spec fn cover_spec(
    manifest: Seq<(Seq<char>, Seq<char>)>,
    cover_id: Option<Seq<char>>,
    rs: Seq<(Seq<char>, Seq<u8>)>,
) -> Option<Seq<char>> {
    match cover_id {
        Some(id) => match last_value(manifest, id) {
            Some(p) => match resource_lookup(rs, p) {
                Some(b) => image_uri_spec(p, b),
                None => None,
            },
            None => None,
        },
        None => None,
    }
}

/// The book described by a package document whose nodes are `nodes`.
pub open spec fn epub_from_package(
    file_path: Seq<char>,
    rs: Seq<(Seq<char>, Seq<u8>)>,
    opf_path: Seq<char>,
    nodes: Seq<XmlNodeView>,
) -> Result<BookView, AdapterErrorView> {
    let title = match element_text(nodes, "title"@) {
        Some(t) => t,
        None => "Unknown Title"@,
    };
    let author = match element_text(nodes, "creator"@) {
        Some(a) => a,
        None => "Unknown Author"@,
    };
    let (manifest, cover_id) = manifest_upto(nodes, opf_path, nodes.len() as int);
    let toc = toc_labels_spec(nodes, opf_path, rs);
    let spine = spine_upto(nodes, manifest, nodes.len() as int);
    if spine.len() == 0 {
        Err(AdapterErrorView::ParseError("Spine is empty"@))
    } else {
        let chapters = epub_chapters_upto(rs, toc, spine, str_lowercase(trim(title)), spine.len() as int);
        if chapters.len() == 0 {
            Err(AdapterErrorView::ParseError("No readable chapters found"@))
        } else {
            Ok(
                BookView {
                    metadata: BookMetadataView {
                        title,
                        author,
                        cover_image: cover_spec(manifest, cover_id, rs),
                    },
                    chapters,
                    format: BookFormat::Epub,
                    file_path,
                },
            )
        }
    }
}

/// The message for an EPUB with an encryption manifest.
pub open spec fn drm_message() -> Seq<char> {
    "This EPUB is DRM-protected and cannot be opened"@
}

/// The book an EPUB file gives, or why it cannot be opened: the archive must
/// open and stay within the size caps, carry no encryption manifest, and
/// have a container document that points to a package document; both must
/// be UTF-8 XML.
pub open spec fn epub_book(file_path: Seq<char>, bytes: Seq<u8>) -> Result<BookView, AdapterErrorView> {
    match archive_files(bytes) {
        Err(e) => Err(e),
        Ok(rs) => if resource_lookup(rs, "META-INF/encryption.xml"@) is Some {
            Err(AdapterErrorView::ParseError(drm_message()))
        } else {
            match resource_lookup(rs, "META-INF/container.xml"@) {
                None => Err(AdapterErrorView::ParseError("Missing META-INF/container.xml"@)),
                Some(cb) => if !valid_utf8(cb) {
                    Err(AdapterErrorView::ParseError(utf8_error_message(cb)))
                } else {
                    match xml_document(decode_utf8(cb)) {
                        Err(m) => Err(AdapterErrorView::ParseError(m)),
                        Ok(cnodes) => match rootfile_path(cnodes) {
                            None => Err(AdapterErrorView::ParseError("No rootfile in container.xml"@)),
                            Some(opf_path) => match resource_lookup(rs, opf_path) {
                                None => Err(AdapterErrorView::ParseError("OPF not found: "@ + opf_path)),
                                Some(ob) => if !valid_utf8(ob) {
                                    Err(AdapterErrorView::ParseError(utf8_error_message(ob)))
                                } else {
                                    match xml_document(decode_utf8(ob)) {
                                        Err(m) => Err(AdapterErrorView::ParseError(m)),
                                        Ok(nodes) => epub_from_package(file_path, rs, opf_path, nodes),
                                    }
                                },
                            },
                        },
                    }
                },
            }
        },
    }
}

/// An EPUB whose archive holds `META-INF/encryption.xml` is refused as
/// DRM-protected.
pub proof fn law_encrypted_epub_refused(file_path: Seq<char>, bytes: Seq<u8>, i: int)
    requires
        archive_files(bytes) matches Ok(rs) && 0 <= i < rs.len() && rs[i].0 == "META-INF/encryption.xml"@,
    ensures
        epub_book(file_path, bytes) == Err::<BookView, AdapterErrorView>(AdapterErrorView::ParseError(drm_message())),
{
    lemma_lookup_finds(archive_files(bytes)->Ok_0, "META-INF/encryption.xml"@, i);
}

/// An EPUB with a file over the per-file size cap is refused as too large.
pub proof fn law_oversized_epub_refused(file_path: Seq<char>, bytes: Seq<u8>, k: int)
    requires
        zip_opened(bytes) matches Ok(entries) && 0 <= k < entries.len() && (entries[k].header matches Some(h)
            && h.is_file && h.size > MAX_EPUB_ENTRY_SIZE),
    ensures
        epub_book(file_path, bytes) == Err::<BookView, AdapterErrorView>(AdapterErrorView::ParseError(too_large_message())),
{
    law_oversized_entry_refused(bytes, k);
}

/// The view of an adapter result.
pub open spec fn book_result_view(r: Result<Book, AdapterError>) -> Result<BookView, AdapterErrorView> {
    match r {
        Ok(b) => Ok(b@),
        Err(e) => Err(e@),
    }
}

/// An error carrying the given message.
fn parse_error(msg: &str) -> (res: AdapterError)
    ensures
        res@ == AdapterErrorView::ParseError(msg@),
{
    AdapterError::ParseError(msg.to_string())
}

/// Reads the chapter labels.
fn read_toc(nodes: &Vec<XmlNode>, opf_path: &str, resources: &Vec<Resource>) -> (res: TocLabels)
    ensures
        toc_views(res@) == toc_labels_spec(node_views(nodes@), opf_path@, resource_views(resources@)),
{
    let mut toc: TocLabels = Vec::new();
    assert(toc_views(toc@) =~= Seq::<(Seq<char>, Seq<char>)>::empty());
    if let Some(nav_path) = find_nav_path(nodes, opf_path, false) {
        if let Some(bytes) = get_resource(resources, nav_path.as_str()) {
            toc = parse_nav_toc(nav_path.as_str(), bytes.as_slice());
        }
    }
    if toc.len() == 0 {
        assert(toc_views(toc@) =~= Seq::<(Seq<char>, Seq<char>)>::empty());
        if let Some(ncx_path) = find_nav_path(nodes, opf_path, true) {
            if let Some(bytes) = get_resource(resources, ncx_path.as_str()) {
                toc = parse_ncx_toc(ncx_path.as_str(), bytes.as_slice());
            }
        }
    }
    toc
}

/// Builds the book from the package document.
fn book_from_package(
    file_path: &str,
    resources: &Vec<Resource>,
    opf_path: &str,
    nodes: &Vec<XmlNode>,
) -> (res: Result<Book, AdapterError>)
    ensures
        book_result_view(res) == epub_from_package(file_path@, resource_views(resources@), opf_path@, node_views(nodes@)),
{
    let title = match first_element_text(nodes, str_chars("title").as_slice()) {
        Some(t) => t,
        None => "Unknown Title".to_string(),
    };
    let author = match first_element_text(nodes, str_chars("creator").as_slice()) {
        Some(a) => a,
        None => "Unknown Author".to_string(),
    };
    let (manifest, cover_id) = read_manifest(nodes, opf_path);
    let cover_image = match &cover_id {
        Some(id) => match lookup_last(&manifest, to_chars(id.as_str()).as_slice()) {
            Some(p) => match get_resource(resources, p.as_str()) {
                Some(bytes) => image_data_uri(p.as_str(), bytes.as_slice()),
                None => None,
            },
            None => None,
        },
        None => None,
    };
    let toc = read_toc(nodes, opf_path, resources);
    let spine = read_spine(nodes, &manifest);
    if spine.len() == 0 {
        return Err(parse_error("Spine is empty"));
    }
    let trimmed_title = string_from_chars(trim_chars(to_chars(title.as_str()).as_slice()).as_slice());
    let book_title_lower = to_chars(to_lowercase(trimmed_title.as_str()).as_str());
    let ghost rs = resource_views(resources@);
    let ghost tv = toc_views(toc@);
    let ghost sv = string_views(spine@);
    let mut chapters: Vec<Chapter> = Vec::new();
    let mut index: usize = 0;
    assert(chapter_views(chapters@) =~= Seq::<ChapterView>::empty());
    while index < spine.len()
        invariant
            index <= spine@.len(),
            rs == resource_views(resources@),
            tv == toc_views(toc@),
            sv == string_views(spine@),
            chapter_views(chapters@) == epub_chapters_upto(rs, tv, sv, book_title_lower@, index as int),
        decreases spine@.len() - index,
    {
        assert(sv[index as int] == spine@[index as int]@);
        let ghost before = chapters@;
        match read_chapter(resources, &toc, spine[index].as_str(), index, book_title_lower.as_slice()) {
            Some(c) => {
                chapters.push(c);
                assert(chapter_views(chapters@) =~= chapter_views(before).push(chapters@.last()@));
            },
            None => {},
        }
        index = index + 1;
    }
    if chapters.len() == 0 {
        return Err(parse_error("No readable chapters found"));
    }
    Ok(
        Book {
            metadata: BookMetadata { title, author, cover_image },
            chapters,
            format: BookFormat::Epub,
            file_path: file_path.to_string(),
        },
    )
}

/// The text of an archive file, or the UTF-8 error as an adapter error.
fn utf8_text(bytes: &Vec<u8>) -> (res: Result<String, AdapterError>)
    ensures
        match res {
            Ok(s) => valid_utf8(bytes@) && s@ == decode_utf8(bytes@),
            Err(e) => !valid_utf8(bytes@) && e@ == AdapterErrorView::ParseError(utf8_error_message(bytes@)),
        },
{
    match str_from_utf8(bytes.as_slice()) {
        Ok(s) => Ok(s),
        Err(m) => Err(AdapterError::ParseError(m)),
    }
}

/// The nodes of an XML document, or its parse error as an adapter error.
fn xml_nodes(text: &str) -> (res: Result<Vec<XmlNode>, AdapterError>)
    ensures
        match res {
            Ok(nodes) => xml_document(text@) == Ok::<Seq<XmlNodeView>, Seq<char>>(node_views(nodes@)),
            Err(e) => exists|m: Seq<char>| xml_document(text@) == Err::<Seq<XmlNodeView>, Seq<char>>(m) && e@ == AdapterErrorView::ParseError(m),
        },
{
    match parse_xml(text) {
        Ok(nodes) => Ok(nodes),
        Err(m) => Err(AdapterError::ParseError(m)),
    }
}

impl EpubAdapter {
    /// Parses the bytes of an EPUB file read from `file_path`.
    pub fn parse_bytes(file_path: &str, bytes: Vec<u8>) -> (res: Result<Book, AdapterError>)
        ensures
            book_result_view(res) == epub_book(file_path@, bytes@),
    {
        let ghost raw = bytes@;
        let resources = match load_resources(bytes) {
            Ok(r) => r,
            Err(e) => return Err(e),
        };
        let ghost rs = resource_views(resources@);
        if get_resource(&resources, "META-INF/encryption.xml").is_some() {
            return Err(parse_error("This EPUB is DRM-protected and cannot be opened"));
        }
        let container_bytes = match get_resource(&resources, "META-INF/container.xml") {
            Some(b) => b,
            None => return Err(parse_error("Missing META-INF/container.xml")),
        };
        let container_str = utf8_text(container_bytes)?;
        let container_doc = xml_nodes(container_str.as_str())?;
        let opf_path = match find_rootfile_path(&container_doc) {
            Some(p) => p,
            None => return Err(parse_error("No rootfile in container.xml")),
        };
        let opf_bytes = match get_resource(&resources, opf_path.as_str()) {
            Some(b) => b,
            None => {
                let mut msg = str_chars("OPF not found: ");
                extend_from(&mut msg, to_chars(opf_path.as_str()).as_slice());
                return Err(AdapterError::ParseError(string_from_chars(msg.as_slice())));
            },
        };
        let opf_str = utf8_text(opf_bytes)?;
        let opf_doc = xml_nodes(opf_str.as_str())?;
        book_from_package(file_path, &resources, opf_path.as_str(), &opf_doc)
    }
}

impl BookAdapter for EpubAdapter {
    fn parse(source: &BookSource) -> (res: Result<Book, AdapterError>)
        ensures
            book_result_view(res) == epub_book(source.file_path@, source.bytes@),
    {
        EpubAdapter::parse_bytes(source.file_path.as_str(), source.bytes.clone())
    }
}

} // verus!
