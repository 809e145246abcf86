//! Opening a book: choosing the adapter by file extension, and building the
//! search index of the opened book.
use vstd::prelude::*;

use crate::adapters::epub::adapter::{epub_book, EpubAdapter};
use crate::adapters::txt::{txt_book, TxtAdapter};
use crate::models::book::{
    error_message, Book, BookAdapter, BookSource, BookView, ChapterContent, ChapterContentView, ChapterView, };
use crate::state::{clone_opt_string, opt_view, stripped, strip_html, BookIndex, ChapterText, ChapterTextView};
use crate::text::{ascii_lower_chars, ascii_lower_seq, chars_eq, str_chars, to_chars};

verus! {

/// The adapters a book can be read with.
#[derive(PartialEq, Eq, Structural, Clone, Copy, Debug)]
pub enum BookKind {
    Epub,
    Txt,
}

/// The message for a PDF file.
pub open spec fn pdf_message() -> Seq<char> {
    "PDF files are not supported. Supported formats: .epub, .txt, .md"@
}

/// The message for any other unsupported file.
pub open spec fn unsupported_message() -> Seq<char> {
    "Unsupported format. Supported: .epub, .txt, .md"@
}

/// The adapter for a file extension (compared in ASCII lower case), or the
/// message for an unsupported one.
pub open spec fn kind_for_extension(extension: Option<Seq<char>>) -> Result<BookKind, Seq<char>> {
    match extension {
        Some(e) => {
            let l = ascii_lower_seq(e);
            if l == "epub"@ {
                Ok(BookKind::Epub)
            } else if l == "txt"@ || l == "md"@ {
                Ok(BookKind::Txt)
            } else if l == "pdf"@ {
                Err(pdf_message())
            } else {
                Err(unsupported_message())
            }
        },
        None => Err(unsupported_message()),
    }
}

/// Chooses the adapter for a file extension.
pub fn book_kind(extension: &Option<String>) -> (res: Result<BookKind, String>)
    ensures
        match res {
            Ok(k) => kind_for_extension(opt_view(*extension)) == Ok::<BookKind, Seq<char>>(k),
            Err(m) => kind_for_extension(opt_view(*extension)) == Err::<BookKind, Seq<char>>(m@),
        },
{
    match extension {
        Some(e) => {
            let l = ascii_lower_chars(to_chars(e.as_str()).as_slice());
            if chars_eq(l.as_slice(), str_chars("epub").as_slice()) {
                Ok(BookKind::Epub)
            } else if chars_eq(l.as_slice(), str_chars("txt").as_slice()) || chars_eq(
                l.as_slice(),
                str_chars("md").as_slice(),
            ) {
                Ok(BookKind::Txt)
            } else if chars_eq(l.as_slice(), str_chars("pdf").as_slice()) {
                Err("PDF files are not supported. Supported formats: .epub, .txt, .md".to_string())
            } else {
                Err("Unsupported format. Supported: .epub, .txt, .md".to_string())
            }
        },
        None => Err("Unsupported format. Supported: .epub, .txt, .md".to_string()),
    }
}

/// What opening a book file gives: the book, or the message to show.
pub open spec fn opened_book(source_path: Seq<char>, stem: Option<Seq<char>>, extension: Option<Seq<char>>, bytes: Seq<u8>) -> Result<BookView, Seq<char>> {
    match kind_for_extension(extension) {
        Err(m) => Err(m),
        Ok(BookKind::Epub) => match epub_book(source_path, bytes) {
            Ok(b) => Ok(b),
            Err(e) => Err(error_message(e)),
        },
        Ok(BookKind::Txt) => Ok(txt_book(source_path, stem, extension, bytes)),
    }
}

/// Parses a book file with the adapter its extension calls for.
pub fn parse_book(source: &BookSource) -> (res: Result<Book, String>)
    ensures
        match res {
            Ok(b) => opened_book(source.file_path@, opt_view(source.file_stem), opt_view(source.extension), source.bytes@) == Ok::<BookView, Seq<char>>(b@),
            Err(m) => opened_book(source.file_path@, opt_view(source.file_stem), opt_view(source.extension), source.bytes@) == Err::<BookView, Seq<char>>(m@),
        },
{
    match book_kind(&source.extension) {
        Err(m) => Err(m),
        Ok(BookKind::Epub) => match <EpubAdapter as BookAdapter>::parse(source) {
            Ok(b) => Ok(b),
            Err(e) => Err(e.message()),
        },
        Ok(BookKind::Txt) => match <TxtAdapter as BookAdapter>::parse(source) {
            Ok(b) => Ok(b),
            Err(e) => Err(e.message()),
        },
    }
}

/// The searchable text of a chapter: its HTML with tags stripped, or its plain text.
pub open spec fn chapter_plain_text(c: ChapterView) -> Seq<char> {
    match c.content {
        ChapterContentView::Html(h) => stripped(h),
        ChapterContentView::PlainText(t) => t,
    }
}

/// The search index entry of a chapter.
pub open spec fn chapter_text_of(c: ChapterView) -> ChapterTextView {
    ChapterTextView { index: c.index, title: c.title, plain_text: chapter_plain_text(c) }
}

/// The search index of an opened book.
pub fn build_book_index(file_path: String, book: &Book) -> (res: BookIndex)
    ensures
        res.file_path@ == file_path@,
        res.chapters@.map_values(|c: ChapterText| c@) == book@.chapters.map_values(|c: ChapterView| chapter_text_of(c)),
{
    let mut chapters: Vec<ChapterText> = Vec::new();
    let mut i: usize = 0;
    while i < book.chapters.len()
        invariant
            i <= book.chapters@.len(),
            chapters@.len() == i,
            forall|j: int| 0 <= j < i ==> #[trigger] chapters@[j]@ == chapter_text_of(book.chapters@[j]@),
        decreases book.chapters@.len() - i,
    {
        let ch = &book.chapters[i];
        let plain_text = match &ch.content {
            ChapterContent::Html(html) => strip_html(html.as_str()),
            ChapterContent::PlainText(text) => text.clone(),
        };
        let entry = ChapterText { index: ch.index, title: clone_opt_string(&ch.title), plain_text };
        chapters.push(entry);
        i = i + 1;
    }
    assert(chapters@.map_values(|c: ChapterText| c@) =~= book@.chapters.map_values(|c: ChapterView| chapter_text_of(c)));
    BookIndex { file_path, chapters }
}

/// The search index of an opened book.
pub open spec fn book_index_of(file_path: Seq<char>, b: BookView) -> (Seq<char>, Seq<ChapterTextView>) {
    (file_path, b.chapters.map_values(|c: ChapterView| chapter_text_of(c)))
}

/// Opens a book from the contents of its file: parses it with the adapter its
/// extension calls for and builds its search index, or returns the message to show.
pub fn open_book(source: &BookSource) -> (res: Result<(Book, BookIndex), String>)
    ensures
        match res {
            Ok((b, idx)) => {
                &&& opened_book(source.file_path@, opt_view(source.file_stem), opt_view(source.extension), source.bytes@)
                    == Ok::<BookView, Seq<char>>(b@)
                &&& (idx.file_path@, idx.chapters@.map_values(|c: ChapterText| c@)) == book_index_of(source.file_path@, b@)
            },
            Err(m) => opened_book(source.file_path@, opt_view(source.file_stem), opt_view(source.extension), source.bytes@)
                == Err::<BookView, Seq<char>>(m@),
        },
{
    let book = parse_book(source)?;
    let index = build_book_index(source.file_path.clone(), &book);
    Ok((book, index))
}

} // verus!
