//! The book model that the format adapters produce.
use vstd::prelude::*;

use crate::state::opt_view;
use crate::text::{extend_from, str_chars, string_from_chars, to_chars};

verus! {

/// Title, author and cover of a book. The cover is a `data:` URI of the
/// cover image.
#[derive(Debug)]
pub struct BookMetadata {
    pub title: String,
    pub author: String,
    pub cover_image: Option<String>,
}

/// One chapter of a book.
#[derive(Debug)]
pub struct Chapter {
    pub index: usize,
    pub title: Option<String>,
    pub content: ChapterContent,
}

/// The body of a chapter: sanitized HTML or plain text.
#[derive(Debug)]
pub enum ChapterContent {
    Html(String),
    PlainText(String),
}

/// A parsed book.
#[derive(Debug)]
pub struct Book {
    pub metadata: BookMetadata,
    pub chapters: Vec<Chapter>,
    pub format: BookFormat,
    pub file_path: String,
}

/// The format a book was read from.
#[derive(PartialEq, Eq, Structural, Clone, Copy, Debug)]
pub enum BookFormat {
    Epub,
    Txt,
}

/// Why a book could not be opened.
#[derive(Debug)]
pub enum AdapterError {
    FileNotFound,
    ParseError(String),
    UnsupportedFormat,
}

/// The body of a chapter, as text.
pub enum ChapterContentView {
    Html(Seq<char>),
    PlainText(Seq<char>),
}

/// The contents of a chapter.
pub struct ChapterView {
    pub index: usize,
    pub title: Option<Seq<char>>,
    pub content: ChapterContentView,
}

/// The contents of a book's metadata.
pub struct BookMetadataView {
    pub title: Seq<char>,
    pub author: Seq<char>,
    pub cover_image: Option<Seq<char>>,
}

/// The contents of a book.
pub struct BookView {
    pub metadata: BookMetadataView,
    pub chapters: Seq<ChapterView>,
    pub format: BookFormat,
    pub file_path: Seq<char>,
}

impl View for ChapterContent {
    type V = ChapterContentView;

    open spec fn view(&self) -> ChapterContentView {
        match self {
            ChapterContent::Html(s) => ChapterContentView::Html(s@),
            ChapterContent::PlainText(s) => ChapterContentView::PlainText(s@),
        }
    }
}

impl View for Chapter {
    type V = ChapterView;

    open spec fn view(&self) -> ChapterView {
        ChapterView { index: self.index, title: opt_view(self.title), content: self.content@ }
    }
}

impl View for BookMetadata {
    type V = BookMetadataView;

    open spec fn view(&self) -> BookMetadataView {
        BookMetadataView {
            title: self.title@,
            author: self.author@,
            cover_image: opt_view(self.cover_image),
        }
    }
}

/// The views of a sequence of chapters.
pub open spec fn chapter_views(cs: Seq<Chapter>) -> Seq<ChapterView> {
    cs.map_values(|c: Chapter| c@)
}

impl View for Book {
    type V = BookView;

    open spec fn view(&self) -> BookView {
        BookView {
            metadata: self.metadata@,
            chapters: chapter_views(self.chapters@),
            format: self.format,
            file_path: self.file_path@,
        }
    }
}

/// The contents of an adapter error.
pub enum AdapterErrorView {
    FileNotFound,
    ParseError(Seq<char>),
    UnsupportedFormat,
}

impl View for AdapterError {
    type V = AdapterErrorView;

    open spec fn view(&self) -> AdapterErrorView {
        match self {
            AdapterError::FileNotFound => AdapterErrorView::FileNotFound,
            AdapterError::ParseError(m) => AdapterErrorView::ParseError(m@),
            AdapterError::UnsupportedFormat => AdapterErrorView::UnsupportedFormat,
        }
    }
}

/// The message shown for an adapter error.
pub open spec fn error_message(e: AdapterErrorView) -> Seq<char> {
    match e {
        AdapterErrorView::FileNotFound => seq!['F', 'i', 'l', 'e', ' ', 'n', 'o', 't', ' ', 'f', 'o', 'u', 'n', 'd'],
        AdapterErrorView::ParseError(m) => seq!['P', 'a', 'r', 's', 'e', ' ', 'e', 'r', 'r', 'o', 'r', ':', ' '] + m,
        AdapterErrorView::UnsupportedFormat => seq!['U', 'n', 's', 'u', 'p', 'p', 'o', 'r', 't', 'e', 'd', ' ', 'f', 'o', 'r', 'm', 'a', 't'],
    }
}

impl AdapterError {
    /// The message shown to the reader for this error.
    pub fn message(&self) -> (res: String)
        ensures
            res@ == error_message(self@),
    {
        match self {
            AdapterError::FileNotFound => {
                let s = "File not found";
                proof {
                    reveal_strlit("File not found");
                }
                s.to_string()
            },
            AdapterError::ParseError(msg) => {
                let mut out = str_chars("Parse error: ");
                proof {
                    reveal_strlit("Parse error: ");
                }
                let m = to_chars(msg.as_str());
                extend_from(&mut out, m.as_slice());
                string_from_chars(out.as_slice())
            },
            AdapterError::UnsupportedFormat => {
                let s = "Unsupported format";
                proof {
                    reveal_strlit("Unsupported format");
                }
                s.to_string()
            },
        }
    }
}

/// What an adapter is given to parse: the book file's path as the reader
/// gave it, the parts of that path the adapters use, and the file's bytes.
#[derive(Debug)]
pub struct BookSource {
    pub file_path: String,
    /// The file name without its extension (`Path::file_stem`).
    pub file_stem: Option<String>,
    /// The file name's extension (`Path::extension`).
    pub extension: Option<String>,
    pub bytes: Vec<u8>,
}

/// Turns the bytes of a book file into a `Book`.
pub trait BookAdapter {
    fn parse(source: &BookSource) -> Result<Book, AdapterError>;
}

} // verus!
