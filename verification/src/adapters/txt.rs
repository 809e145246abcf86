//! Plain-text and Markdown books: decoding the file's bytes, normalizing
//! line endings, and splitting plain text into chapters.
use vstd::prelude::*;
use vstd::utf8::{decode_utf8, valid_utf8};

use crate::models::book::{
    AdapterError, Book, BookAdapter, BookFormat, BookMetadata, BookSource, BookView, Chapter,
    ChapterContent, ChapterContentView, ChapterView, chapter_views,
};
use crate::sanitize::{ammonia_cleaned, book_extra_tags, book_url_schemes, sanitize_book_html};
use crate::state::opt_view;
use crate::text::{
    is_ws, trim_end, trim_start, ascii_lower_chars, ascii_lower_seq, chars_eq, split, split_chars, str_chars,
    string_from_chars, to_chars, trim, trim_chars, utf8_to_string,
};

verus! {

/// The text encodings a book file is decoded with by name.
#[derive(PartialEq, Eq, Structural, Clone, Copy, Debug)]
pub enum TextEncoding {
    Utf8,
    Utf16Le,
    Utf16Be,
    Windows1252,
}

// ---------------------------------------------------------------------------
// Decoding
// ---------------------------------------------------------------------------

/// The encoding announced by a byte-order mark at the start of `raw`, and the
/// mark's length (`encoding_rs::Encoding::for_bom`).
pub open spec fn bom_of(raw: Seq<u8>) -> Option<(TextEncoding, int)> {
    if raw.len() >= 3 && raw[0] == 0xEF && raw[1] == 0xBB && raw[2] == 0xBF {
        Some((TextEncoding::Utf8, 3))
    } else if raw.len() >= 2 && raw[0] == 0xFF && raw[1] == 0xFE {
        Some((TextEncoding::Utf16Le, 2))
    } else if raw.len() >= 2 && raw[0] == 0xFE && raw[1] == 0xFF {
        Some((TextEncoding::Utf16Be, 2))
    } else {
        None
    }
}

/// Sniffs a byte-order mark.
pub fn detect_bom(raw: &[u8]) -> (res: Option<(TextEncoding, usize)>)
    ensures
        match res {
            Some((e, n)) => bom_of(raw@) == Some((e, n as int)),
            None => bom_of(raw@) is None,
        },
{
    if raw.len() >= 3 && raw[0] == 0xEF && raw[1] == 0xBB && raw[2] == 0xBF {
        Some((TextEncoding::Utf8, 3))
    } else if raw.len() >= 2 && raw[0] == 0xFF && raw[1] == 0xFE {
        Some((TextEncoding::Utf16Le, 2))
    } else if raw.len() >= 2 && raw[0] == 0xFE && raw[1] == 0xFF {
        Some((TextEncoding::Utf16Be, 2))
    } else {
        None
    }
}

/// What `encoding_rs`'s `decode_without_bom_handling` returns for `bytes` in
/// `encoding`: the text, with malformed sequences replaced, and whether any
/// were malformed.
pub uninterp spec fn decoded_without_bom(encoding: TextEncoding, bytes: Seq<u8>) -> (Seq<char>, bool);

/// Calls `Encoding::decode_without_bom_handling` on the `encoding_rs`
/// encoding that `encoding` names. The result is named `decoded_without_bom`.
#[verifier::external_body]
fn decode_without_bom(encoding: TextEncoding, bytes: &[u8]) -> (res: (String, bool))
    ensures
        (res.0@, res.1) == decoded_without_bom(encoding, bytes@),
{
    let enc = match encoding {
        TextEncoding::Utf8 => encoding_rs::UTF_8,
        TextEncoding::Utf16Le => encoding_rs::UTF_16LE,
        TextEncoding::Utf16Be => encoding_rs::UTF_16BE,
        TextEncoding::Windows1252 => encoding_rs::WINDOWS_1252,
    };
    let (text, had_errors) = enc.decode_without_bom_handling(bytes);
    (text.into_owned(), had_errors)
}

/// What decoding `raw` gives with the encoding that `chardetng` guesses for
/// it (ISO-2022-JP not allowed, UTF-8 allowed, no top-level domain), and
/// whether that decoding met malformed sequences.
pub uninterp spec fn detected_decoding(raw: Seq<u8>) -> (Seq<char>, bool);

/// Feeds all of `raw` to a `chardetng::EncodingDetector`, takes its guess
/// and decodes `raw` with it (`Encoding::decode`). The result is named
/// `detected_decoding`; nothing else is claimed of it.
#[verifier::external_body]
fn detect_and_decode(raw: &[u8]) -> (res: (String, bool))
    ensures
        (res.0@, res.1) == detected_decoding(raw@),
{
    let mut detector = chardetng::EncodingDetector::new(chardetng::Iso2022JpDetection::Deny);
    detector.feed(raw, true);
    let guessed = detector.guess(None, chardetng::Utf8Detection::Allow);
    let (text, _used, had_errors) = guessed.decode(raw);
    (text.into_owned(), had_errors)
}

/// The text of a book file: decoded by its byte-order mark when it has one,
/// else as UTF-8 when valid, else with the detected encoding when that
/// decodes cleanly, else as windows-1252.
pub open spec fn decoded_text(raw: Seq<u8>) -> Seq<char> {
    match bom_of(raw) {
        Some((e, n)) => decoded_without_bom(e, raw.skip(n)).0,
        None => if valid_utf8(raw) {
            decode_utf8(raw)
        } else if !detected_decoding(raw).1 {
            detected_decoding(raw).0
        } else {
            decoded_without_bom(TextEncoding::Windows1252, raw).0
        },
    }
}

/// Decodes the bytes of a text book.
pub fn decode_text(raw: &[u8]) -> (res: String)
    ensures
        res@ == decoded_text(raw@),
{
    if let Some((encoding, bom_len)) = detect_bom(raw) {
        let rest = crate::text::slice_from(raw, bom_len);
        let (decoded, _had_errors) = decode_without_bom(encoding, rest.as_slice());
        return decoded;
    }
    if let Some(content) = utf8_to_string(raw) {
        return content;
    }
    let (decoded, had_errors) = detect_and_decode(raw);
    if !had_errors {
        return decoded;
    }
    // Without a byte-order mark, `Encoding::decode` is `decode_without_bom_handling`.
    let (decoded, _had_errors) = decode_without_bom(TextEncoding::Windows1252, raw);
    decoded
}

// ---------------------------------------------------------------------------
// Line endings
// ---------------------------------------------------------------------------

/// `s` with every CRLF pair and every other CR turned into LF.
pub open spec fn lf_newlines(s: Seq<char>) -> Seq<char>
    decreases s.len(),
{
    if s.len() == 0 {
        Seq::empty()
    } else if s[0] == '\r' && s.len() >= 2 && s[1] == '\n' {
        seq!['\n'] + lf_newlines(s.skip(2))
    } else if s[0] == '\r' {
        seq!['\n'] + lf_newlines(s.drop_first())
    } else {
        seq![s[0]] + lf_newlines(s.drop_first())
    }
}

/// `s` without a leading byte-order mark and with LF line endings.
pub open spec fn normalized(s: Seq<char>) -> Seq<char> {
    lf_newlines(
        if s.len() > 0 && s[0] == '\u{feff}' {
            s.drop_first()
        } else {
            s
        },
    )
}

/// Drops a leading byte-order mark and turns CRLF and CR line endings into LF.
pub fn normalize_content(content: String) -> (res: String)
    ensures
        res@ == normalized(content@),
{
    let chars = to_chars(content.as_str());
    let n = chars.len();
    let mut i: usize = if n > 0 && chars[0] == '\u{feff}' {
        1
    } else {
        0
    };
    let ghost start = chars@.skip(i as int);
    assert(start == (if chars@.len() > 0 && chars@[0] == '\u{feff}' {
        chars@.drop_first()
    } else {
        chars@
    }));
    let mut out: Vec<char> = Vec::new();
    while i < n
        invariant
            i <= n,
            n == chars@.len(),
            out@ + lf_newlines(chars@.skip(i as int)) == lf_newlines(start),
        decreases n - i,
    {
        let ghost rest = chars@.skip(i as int);
        let c = chars[i];
        if c == '\r' && i + 1 < n && chars[i + 1] == '\n' {
            out.push('\n');
            assert(rest.skip(2) =~= chars@.skip(i + 2));
            assert(out@ + lf_newlines(chars@.skip(i + 2)) =~= out@.drop_last() + (seq!['\n']
                + lf_newlines(rest.skip(2))));
            i = i + 2;
        } else {
            out.push(if c == '\r' {
                '\n'
            } else {
                c
            });
            assert(rest.drop_first() =~= chars@.skip(i + 1));
            assert(out@ + lf_newlines(chars@.skip(i + 1)) =~= out@.drop_last() + (seq![
                out@.last(),
            ] + lf_newlines(rest.drop_first())));
            i = i + 1;
        }
    }
    assert(chars@.skip(i as int) =~= Seq::<char>::empty());
    assert(out@ =~= out@ + lf_newlines(chars@.skip(i as int)));
    string_from_chars(out.as_slice())
}

// ---------------------------------------------------------------------------
// Chapters of plain text
// ---------------------------------------------------------------------------

/// Three line feeds: a blank-section break.
pub open spec fn section_break() -> Seq<char> {
    seq!['\n', '\n', '\n']
}

/// A line holding only `---`: a rule break.
pub open spec fn rule_break() -> Seq<char> {
    seq!['\n', '-', '-', '-', '\n']
}

/// The pieces of every part split at `sep`, in order.
pub open spec fn split_all(parts: Seq<Seq<char>>, sep: Seq<char>) -> Seq<Seq<char>>
    decreases parts.len(),
{
    if parts.len() == 0 {
        Seq::empty()
    } else {
        split_all(parts.drop_last(), sep) + split(parts.last(), sep)
    }
}

/// The pieces, trimmed, with the empty ones left out.
pub open spec fn nonempty_trimmed(pieces: Seq<Seq<char>>) -> Seq<Seq<char>>
    decreases pieces.len(),
{
    if pieces.len() == 0 {
        Seq::empty()
    } else {
        let rest = nonempty_trimmed(pieces.drop_last());
        let t = trim(pieces.last());
        if t.len() > 0 {
            rest.push(t)
        } else {
            rest
        }
    }
}

/// The chapter texts of a plain-text book: the text is split at blank-section
/// breaks, each part at rule breaks, and the trimmed non-empty pieces remain.
pub open spec fn txt_segments(content: Seq<char>) -> Seq<Seq<char>> {
    nonempty_trimmed(split_all(split(content, section_break()), rule_break()))
}

/// The chapters of a plain-text book: one per segment, numbered from zero,
/// or a single empty chapter when there is no segment.
pub open spec fn txt_chapters(content: Seq<char>) -> Seq<ChapterView> {
    let segs = txt_segments(content);
    if segs.len() == 0 {
        seq![ChapterView { index: 0, title: None, content: ChapterContentView::PlainText(Seq::empty()) }]
    } else {
        Seq::new(
            segs.len(),
            |i: int| ChapterView { index: i as usize, title: None, content: ChapterContentView::PlainText(segs[i]) },
        )
    }
}

/// After line endings are normalized no carriage return is left.
pub proof fn law_normalized_has_no_cr(s: Seq<char>)
    ensures
        forall|i: int| 0 <= i < normalized(s).len() ==> #[trigger] normalized(s)[i] != '\r',
{
    lemma_lf_newlines_no_cr(if s.len() > 0 && s[0] == '\u{feff}' { s.drop_first() } else { s });
}

proof fn lemma_lf_newlines_no_cr(s: Seq<char>)
    ensures
        forall|i: int| 0 <= i < lf_newlines(s).len() ==> #[trigger] lf_newlines(s)[i] != '\r',
    decreases s.len(),
{
    if s.len() > 0 {
        if s[0] == '\r' && s.len() >= 2 && s[1] == '\n' {
            lemma_lf_newlines_no_cr(s.skip(2));
            let rest = lf_newlines(s.skip(2));
            assert forall|i: int| 0 <= i < lf_newlines(s).len() implies #[trigger] lf_newlines(s)[i] != '\r' by {
                if i > 0 {
                    assert(lf_newlines(s)[i] == rest[i - 1]);
                }
            }
        } else {
            lemma_lf_newlines_no_cr(s.drop_first());
            let rest = lf_newlines(s.drop_first());
            assert forall|i: int| 0 <= i < lf_newlines(s).len() implies #[trigger] lf_newlines(s)[i] != '\r' by {
                if i > 0 {
                    assert(lf_newlines(s)[i] == rest[i - 1]);
                }
            }
        }
    }
}

proof fn lemma_trim_start_head(s: Seq<char>)
    ensures
        trim_start(s).len() <= s.len(),
        trim_start(s).len() > 0 ==> !is_ws(trim_start(s)[0]),
    decreases s.len(),
{
    if s.len() > 0 && is_ws(s[0]) {
        lemma_trim_start_head(s.drop_first());
    }
}

proof fn lemma_trim_end_ends(s: Seq<char>)
    ensures
        trim_end(s).len() <= s.len(),
        trim_end(s) == s.take(trim_end(s).len() as int),
        trim_end(s).len() > 0 ==> !is_ws(trim_end(s).last()),
    decreases s.len(),
{
    if s.len() > 0 && is_ws(s.last()) {
        lemma_trim_end_ends(s.drop_last());
        assert(s.drop_last().take(trim_end(s).len() as int) =~= s.take(trim_end(s).len() as int));
    } else {
        assert(s.take(s.len() as int) =~= s);
    }
}

/// A trimmed text that is not empty neither starts nor ends with whitespace.
proof fn lemma_trim_ends(s: Seq<char>)
    ensures
        trim(s).len() > 0 ==> !is_ws(trim(s)[0]) && !is_ws(trim(s).last()),
{
    lemma_trim_start_head(trim_start(s));
    lemma_trim_start_head(s);
    lemma_trim_end_ends(trim_start(s));
    if trim(s).len() > 0 {
        assert(trim(s)[0] == trim_start(s)[0]);
    }
}

proof fn lemma_nonempty_trimmed(pieces: Seq<Seq<char>>)
    ensures
        forall|i: int| 0 <= i < nonempty_trimmed(pieces).len() ==> {
            let seg = #[trigger] nonempty_trimmed(pieces)[i];
            seg.len() > 0 && !is_ws(seg[0]) && !is_ws(seg.last())
        },
    decreases pieces.len(),
{
    if pieces.len() > 0 {
        lemma_nonempty_trimmed(pieces.drop_last());
        lemma_trim_ends(pieces.last());
        let rest = nonempty_trimmed(pieces.drop_last());
        let all = nonempty_trimmed(pieces);
        assert forall|i: int| 0 <= i < all.len() implies {
            let seg = #[trigger] all[i];
            seg.len() > 0 && !is_ws(seg[0]) && !is_ws(seg.last())
        } by {
            if i < rest.len() {
                assert(all[i] == rest[i]);
            }
        }
    }
}

/// The chapters of a plain-text book are numbered from zero without gaps,
/// and each holds text that is not empty and neither starts nor ends with
/// whitespace, unless the book has no text at all, when there is a single
/// empty chapter.
pub proof fn law_txt_chapters_shape(content: Seq<char>)
    ensures
        txt_chapters(content).len() >= 1,
        forall|i: int| 0 <= i < txt_chapters(content).len() ==> (#[trigger] txt_chapters(content)[i]).index == i as usize
            && txt_chapters(content)[i].title is None,
        txt_segments(content).len() == 0 ==> txt_chapters(content).len() == 1,
        forall|i: int| 0 <= i < txt_segments(content).len() ==> ({
            let seg = #[trigger] txt_segments(content)[i];
            &&& txt_chapters(content)[i].content == ChapterContentView::PlainText(seg)
            &&& seg.len() > 0 && !is_ws(seg[0]) && !is_ws(seg.last())
        }),
{
    lemma_nonempty_trimmed(split_all(split(content, section_break()), rule_break()));
}

/// Splits plain text into chapters.
pub fn parse_txt(content: &str) -> (res: Vec<Chapter>)
    ensures
        chapter_views(res@) == txt_chapters(content@),
{
    let chars = to_chars(content);
    let blank: Vec<char> = vec!['\n', '\n', '\n'];
    let rule: Vec<char> = vec!['\n', '-', '-', '-', '\n'];
    assert(blank@ =~= section_break());
    assert(rule@ =~= rule_break());
    let parts = split_chars(chars.as_slice(), blank.as_slice());
    let ghost parts_v = split(content@, section_break());
    let mut segs: Vec<Vec<char>> = Vec::new();
    let mut a: usize = 0;
    assert(parts_v.take(0) =~= Seq::<Seq<char>>::empty());
    assert(segs@.map_values(|v: Vec<char>| v@) =~= nonempty_trimmed(split_all(parts_v.take(0), rule_break())));
    while a < parts.len()
        invariant
            a <= parts@.len(),
            parts@.map_values(|v: Vec<char>| v@) == parts_v,
            rule@ == rule_break(),
            segs@.map_values(|v: Vec<char>| v@) == nonempty_trimmed(split_all(parts_v.take(a as int), rule_break())),
        decreases parts@.len() - a,
    {
        let pieces = split_chars(parts[a].as_slice(), rule.as_slice());
        let ghost pieces_v = split(parts_v[a as int], rule_break());
        let ghost head = split_all(parts_v.take(a as int), rule_break());
        assert(parts@[a as int]@ == parts_v[a as int]);
        let mut b: usize = 0;
        assert(head + pieces_v.take(0) =~= head);
        while b < pieces.len()
            invariant
                b <= pieces@.len(),
                pieces@.map_values(|v: Vec<char>| v@) == pieces_v,
                segs@.map_values(|v: Vec<char>| v@) == nonempty_trimmed(head + pieces_v.take(b as int)),
            decreases pieces@.len() - b,
        {
            let ghost before = segs@;
            let t = trim_chars(pieces[b].as_slice());
            assert(pieces@[b as int]@ == pieces_v[b as int]);
            assert((head + pieces_v.take(b + 1)).drop_last() =~= head + pieces_v.take(b as int));
            assert((head + pieces_v.take(b + 1)).last() == pieces_v[b as int]);
            if t.len() > 0 {
                segs.push(t);
                assert(segs@.map_values(|v: Vec<char>| v@) =~= before.map_values(|v: Vec<char>| v@).push(t@));
            }
            b = b + 1;
        }
        assert(pieces_v.take(pieces_v.len() as int) =~= pieces_v);
        assert(parts_v.take(a + 1).drop_last() =~= parts_v.take(a as int));
        assert(parts_v.take(a + 1).last() == parts_v[a as int]);
        a = a + 1;
    }
    assert(parts_v.take(parts_v.len() as int) =~= parts_v);
    let ghost segs_v = txt_segments(content@);
    let mut chapters: Vec<Chapter> = Vec::new();
    if segs.len() == 0 {
        chapters.push(Chapter { index: 0, title: None, content: ChapterContent::PlainText(String::new()) });
        assert(chapter_views(chapters@) =~= txt_chapters(content@));
        return chapters;
    }
    let mut i: usize = 0;
    while i < segs.len()
        invariant
            i <= segs@.len(),
            segs@.map_values(|v: Vec<char>| v@) == segs_v,
            segs_v == txt_segments(content@),
            segs_v.len() > 0,
            chapter_views(chapters@) == txt_chapters(content@).take(i as int),
        decreases segs@.len() - i,
    {
        let text = string_from_chars(segs[i].as_slice());
        assert(segs@[i as int]@ == segs_v[i as int]);
        let ghost prev = chapters@;
        let ch = Chapter { index: i, title: None, content: ChapterContent::PlainText(text) };
        assert(txt_chapters(content@)[i as int] == ch@);
        chapters.push(ch);
        assert(chapter_views(chapters@) =~= chapter_views(prev).push(ch@));
        assert(txt_chapters(content@).take(i + 1) =~= txt_chapters(content@).take(i as int).push(ch@));
        i = i + 1;
        assert(chapter_views(chapters@) =~= txt_chapters(content@).take(i as int));
    }
    assert(txt_chapters(content@).take(i as int) =~= txt_chapters(content@));
    chapters
}

// ---------------------------------------------------------------------------
// Markdown
// ---------------------------------------------------------------------------

/// The HTML that `pulldown_cmark` renders for `content` with all of its
/// extensions enabled.
pub uninterp spec fn markdown_html(content: Seq<char>) -> Seq<char>;

/// Renders Markdown with `pulldown_cmark::Parser::new_ext` (all options)
/// and `pulldown_cmark::html::push_html`. The result is named `markdown_html`.
#[verifier::external_body]
fn markdown_to_html(content: &str) -> (res: String)
    ensures
        res@ == markdown_html(content@),
{
    let parser = pulldown_cmark::Parser::new_ext(content, pulldown_cmark::Options::all());
    let mut html_out = String::new();
    pulldown_cmark::html::push_html(&mut html_out, parser);
    html_out
}

/// The single chapter of a Markdown book: its rendered, sanitized HTML.
pub open spec fn md_chapters(content: Seq<char>) -> Seq<ChapterView> {
    seq![
        ChapterView {
            index: 0,
            title: None,
            content: ChapterContentView::Html(
                ammonia_cleaned(markdown_html(content), book_extra_tags(), book_url_schemes()),
            ),
        },
    ]
}

/// Renders a Markdown book as one chapter of sanitized HTML.
pub fn parse_md(content: &str) -> (res: Vec<Chapter>)
    ensures
        chapter_views(res@) == md_chapters(content@),
{
    let html_out = markdown_to_html(content);
    let sanitized_html = sanitize_book_html(html_out.as_str());
    let chapters = vec![Chapter { index: 0, title: None, content: ChapterContent::Html(sanitized_html) }];
    assert(chapter_views(chapters@) =~= md_chapters(content@));
    chapters
}

// ---------------------------------------------------------------------------
// The adapter
// ---------------------------------------------------------------------------

/// Reads `.txt` and `.md` books.
pub struct TxtAdapter;

/// The book that a text file gives: titled by its file stem ("Untitled"
/// without one), by an unknown author, split into chapters as plain text when
/// the extension is `txt` in any ASCII case, and rendered as Markdown otherwise.
pub open spec fn txt_book(
    file_path: Seq<char>,
    file_stem: Option<Seq<char>>,
    extension: Option<Seq<char>>,
    raw: Seq<u8>,
) -> BookView {
    let content = normalized(decoded_text(raw));
    BookView {
        metadata: crate::models::book::BookMetadataView {
            title: match file_stem {
                Some(s) => s,
                None => "Untitled"@,
            },
            author: "Unknown"@,
            cover_image: None,
        },
        chapters: if extension matches Some(e) && ascii_lower_seq(e) == "txt"@ {
            txt_chapters(content)
        } else {
            md_chapters(content)
        },
        format: BookFormat::Txt,
        file_path,
    }
}

impl BookAdapter for TxtAdapter {
    fn parse(source: &BookSource) -> (res: Result<Book, AdapterError>)
        ensures
            res matches Ok(book) && book@ == txt_book(
                source.file_path@,
                opt_view(source.file_stem),
                opt_view(source.extension),
                source.bytes@,
            ),
    {
        let content = normalize_content(decode_text(source.bytes.as_slice()));
        let title = match &source.file_stem {
            Some(stem) => stem.clone(),
            None => "Untitled".to_string(),
        };
        let is_txt = match &source.extension {
            Some(ext) => {
                let e = to_chars(ext.as_str());
                let lower = ascii_lower_chars(e.as_slice());
                let txt = str_chars("txt");
                chars_eq(lower.as_slice(), txt.as_slice())
            },
            None => false,
        };
        let chapters = if is_txt {
            parse_txt(content.as_str())
        } else {
            parse_md(content.as_str())
        };
        Ok(
            Book {
                metadata: BookMetadata { title, author: "Unknown".to_string(), cover_image: None },
                chapters,
                format: BookFormat::Txt,
                file_path: source.file_path.clone(),
            },
        )
    }
}

} // verus!
