use easy_read::commands::annotations::{
    add_highlight, add_quote, get_bookmarks, get_highlights, get_quotes, remove_highlight,
    remove_quote, toggle_bookmark,
};
use easy_read::commands::book::{book_kind, build_book_index, open_book, parse_book, BookKind};
use easy_read::commands::history::{delete_book_history, get_book_history};
use easy_read::commands::preferences::{
    clear_last_opened, get_state, reader_mode_value, save_preference, ParsedNumber,
};
use easy_read::commands::progress::{save_session_state, update_progress, ScrollUpdate};
use easy_read::models::book::{
    AdapterError, Book, BookFormat, BookMetadata, BookSource, Chapter, ChapterContent,
};
use easy_read::state::{
    corrupt_state_name, default_book_record, get_record, loaded_state, put_record,
    AppState, StateFileRead,
};

fn state_with_book(path: &str) -> AppState {
    let mut s = AppState::default();
    put_record(&mut s, path.to_string(), default_book_record("T".to_string(), "A".to_string()));
    s
}

fn no_number() -> ParsedNumber {
    ParsedNumber { value_bits: None, same_as_font_size: false, same_as_line_height: false }
}

#[test]
fn toggling_a_bookmark_twice_restores_the_bookmarks() {
    let mut s = state_with_book("/b.epub");
    assert!(toggle_bookmark(&mut s, "/b.epub".to_string(), 2, 5));
    let marks = get_bookmarks(&s, "/b.epub".to_string());
    assert_eq!(marks.len(), 1);
    assert_eq!((marks[0].chapter_index, marks[0].page_index), (2, 5));
    assert!(marks[0].label.is_none());
    assert!(!toggle_bookmark(&mut s, "/b.epub".to_string(), 2, 5));
    assert!(get_bookmarks(&s, "/b.epub".to_string()).is_empty());
}

#[test]
fn toggling_a_bookmark_on_an_unknown_book_creates_its_record() {
    let mut s = AppState::default();
    assert!(toggle_bookmark(&mut s, "/new.txt".to_string(), 0, 1));
    let r = get_record(&s, "/new.txt").unwrap();
    assert_eq!(r.title, "");
    assert_eq!(r.author, "");
    assert_eq!(r.bookmarks.len(), 1);
    assert!(get_bookmarks(&s, "/other".to_string()).is_empty());
}

#[test]
fn highlights_need_a_known_book() {
    let mut s = AppState::default();
    let err = add_highlight(&mut s, "/x".to_string(), 0, 1, 2, "yellow".to_string(), None);
    assert_eq!(err, Err("Book not found in state".to_string()));
    assert_eq!(remove_highlight(&mut s, "/x".to_string(), 0, 1, 2), Err("Book not found in state".to_string()));
    assert!(get_highlights(&s, "/x".to_string()).is_empty());
}

#[test]
fn adding_then_removing_a_highlight_restores_the_highlights() {
    let mut s = state_with_book("/b");
    add_highlight(&mut s, "/b".to_string(), 1, 10, 20, "yellow".to_string(), Some("n".to_string())).unwrap();
    add_highlight(&mut s, "/b".to_string(), 1, 30, 40, "blue".to_string(), None).unwrap();
    assert_eq!(get_highlights(&s, "/b".to_string()).len(), 2);
    assert_eq!(remove_highlight(&mut s, "/b".to_string(), 1, 30, 40), Ok(true));
    assert_eq!(remove_highlight(&mut s, "/b".to_string(), 1, 30, 40), Ok(false));
    let hs = get_highlights(&s, "/b".to_string());
    assert_eq!(hs.len(), 1);
    assert_eq!((hs[0].start_offset, hs[0].end_offset), (10, 20));
    assert_eq!(hs[0].color, "yellow");
    assert_eq!(hs[0].note.as_deref(), Some("n"));
}

#[test]
fn adding_then_removing_a_quote_restores_the_quotes() {
    let mut s = state_with_book("/b");
    assert_eq!(add_quote(&mut s, "/x".to_string(), 0, "t".to_string(), None, "q0".to_string()), Err("Book not found in state".to_string()));
    add_quote(&mut s, "/b".to_string(), 3, "Some text".to_string(), None, "q1".to_string()).unwrap();
    add_quote(&mut s, "/b".to_string(), 4, "More".to_string(), Some("why".to_string()), "q2".to_string()).unwrap();
    assert_eq!(remove_quote(&mut s, "/b".to_string(), "q2".to_string()), Ok(true));
    assert_eq!(remove_quote(&mut s, "/b".to_string(), "q2".to_string()), Ok(false));
    assert_eq!(remove_quote(&mut s, "/none".to_string(), "q2".to_string()), Err("Book not found in state".to_string()));
    let qs = get_quotes(&s, "/b".to_string());
    assert_eq!(qs.len(), 1);
    assert_eq!((qs[0].id.as_str(), qs[0].chapter_index, qs[0].text.as_str()), ("q1", 3, "Some text"));
}

#[test]
fn history_is_sorted_by_lowercase_title_and_delete_forgets() {
    let mut s = AppState::default();
    update_progress(&mut s, "/c".to_string(), 1, 2, "banana".to_string(), "X".to_string());
    update_progress(&mut s, "/a".to_string(), 0, 0, "Cherry".to_string(), "Y".to_string());
    update_progress(&mut s, "/b".to_string(), 3, 4, "Apple".to_string(), "Z".to_string());
    toggle_bookmark(&mut s, "/c".to_string(), 0, 0);
    let h = get_book_history(&s);
    let titles: Vec<&str> = h.iter().map(|e| e.title.as_str()).collect();
    assert_eq!(titles, vec!["Apple", "banana", "Cherry"]);
    assert!(h[1].has_bookmarks && !h[1].has_quotes);
    assert_eq!((h[1].file_path.as_str(), h[1].last_chapter, h[1].last_page), ("/c", 1, 2));

    assert_eq!(s.last_opened.as_deref(), Some("/b"));
    assert!(delete_book_history(&mut s, "/b".to_string()));
    assert!(s.last_opened.is_none());
    assert!(!delete_book_history(&mut s, "/b".to_string()));
    let paths: Vec<String> = get_book_history(&s).into_iter().map(|e| e.file_path).collect();
    assert_eq!(paths, vec!["/c".to_string(), "/a".to_string()]);
}

#[test]
fn recording_the_same_progress_twice_changes_nothing() {
    let mut s = AppState::default();
    assert!(update_progress(&mut s, "/p".to_string(), 4, 9, "T".to_string(), "A".to_string()));
    assert!(!update_progress(&mut s, "/p".to_string(), 4, 9, "T".to_string(), "A".to_string()));
    assert!(update_progress(&mut s, "/p".to_string(), 4, 10, "T".to_string(), "A".to_string()));
    let r = get_record(&s, "/p").unwrap();
    assert_eq!((r.last_chapter, r.last_page), (4, 10));
}

#[test]
fn session_snapshot_updates_mode_and_position() {
    let mut s = AppState::default();
    let scroll = ScrollUpdate { next_bits: Some(1.5f64.to_bits()), changed: true };
    assert!(save_session_state(&mut s, "scroll".to_string(), Some("/s".to_string()), Some(2), Some(3), scroll, Some("T".to_string()), Some("A".to_string())));
    assert_eq!(s.preferences.reader_mode.as_deref(), Some("scroll"));
    let r = get_record(&s, "/s").unwrap();
    assert_eq!((r.last_chapter, r.last_page), (2, 3));
    assert_eq!(f64::from_bits(r.last_scroll_top_bits), 1.5);
    let same = ScrollUpdate { next_bits: Some(1.5f64.to_bits()), changed: false };
    assert!(!save_session_state(&mut s, "scroll".to_string(), Some("/s".to_string()), Some(2), Some(3), same, Some("T".to_string()), Some("A".to_string())));
    let none = ScrollUpdate { next_bits: None, changed: false };
    assert!(save_session_state(&mut s, "weird".to_string(), None, None, None, none, None, None));
    assert_eq!(s.preferences.reader_mode.as_deref(), Some("paginated"));
}

#[test]
fn preferences_change_only_when_the_value_differs() {
    let mut s = AppState::default();
    assert!(save_preference(&mut s, "theme".to_string(), "dark".to_string(), no_number()));
    assert!(!save_preference(&mut s, "theme".to_string(), "dark".to_string(), no_number()));
    assert!(!save_preference(&mut s, "unknown".to_string(), "x".to_string(), no_number()));
    let size = ParsedNumber { value_bits: Some(18.0f32.to_bits()), same_as_font_size: false, same_as_line_height: false };
    assert!(save_preference(&mut s, "font_size".to_string(), "18".to_string(), size));
    assert_eq!(s.preferences.font_size_bits, Some(18.0f32.to_bits()));
    assert!(save_preference(&mut s, "reader_mode".to_string(), "book".to_string(), no_number()));
    assert_eq!(s.preferences.reader_mode.as_deref(), Some("paginated"));
    assert_eq!(reader_mode_value("scroll"), "scroll");
    assert_eq!(reader_mode_value("Scroll"), "paginated");
    assert!(!clear_last_opened(&mut s));
    update_progress(&mut s, "/p".to_string(), 0, 0, "T".to_string(), "A".to_string());
    assert!(clear_last_opened(&mut s));
    assert!(!clear_last_opened(&mut s));
    let snapshot = get_state(&s, true);
    assert!(snapshot.state_recovered);
    assert_eq!(snapshot.state.books.len(), 1);
    assert_eq!(snapshot.state.preferences.theme.as_deref(), Some("dark"));
}

#[test]
fn loading_a_malformed_state_file_starts_fresh_and_warns() {
    let fresh = loaded_state(StateFileRead::Malformed);
    assert!(fresh.state_recovered);
    assert!(fresh.state.books.is_empty());
    let missing = loaded_state(StateFileRead::NotFound);
    assert!(!missing.state_recovered);
    let kept = loaded_state(StateFileRead::Parsed(state_with_book("/k")));
    assert!(!kept.state_recovered);
    assert!(get_record(&kept.state, "/k").is_some());
    assert!(!loaded_state(StateFileRead::Unreadable).state_recovered);
}

#[test]
fn corrupt_state_files_get_numbered_names() {
    assert_eq!(corrupt_state_name("state.json", 1700000000, 0), "state.json.corrupt-1700000000");
    assert_eq!(corrupt_state_name("state.json", 42, 7), "state.json.corrupt-42-7");
}

#[test]
fn chooses_the_adapter_by_extension() {
    assert!(matches!(book_kind(&Some("EPUB".to_string())), Ok(BookKind::Epub)));
    assert!(matches!(book_kind(&Some("md".to_string())), Ok(BookKind::Txt)));
    assert_eq!(
        book_kind(&Some("pdf".to_string())).err().unwrap(),
        "PDF files are not supported. Supported formats: .epub, .txt, .md"
    );
    assert_eq!(book_kind(&None).err().unwrap(), "Unsupported format. Supported: .epub, .txt, .md");
    let err = parse_book(&BookSource {
        file_path: "/x.epub".to_string(),
        file_stem: Some("x".to_string()),
        extension: Some("epub".to_string()),
        bytes: b"junk".to_vec(),
    })
    .err()
    .unwrap();
    assert!(err.starts_with("Parse error: "));
}

#[test]
fn the_search_index_holds_stripped_chapter_text() {
    let book = Book {
        metadata: BookMetadata { title: "T".to_string(), author: "A".to_string(), cover_image: None },
        chapters: vec![
            Chapter { index: 0, title: Some("One".to_string()), content: ChapterContent::Html("<p>Hi <b>there</b></p>".to_string()) },
            Chapter { index: 1, title: None, content: ChapterContent::PlainText("plain".to_string()) },
        ],
        format: BookFormat::Epub,
        file_path: "/t.epub".to_string(),
    };
    let idx = build_book_index("/t.epub".to_string(), &book);
    assert_eq!(idx.file_path, "/t.epub");
    assert_eq!(idx.chapters.len(), 2);
    assert_eq!(idx.chapters[0].plain_text, " Hi  there  ");
    assert_eq!(idx.chapters[0].title.as_deref(), Some("One"));
    assert_eq!(idx.chapters[1].plain_text, "plain");
    assert_eq!(AdapterError::FileNotFound.message(), "File not found");
    assert_eq!(AdapterError::UnsupportedFormat.message(), "Unsupported format");
}

#[test]
fn opening_a_book_builds_its_search_index() {
    let (book, index) = open_book(&BookSource {
        file_path: "/b/story.txt".to_string(),
        file_stem: Some("story".to_string()),
        extension: Some("txt".to_string()),
        bytes: b"One\r\n\r\n\r\nTwo".to_vec(),
    })
    .unwrap();
    assert_eq!(book.chapters.len(), 2);
    assert_eq!(index.file_path, "/b/story.txt");
    let texts: Vec<&str> = index.chapters.iter().map(|c| c.plain_text.as_str()).collect();
    assert_eq!(texts, vec!["One", "Two"]);
    let err = open_book(&BookSource {
        file_path: "/b/x.pdf".to_string(),
        file_stem: Some("x".to_string()),
        extension: Some("pdf".to_string()),
        bytes: Vec::new(),
    })
    .err()
    .unwrap();
    assert!(err.starts_with("PDF files are not supported"));
}

#[test]
fn toggling_a_marked_page_twice_moves_its_bookmark_to_the_end() {
    let mut s = state_with_book("/m");
    assert!(toggle_bookmark(&mut s, "/m".to_string(), 1, 1));
    assert!(toggle_bookmark(&mut s, "/m".to_string(), 2, 2));
    assert!(!toggle_bookmark(&mut s, "/m".to_string(), 1, 1));
    assert!(toggle_bookmark(&mut s, "/m".to_string(), 1, 1));
    let pages: Vec<(usize, usize)> = get_bookmarks(&s, "/m".to_string())
        .iter()
        .map(|b| (b.chapter_index, b.page_index))
        .collect();
    assert_eq!(pages, vec![(2, 2), (1, 1)]);
}
