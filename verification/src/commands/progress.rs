//! Recording where the reader is in a book.
use vstd::prelude::*;

use super::preferences::{reader_mode_for, reader_mode_value};
use crate::state::{
    default_book_record, get_record, opt_view, put_record, record_or_new, AppState, AppStateView,
    BookRecordView, UserPreferencesView,
};
use crate::text::{chars_eq, to_chars};

verus! {

/// Whether the last opened book is the one at `path`.
fn last_opened_is(state: &AppState, path: &str) -> (res: bool)
    ensures
        res == (state@.last_opened == Some(path@)),
{
    match &state.last_opened {
        Some(l) => chars_eq(to_chars(l.as_str()).as_slice(), to_chars(path).as_slice()),
        None => false,
    }
}

/// Whether two strings hold the same text.
fn same_text(a: &String, b: &String) -> (res: bool)
    ensures
        res == (a@ == b@),
{
    chars_eq(to_chars(a.as_str()).as_slice(), to_chars(b.as_str()).as_slice())
}

/// The state after the reader reached `chapter_index`/`page_index` of the
/// book at `path` titled `title` by `author`, and whether it changed. The
/// record is created when missing; it and the last opened book are updated
/// unless nothing about them would change.
pub open spec fn progress_update(
    s: AppStateView,
    path: Seq<char>,
    chapter_index: usize,
    page_index: usize,
    title: Seq<char>,
    author: Seq<char>,
) -> (AppStateView, bool) {
    let r = record_or_new(s, path, title, author);
    let changed = !s.books.contains_key(path) || r.last_chapter != chapter_index || r.last_page
        != page_index || r.title != title || r.author != author || s.last_opened != Some(path);
    if !changed {
        (s, false)
    } else {
        (
            AppStateView {
                books: s.books.insert(
                    path,
                    BookRecordView { last_chapter: chapter_index, last_page: page_index, title, author, ..r },
                ),
                last_opened: Some(path),
                ..s
            },
            true,
        )
    }
}

/// Records the reading position in a book and makes it the last opened book.
/// Returns whether the state changed.
pub fn update_progress(
    state: &mut AppState,
    file_path: String,
    chapter_index: usize,
    page_index: usize,
    title: String,
    author: String,
) -> (changed: bool)
    requires
        old(state).wf(),
    ensures
        final(state).wf(),
        (final(state)@, changed) == progress_update(old(state)@, file_path@, chapter_index, page_index, title@, author@),
        final(state)@.last_opened == Some(file_path@),
        final(state)@.books.contains_key(file_path@),
        final(state)@.books[file_path@].last_chapter == chapter_index,
        final(state)@.books[file_path@].last_page == page_index,
        final(state)@.books[file_path@].title == title@,
        final(state)@.books[file_path@].author == author@,
{
    proof {
        law_progress_update_records(state@, file_path@, chapter_index, page_index, title@, author@);
    }
    let last_opened_changed = !last_opened_is(state, file_path.as_str());
    let existing = get_record(state, file_path.as_str());
    let inserted = existing.is_none();
    let mut record = match existing {
        Some(r) => r,
        None => default_book_record(title.clone(), author.clone()),
    };
    let progress_changed = record.last_chapter != chapter_index || record.last_page != page_index
        || !same_text(&record.title, &title) || !same_text(&record.author, &author);
    if !inserted && !progress_changed && !last_opened_changed {
        return false;
    }
    record.last_chapter = chapter_index;
    record.last_page = page_index;
    record.title = title;
    record.author = author;
    put_record(state, file_path.clone(), record);
    state.last_opened = Some(file_path);
    true
}

/// What the reader's interface learned of a scroll position: the bit
/// pattern of the finite, non-negative `f64` it stands for (none when there
/// is no such value), and whether that value differs from the book's current
/// scroll position by more than `f64::EPSILON`.
#[derive(Debug)]
pub struct ScrollUpdate {
    pub next_bits: Option<u64>,
    pub changed: bool,
}

/// The state after a session snapshot, and whether it changed: the reading
/// mode becomes "scroll" or "paginated"; when the position is complete, the
/// book's record (created when missing) takes the position, the scroll
/// position when there is one, the title and the author, and the book
/// becomes the last opened one, unless nothing about them would change.
pub open spec fn session_update(
    s: AppStateView,
    reader_mode: Seq<char>,
    file_path: Option<Seq<char>>,
    chapter_index: Option<usize>,
    page_index: Option<usize>,
    scroll: ScrollUpdate,
    title: Option<Seq<char>>,
    author: Option<Seq<char>>,
) -> (AppStateView, bool) {
    let next_mode = reader_mode_for(reader_mode);
    let mode_changed = s.preferences.reader_mode != Some(next_mode);
    let s1 = if mode_changed {
        AppStateView { preferences: UserPreferencesView { reader_mode: Some(next_mode), ..s.preferences }, ..s }
    } else {
        s
    };
    match (file_path, chapter_index, page_index, title, author) {
        (Some(path), Some(ch), Some(pg), Some(t), Some(a)) => {
            let r = record_or_new(s1, path, t, a);
            let changed = !s1.books.contains_key(path) || r.last_chapter != ch || r.last_page != pg
                || scroll.changed || r.title != t || r.author != a || s1.last_opened != Some(path);
            if changed {
                let scroll_bits = match scroll.next_bits {
                    Some(b) => b,
                    None => r.last_scroll_top_bits,
                };
                (
                    AppStateView {
                        books: s1.books.insert(
                            path,
                            BookRecordView {
                                last_chapter: ch,
                                last_page: pg,
                                last_scroll_top_bits: scroll_bits,
                                title: t,
                                author: a,
                                ..r
                            },
                        ),
                        last_opened: Some(path),
                        ..s1
                    },
                    true,
                )
            } else {
                (s1, mode_changed)
            }
        },
        _ => (s1, mode_changed),
    }
}

/// Records the reading mode and, when the position is complete, the reading
/// position. Returns whether the state changed.
pub fn save_session_state(
    state: &mut AppState,
    reader_mode: String,
    file_path: Option<String>,
    chapter_index: Option<usize>,
    page_index: Option<usize>,
    scroll: ScrollUpdate,
    title: Option<String>,
    author: Option<String>,
) -> (changed: bool)
    requires
        old(state).wf(),
    ensures
        final(state).wf(),
        (final(state)@, changed) == session_update(
            old(state)@,
            reader_mode@,
            opt_view(file_path),
            chapter_index,
            page_index,
            scroll,
            opt_view(title),
            opt_view(author),
        ),
{
    let next_mode = reader_mode_value(reader_mode.as_str());
    let mut changed = false;
    let same_mode = match &state.preferences.reader_mode {
        Some(m) => same_text(m, &next_mode),
        None => false,
    };
    if !same_mode {
        state.preferences.reader_mode = Some(next_mode);
        changed = true;
    }
    match (file_path, chapter_index, page_index, title, author) {
        (Some(file_path), Some(chapter_index), Some(page_index), Some(title), Some(author)) => {
            let last_opened_changed = !last_opened_is(state, file_path.as_str());
            let existing = get_record(state, file_path.as_str());
            let inserted = existing.is_none();
            let mut record = match existing {
                Some(r) => r,
                None => default_book_record(title.clone(), author.clone()),
            };
            let progress_changed = record.last_chapter != chapter_index || record.last_page
                != page_index || scroll.changed || !same_text(&record.title, &title) || !same_text(
                &record.author,
                &author,
            );
            if inserted || progress_changed || last_opened_changed {
                record.last_chapter = chapter_index;
                record.last_page = page_index;
                if let Some(bits) = scroll.next_bits {
                    record.last_scroll_top_bits = bits;
                }
                record.title = title;
                record.author = author;
                put_record(state, file_path.clone(), record);
                state.last_opened = Some(file_path);
                changed = true;
            }
        },
        _ => {},
    }
    changed
}

// ---------------------------------------------------------------------------
// Laws
// ---------------------------------------------------------------------------

/// After recording a reading position, the book is the last opened one and
/// its record holds the position, title and author given; its annotations
/// and scroll position are those it had (none for a new record); other books
/// and the preferences are untouched; and a change is reported exactly when
/// the state differs from before.
pub proof fn law_progress_update_records(
    s: AppStateView,
    path: Seq<char>,
    chapter_index: usize,
    page_index: usize,
    title: Seq<char>,
    author: Seq<char>,
)
    ensures
        ({
            let (after, changed) = progress_update(s, path, chapter_index, page_index, title, author);
            let r = after.books[path];
            &&& after.last_opened == Some(path)
            &&& after.books.contains_key(path)
            &&& r.last_chapter == chapter_index && r.last_page == page_index
            &&& r.title == title && r.author == author
            &&& s.books.contains_key(path) ==> r.bookmarks == s.books[path].bookmarks
                && r.highlights == s.books[path].highlights && r.quotes == s.books[path].quotes
                && r.last_scroll_top_bits == s.books[path].last_scroll_top_bits
            &&& !s.books.contains_key(path) ==> r.bookmarks.len() == 0 && r.highlights.len() == 0
                && r.quotes.len() == 0 && r.last_scroll_top_bits == 0
            &&& after.books.dom() == s.books.dom().insert(path)
            &&& forall|other: Seq<char>| other != path && s.books.contains_key(other) ==> #[trigger] after.books[other] == s.books[other]
            &&& after.preferences == s.preferences
            &&& changed <==> after != s
        }),
{
    let (after, changed) = progress_update(s, path, chapter_index, page_index, title, author);
    assert(after.books.dom() =~= s.books.dom().insert(path));
    if changed {
        if !s.books.contains_key(path) {
            assert(!s.books.dom().contains(path) && after.books.dom().contains(path));
        } else if s.last_opened != Some(path) {
        } else {
            assert(after.books[path] != s.books[path]);
        }
    }
}

/// After a session snapshot the reading mode is "scroll" when that was asked
/// for and "paginated" otherwise. When the position is complete, the book is
/// the last opened one and its record holds the position, title and author
/// given, and the new scroll position when one was given; other books are
/// untouched. A change is reported exactly when the state differs from before.
pub proof fn law_session_update_records(
    s: AppStateView,
    reader_mode: Seq<char>,
    file_path: Option<Seq<char>>,
    chapter_index: Option<usize>,
    page_index: Option<usize>,
    scroll: ScrollUpdate,
    title: Option<Seq<char>>,
    author: Option<Seq<char>>,
)
    ensures
        ({
            let (after, changed) = session_update(s, reader_mode, file_path, chapter_index, page_index, scroll, title, author);
            &&& after.preferences.reader_mode == Some(if reader_mode == "scroll"@ { "scroll"@ } else { "paginated"@ })
            &&& after.preferences == UserPreferencesView { reader_mode: after.preferences.reader_mode, ..s.preferences }
            &&& (file_path is Some && chapter_index is Some && page_index is Some && title is Some && author is Some) ==> {
                let path = file_path->0;
                let r = after.books[path];
                &&& after.last_opened == Some(path)
                &&& after.books.contains_key(path)
                &&& r.last_chapter == chapter_index->0 && r.last_page == page_index->0
                &&& r.title == title->0 && r.author == author->0
                &&& (scroll.next_bits is Some && scroll.changed) ==> r.last_scroll_top_bits == scroll.next_bits->0
                &&& s.books.contains_key(path) ==> r.bookmarks == s.books[path].bookmarks
                    && r.highlights == s.books[path].highlights && r.quotes == s.books[path].quotes
                &&& after.books.dom() == s.books.dom().insert(path)
                &&& forall|other: Seq<char>| other != path && s.books.contains_key(other) ==> #[trigger] after.books[other] == s.books[other]
            }
            &&& !(file_path is Some && chapter_index is Some && page_index is Some && title is Some && author is Some)
                ==> after.books == s.books && after.last_opened == s.last_opened
            &&& (changed && !scroll.changed) ==> after != s
            &&& !changed ==> after == s
        }),
{
    let (after, changed) = session_update(s, reader_mode, file_path, chapter_index, page_index, scroll, title, author);
    if file_path is Some && chapter_index is Some && page_index is Some && title is Some && author is Some {
        assert(after.books.dom() =~= s.books.dom().insert(file_path->0));
    }
    if changed && !scroll.changed && after == s {
        let next_mode = reader_mode_for(reader_mode);
        assert(s.preferences.reader_mode == Some(next_mode)) by {
            assert(after.preferences.reader_mode == s.preferences.reader_mode);
        }
        if file_path is Some && chapter_index is Some && page_index is Some && title is Some && author is Some {
            let path = file_path->0;
            assert(after.books.dom().contains(path));
            assert(s.books.contains_key(path));
            assert(after.books[path] == s.books[path]);
        }
    }
}

/// Recording the same reading position a second time changes nothing.
pub proof fn law_progress_update_idempotent(
    s: AppStateView,
    path: Seq<char>,
    chapter_index: usize,
    page_index: usize,
    title: Seq<char>,
    author: Seq<char>,
)
    ensures
        ({
            let once = progress_update(s, path, chapter_index, page_index, title, author).0;
            progress_update(once, path, chapter_index, page_index, title, author) == (once, false)
        }),
{
}

/// Saving the same session snapshot a second time changes nothing, when the
/// second snapshot's scroll position is found unchanged.
pub proof fn law_session_update_idempotent(
    s: AppStateView,
    reader_mode: Seq<char>,
    file_path: Option<Seq<char>>,
    chapter_index: Option<usize>,
    page_index: Option<usize>,
    scroll: ScrollUpdate,
    again: ScrollUpdate,
    title: Option<Seq<char>>,
    author: Option<Seq<char>>,
)
    requires
        !again.changed,
    ensures
        ({
            let once = session_update(s, reader_mode, file_path, chapter_index, page_index, scroll, title, author).0;
            session_update(once, reader_mode, file_path, chapter_index, page_index, again, title, author) == (once, false)
        }),
{
}

} // verus!
