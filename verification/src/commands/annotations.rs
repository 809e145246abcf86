//! Bookmarks, highlights and quotes.
//!
//! Each command changes the state in memory and reports whether anything
//! changed; the caller saves the state file when it did.
use vstd::prelude::*;

use crate::state::{
    bookmark_views, default_book_record,
    get_record, highlight_views, put_record, quote_views, record_or_new, AppState,
    AppStateView, Bookmark, BookmarkView, BookRecordView, Highlight, HighlightView, Quote,
    QuoteView,
};
use crate::text::{chars_eq, to_chars};

verus! {

/// The message of a command on a book the state does not know.
pub open spec fn book_not_found_message() -> Seq<char> {
    "Book not found in state"@
}

fn book_not_found() -> (res: String)
    ensures
        res@ == book_not_found_message(),
{
    "Book not found in state".to_string()
}

// ---------------------------------------------------------------------------
// Bookmarks
// ---------------------------------------------------------------------------

/// The first bookmark of the page `chapter_index`/`page_index`.
pub open spec fn bookmark_pos(bms: Seq<BookmarkView>, chapter_index: usize, page_index: usize) -> Option<int>
    decreases bms.len(),
{
    if bms.len() == 0 {
        None
    } else {
        match bookmark_pos(bms.drop_last(), chapter_index, page_index) {
            Some(i) => Some(i),
            None => if bms.last().chapter_index == chapter_index && bms.last().page_index == page_index {
                Some(bms.len() - 1)
            } else {
                None
            },
        }
    }
}

/// The bookmarks after toggling the page, and whether a bookmark was added:
/// the page's first bookmark is removed if there is one, else an unlabelled
/// bookmark is appended.
pub open spec fn toggled(bms: Seq<BookmarkView>, chapter_index: usize, page_index: usize) -> (Seq<BookmarkView>, bool) {
    match bookmark_pos(bms, chapter_index, page_index) {
        Some(i) => (bms.remove(i), false),
        None => (bms.push(BookmarkView { chapter_index, page_index, label: None }), true),
    }
}

proof fn lemma_bookmark_pos(bms: Seq<BookmarkView>, c: usize, p: usize)
    ensures
        bookmark_pos(bms, c, p) matches Some(i) ==> 0 <= i < bms.len() && bms[i].chapter_index == c && bms[i].page_index == p,
        bookmark_pos(bms, c, p) is None ==> forall|i: int| 0 <= i < bms.len() ==> !(#[trigger] bms[i].chapter_index == c && bms[i].page_index == p),
    decreases bms.len(),
{
    if bms.len() > 0 {
        lemma_bookmark_pos(bms.drop_last(), c, p);
        assert forall|i: int| 0 <= i < bms.len() - 1 implies bms[i] == bms.drop_last()[i] by {}
    }
}

/// Where the page's first bookmark is.
fn find_bookmark(bms: &Vec<Bookmark>, chapter_index: usize, page_index: usize) -> (res: Option<usize>)
    ensures
        match res {
            Some(i) => bookmark_pos(bookmark_views(bms@), chapter_index, page_index) == Some(i as int),
            None => bookmark_pos(bookmark_views(bms@), chapter_index, page_index) is None,
        },
        res matches Some(i) ==> i < bms@.len(),
{
    let ghost bv = bookmark_views(bms@);
    let mut i: usize = 0;
    assert(bv.take(0) =~= Seq::<BookmarkView>::empty());
    while i < bms.len()
        invariant
            i <= bms@.len(),
            bv == bookmark_views(bms@),
            bookmark_pos(bv.take(i as int), chapter_index, page_index) is None,
        decreases bms@.len() - i,
    {
        assert(bv.take(i + 1).drop_last() =~= bv.take(i as int));
        if bms[i].chapter_index == chapter_index && bms[i].page_index == page_index {
            proof {
                lemma_pos_prefix(bv, chapter_index, page_index, (i + 1) as int);
            }
            return Some(i);
        }
        i = i + 1;
    }
    assert(bv.take(i as int) =~= bv);
    None
}

proof fn lemma_pos_prefix(bms: Seq<BookmarkView>, c: usize, p: usize, k: int)
    requires
        0 <= k <= bms.len(),
        bookmark_pos(bms.take(k), c, p) is Some,
    ensures
        bookmark_pos(bms, c, p) == bookmark_pos(bms.take(k), c, p),
    decreases bms.len() - k,
{
    if k < bms.len() {
        assert(bms.take(k + 1).drop_last() =~= bms.take(k));
        lemma_pos_prefix(bms, c, p, k + 1);
    } else {
        assert(bms.take(k) =~= bms);
    }
}

/// Places or removes a bookmark on a page of a book, creating the book's
/// record when there is none. Returns whether a bookmark was added.
pub fn toggle_bookmark(state: &mut AppState, file_path: String, chapter_index: usize, page_index: usize) -> (added: bool)
    requires
        old(state).wf(),
    ensures
        final(state).wf(),
        (final(state)@, added) == toggle_state(old(state)@, file_path@, chapter_index, page_index),
{
    let mut record = match get_record(state, file_path.as_str()) {
        Some(r) => r,
        None => {
            let r = default_book_record(String::new(), String::new());
            r
        },
    };
    let ghost before = bookmark_views(record.bookmarks@);
    let added = match find_bookmark(&record.bookmarks, chapter_index, page_index) {
        Some(idx) => {
            record.bookmarks.remove(idx);
            assert(bookmark_views(record.bookmarks@) =~= before.remove(idx as int));
            false
        },
        None => {
            record.bookmarks.push(Bookmark { chapter_index, page_index, label: None });
            assert(bookmark_views(record.bookmarks@) =~= before.push(BookmarkView { chapter_index, page_index, label: None }));
            true
        },
    };
    put_record(state, file_path, record);
    added
}

/// The bookmarks of a book, or none for a book the state does not know.
pub fn get_bookmarks(state: &AppState, file_path: String) -> (res: Vec<Bookmark>)
    ensures
        bookmark_views(res@) == (if state@.books.contains_key(file_path@) {
            state@.books[file_path@].bookmarks
        } else {
            Seq::empty()
        }),
{
    match get_record(state, file_path.as_str()) {
        Some(r) => r.bookmarks,
        None => {
            let v: Vec<Bookmark> = Vec::new();
            assert(bookmark_views(v@) =~= Seq::<BookmarkView>::empty());
            v
        },
    }
}

// ---------------------------------------------------------------------------
// Highlights
// ---------------------------------------------------------------------------

/// The highlights that do not span exactly `start..end` of the chapter.
pub open spec fn without_highlight(hs: Seq<HighlightView>, chapter_index: usize, start: usize, end: usize) -> Seq<HighlightView>
    decreases hs.len(),
{
    if hs.len() == 0 {
        Seq::empty()
    } else {
        let rest = without_highlight(hs.drop_last(), chapter_index, start, end);
        let h = hs.last();
        if h.chapter_index == chapter_index && h.start_offset == start && h.end_offset == end {
            rest
        } else {
            rest.push(h)
        }
    }
}

proof fn lemma_without_highlight_len(hs: Seq<HighlightView>, c: usize, s: usize, e: usize)
    ensures
        without_highlight(hs, c, s, e).len() <= hs.len(),
        without_highlight(hs, c, s, e).len() == hs.len() ==> without_highlight(hs, c, s, e) == hs,
    decreases hs.len(),
{
    if hs.len() > 0 {
        lemma_without_highlight_len(hs.drop_last(), c, s, e);
        let rest = without_highlight(hs.drop_last(), c, s, e);
        if without_highlight(hs, c, s, e).len() == hs.len() {
            assert(rest.len() == hs.len() - 1);
            assert(hs =~= hs.drop_last().push(hs.last()));
        }
    }
}

/// Highlights a span of a chapter of a known book.
pub fn add_highlight(
    state: &mut AppState,
    file_path: String,
    chapter_index: usize,
    start_offset: usize,
    end_offset: usize,
    color: String,
    note: Option<String>,
) -> (res: Result<(), String>)
    requires
        old(state).wf(),
    ensures
        final(state).wf(),
        match res {
            Err(m) => m@ == book_not_found_message() && !old(state)@.books.contains_key(file_path@) && final(state)@ == old(state)@,
            Ok(()) => old(state)@.books.contains_key(file_path@) && ({
                let r = old(state)@.books[file_path@];
                final(state)@ == (AppStateView {
                    books: old(state)@.books.insert(file_path@, BookRecordView {
                        highlights: r.highlights.push(HighlightView {
                            chapter_index,
                            start_offset,
                            end_offset,
                            color: color@,
                            note: crate::state::opt_view(note),
                        }),
                        ..r
                    }),
                    ..old(state)@
                })
            }),
        },
{
    let mut record = match get_record(state, file_path.as_str()) {
        Some(r) => r,
        None => return Err(book_not_found()),
    };
    let ghost before = highlight_views(record.highlights@);
    let h = Highlight { chapter_index, start_offset, end_offset, color, note };
    let ghost hv = h@;
    record.highlights.push(h);
    assert(highlight_views(record.highlights@) =~= before.push(hv));
    put_record(state, file_path, record);
    Ok(())
}

/// Removes the highlights of a book that span exactly `start..end` of the
/// chapter. Returns whether any was removed.
pub fn remove_highlight(
    state: &mut AppState,
    file_path: String,
    chapter_index: usize,
    start_offset: usize,
    end_offset: usize,
) -> (res: Result<bool, String>)
    requires
        old(state).wf(),
    ensures
        final(state).wf(),
        match res {
            Err(m) => m@ == book_not_found_message() && !old(state)@.books.contains_key(file_path@) && final(state)@ == old(state)@,
            Ok(changed) => old(state)@.books.contains_key(file_path@) && ({
                let r = old(state)@.books[file_path@];
                let hs = without_highlight(r.highlights, chapter_index, start_offset, end_offset);
                &&& changed == (hs.len() != r.highlights.len())
                &&& final(state)@ == (AppStateView {
                    books: old(state)@.books.insert(file_path@, BookRecordView { highlights: hs, ..r }),
                    ..old(state)@
                })
            }),
        },
{
    let mut record = match get_record(state, file_path.as_str()) {
        Some(r) => r,
        None => return Err(book_not_found()),
    };
    let ghost hv = highlight_views(record.highlights@);
    let len_before = record.highlights.len();
    let mut kept: Vec<Highlight> = Vec::new();
    let mut i: usize = 0;
    assert(hv.take(0) =~= Seq::<HighlightView>::empty());
    while i < record.highlights.len()
        invariant
            i <= record.highlights@.len(),
            hv == highlight_views(record.highlights@),
            highlight_views(kept@) == without_highlight(hv.take(i as int), chapter_index, start_offset, end_offset),
        decreases record.highlights@.len() - i,
    {
        let h = &record.highlights[i];
        assert(hv.take(i + 1).drop_last() =~= hv.take(i as int));
        assert(hv.take(i + 1).last() == h@);
        if !(h.chapter_index == chapter_index && h.start_offset == start_offset && h.end_offset == end_offset) {
            let ghost prev = kept@;
            let c = h.clone();
            kept.push(c);
            assert(highlight_views(kept@) =~= highlight_views(prev).push(h@));
        }
        i = i + 1;
    }
    assert(hv.take(i as int) =~= hv);
    proof {
        lemma_without_highlight_len(hv, chapter_index, start_offset, end_offset);
    }
    let changed = kept.len() != len_before;
    record.highlights = kept;
    put_record(state, file_path, record);
    Ok(changed)
}

/// The highlights of a book, or none for a book the state does not know.
pub fn get_highlights(state: &AppState, file_path: String) -> (res: Vec<Highlight>)
    ensures
        highlight_views(res@) == (if state@.books.contains_key(file_path@) {
            state@.books[file_path@].highlights
        } else {
            Seq::empty()
        }),
{
    match get_record(state, file_path.as_str()) {
        Some(r) => r.highlights,
        None => {
            let v: Vec<Highlight> = Vec::new();
            assert(highlight_views(v@) =~= Seq::<HighlightView>::empty());
            v
        },
    }
}

// ---------------------------------------------------------------------------
// Quotes
// ---------------------------------------------------------------------------

/// The quotes whose id is not `id`.
pub open spec fn without_quote(qs: Seq<QuoteView>, id: Seq<char>) -> Seq<QuoteView>
    decreases qs.len(),
{
    if qs.len() == 0 {
        Seq::empty()
    } else {
        let rest = without_quote(qs.drop_last(), id);
        if qs.last().id == id {
            rest
        } else {
            rest.push(qs.last())
        }
    }
}

proof fn lemma_without_quote_len(qs: Seq<QuoteView>, id: Seq<char>)
    ensures
        without_quote(qs, id).len() <= qs.len(),
        without_quote(qs, id).len() == qs.len() ==> without_quote(qs, id) == qs,
    decreases qs.len(),
{
    if qs.len() > 0 {
        lemma_without_quote_len(qs.drop_last(), id);
        if without_quote(qs, id).len() == qs.len() {
            assert(qs =~= qs.drop_last().push(qs.last()));
        }
    }
}

/// Saves a quote from a chapter of a known book.
pub fn add_quote(
    state: &mut AppState,
    file_path: String,
    chapter_index: usize,
    text: String,
    note: Option<String>,
    id: String,
) -> (res: Result<(), String>)
    requires
        old(state).wf(),
    ensures
        final(state).wf(),
        match res {
            Err(m) => m@ == book_not_found_message() && !old(state)@.books.contains_key(file_path@) && final(state)@ == old(state)@,
            Ok(()) => old(state)@.books.contains_key(file_path@) && ({
                let r = old(state)@.books[file_path@];
                final(state)@ == (AppStateView {
                    books: old(state)@.books.insert(file_path@, BookRecordView {
                        quotes: r.quotes.push(QuoteView {
                            id: id@,
                            chapter_index,
                            text: text@,
                            note: crate::state::opt_view(note),
                        }),
                        ..r
                    }),
                    ..old(state)@
                })
            }),
        },
{
    let mut record = match get_record(state, file_path.as_str()) {
        Some(r) => r,
        None => return Err(book_not_found()),
    };
    let ghost before = quote_views(record.quotes@);
    let q = Quote { id, chapter_index, text, note };
    let ghost qv = q@;
    record.quotes.push(q);
    assert(quote_views(record.quotes@) =~= before.push(qv));
    put_record(state, file_path, record);
    Ok(())
}

/// Removes the quotes of a book that carry the id. Returns whether any was removed.
pub fn remove_quote(state: &mut AppState, file_path: String, quote_id: String) -> (res: Result<bool, String>)
    requires
        old(state).wf(),
    ensures
        final(state).wf(),
        match res {
            Err(m) => m@ == book_not_found_message() && !old(state)@.books.contains_key(file_path@) && final(state)@ == old(state)@,
            Ok(changed) => old(state)@.books.contains_key(file_path@) && ({
                let r = old(state)@.books[file_path@];
                let qs = without_quote(r.quotes, quote_id@);
                &&& changed == (qs.len() != r.quotes.len())
                &&& final(state)@ == (AppStateView {
                    books: old(state)@.books.insert(file_path@, BookRecordView { quotes: qs, ..r }),
                    ..old(state)@
                })
            }),
        },
{
    let mut record = match get_record(state, file_path.as_str()) {
        Some(r) => r,
        None => return Err(book_not_found()),
    };
    let ghost qv = quote_views(record.quotes@);
    let target = to_chars(quote_id.as_str());
    let len_before = record.quotes.len();
    let mut kept: Vec<Quote> = Vec::new();
    let mut i: usize = 0;
    assert(qv.take(0) =~= Seq::<QuoteView>::empty());
    while i < record.quotes.len()
        invariant
            i <= record.quotes@.len(),
            qv == quote_views(record.quotes@),
            target@ == quote_id@,
            quote_views(kept@) == without_quote(qv.take(i as int), quote_id@),
        decreases record.quotes@.len() - i,
    {
        let q = &record.quotes[i];
        assert(qv.take(i + 1).drop_last() =~= qv.take(i as int));
        assert(qv.take(i + 1).last() == q@);
        if !chars_eq(to_chars(q.id.as_str()).as_slice(), target.as_slice()) {
            let ghost prev = kept@;
            let c = q.clone();
            kept.push(c);
            assert(quote_views(kept@) =~= quote_views(prev).push(q@));
        }
        i = i + 1;
    }
    assert(qv.take(i as int) =~= qv);
    proof {
        lemma_without_quote_len(qv, quote_id@);
    }
    let changed = kept.len() != len_before;
    record.quotes = kept;
    put_record(state, file_path, record);
    Ok(changed)
}

/// The quotes of a book, or none for a book the state does not know.
pub fn get_quotes(state: &AppState, file_path: String) -> (res: Vec<Quote>)
    ensures
        quote_views(res@) == (if state@.books.contains_key(file_path@) {
            state@.books[file_path@].quotes
        } else {
            Seq::empty()
        }),
{
    match get_record(state, file_path.as_str()) {
        Some(r) => r.quotes,
        None => {
            let v: Vec<Quote> = Vec::new();
            assert(quote_views(v@) =~= Seq::<QuoteView>::empty());
            v
        },
    }
}

// ---------------------------------------------------------------------------
// Laws
// ---------------------------------------------------------------------------

/// No two bookmarks mark the same page.
pub open spec fn distinct_pages(bms: Seq<BookmarkView>) -> bool {
    forall|i: int, j: int|
        0 <= i < j < bms.len() ==> !(#[trigger] bms[i].chapter_index == #[trigger] bms[j].chapter_index
            && bms[i].page_index == bms[j].page_index)
}

/// Toggling a page that has no bookmark adds one; toggling it again removes
/// that bookmark and gives back the bookmarks as they were.
pub proof fn law_toggle_twice_restores(bms: Seq<BookmarkView>, chapter_index: usize, page_index: usize)
    requires
        bookmark_pos(bms, chapter_index, page_index) is None,
    ensures
        toggled(bms, chapter_index, page_index).1,
        !toggled(toggled(bms, chapter_index, page_index).0, chapter_index, page_index).1,
        toggled(toggled(bms, chapter_index, page_index).0, chapter_index, page_index).0 == bms,
{
    let b = BookmarkView { chapter_index, page_index, label: None };
    let once = bms.push(b);
    assert(once.drop_last() =~= bms);
    assert(bookmark_pos(once, chapter_index, page_index) == Some(bms.len() as int));
    assert(once.remove(bms.len() as int) =~= bms);
}

/// The state after toggling a page's bookmark, and whether one was added, as
/// `toggle_bookmark` states it.
pub open spec fn toggle_state(s: AppStateView, path: Seq<char>, chapter_index: usize, page_index: usize) -> (AppStateView, bool) {
    let r = record_or_new(s, path, Seq::empty(), Seq::empty());
    let (bms, a) = toggled(r.bookmarks, chapter_index, page_index);
    (AppStateView { books: s.books.insert(path, BookRecordView { bookmarks: bms, ..r }), ..s }, a)
}

/// Toggling the bookmark of an unmarked page of a known book twice gives
/// back the state as it was: the first toggle adds, the second removes.
pub proof fn law_toggle_twice_restores_state(s: AppStateView, path: Seq<char>, chapter_index: usize, page_index: usize)
    requires
        s.books.contains_key(path),
        bookmark_pos(s.books[path].bookmarks, chapter_index, page_index) is None,
    ensures
        toggle_state(s, path, chapter_index, page_index).1,
        toggle_state(toggle_state(s, path, chapter_index, page_index).0, path, chapter_index, page_index) == (s, false),
{
    let r = s.books[path];
    law_toggle_twice_restores(r.bookmarks, chapter_index, page_index);
    let s1 = toggle_state(s, path, chapter_index, page_index).0;
    let r1 = s1.books[path];
    assert(s1.books.insert(path, BookRecordView { bookmarks: r.bookmarks, ..r1 }) =~= s.books);
}

/// Toggling keeps the pages of the bookmarks distinct, and afterwards the
/// page carries a bookmark exactly when the toggle reported one added.
pub proof fn law_toggle_keeps_pages_distinct(bms: Seq<BookmarkView>, chapter_index: usize, page_index: usize)
    requires
        distinct_pages(bms),
    ensures
        distinct_pages(toggled(bms, chapter_index, page_index).0),
        (bookmark_pos(toggled(bms, chapter_index, page_index).0, chapter_index, page_index) is Some)
            == toggled(bms, chapter_index, page_index).1,
{
    lemma_bookmark_pos(bms, chapter_index, page_index);
    let (after, added) = toggled(bms, chapter_index, page_index);
    lemma_bookmark_pos(after, chapter_index, page_index);
    match bookmark_pos(bms, chapter_index, page_index) {
        Some(i) => {
            assert forall|x: int, y: int| 0 <= x < y < after.len() implies !(#[trigger] after[x].chapter_index
                == #[trigger] after[y].chapter_index && after[x].page_index == after[y].page_index) by {
                let bx = if x < i { x } else { x + 1 };
                let by_ = if y < i { y } else { y + 1 };
                assert(after[x] == bms[bx] && after[y] == bms[by_]);
            }
            if bookmark_pos(after, chapter_index, page_index) is Some {
                let k = bookmark_pos(after, chapter_index, page_index)->0;
                let bk = if k < i { k } else { k + 1 };
                assert(after[k] == bms[bk]);
                if bk < i {
                    assert(bms[bk].chapter_index == bms[i].chapter_index);
                } else {
                    assert(bms[i].chapter_index == bms[bk].chapter_index);
                }
            }
        },
        None => {
            let b = BookmarkView { chapter_index, page_index, label: None };
            assert(after.drop_last() =~= bms);
            assert forall|x: int, y: int| 0 <= x < y < after.len() implies !(#[trigger] after[x].chapter_index
                == #[trigger] after[y].chapter_index && after[x].page_index == after[y].page_index) by {
                if y == bms.len() {
                    assert(after[x] == bms[x]);
                } else {
                    assert(after[x] == bms[x] && after[y] == bms[y]);
                }
            }
        },
    }
}

/// The pages that carry a bookmark, as (chapter, page) pairs.
pub open spec fn bookmarked_pages(bms: Seq<BookmarkView>) -> Set<(usize, usize)> {
    Set::new(|pg: (usize, usize)| exists|k: int| 0 <= k < bms.len() && #[trigger] bms[k].chapter_index == pg.0 && bms[k].page_index == pg.1)
}

/// Toggling a bookmarked page twice removes its bookmark and then adds it
/// back at the end, unlabelled: the other bookmarks keep their order.
pub proof fn law_toggle_twice_marked(bms: Seq<BookmarkView>, chapter_index: usize, page_index: usize)
    requires
        bookmark_pos(bms, chapter_index, page_index) is Some,
    ensures
        !toggled(bms, chapter_index, page_index).1,
        distinct_pages(bms) ==> toggled(toggled(bms, chapter_index, page_index).0, chapter_index, page_index) == (
            bms.remove(bookmark_pos(bms, chapter_index, page_index)->0).push(
                BookmarkView { chapter_index, page_index, label: None },
            ),
            true,
        ),
{
    if distinct_pages(bms) {
        law_toggle_keeps_pages_distinct(bms, chapter_index, page_index);
    }
}

/// With at most one bookmark per page, two toggles of a page report opposite
/// outcomes and leave the same pages bookmarked, still one bookmark per page.
pub proof fn law_toggle_twice_same_pages(bms: Seq<BookmarkView>, chapter_index: usize, page_index: usize)
    requires
        distinct_pages(bms),
    ensures
        ({
            let (once, first) = toggled(bms, chapter_index, page_index);
            let (twice, second) = toggled(once, chapter_index, page_index);
            &&& second == !first
            &&& distinct_pages(twice)
            &&& bookmarked_pages(twice) == bookmarked_pages(bms)
        }),
{
    let (once, first) = toggled(bms, chapter_index, page_index);
    law_toggle_keeps_pages_distinct(bms, chapter_index, page_index);
    law_toggle_keeps_pages_distinct(once, chapter_index, page_index);
    lemma_bookmark_pos(bms, chapter_index, page_index);
    if first {
        law_toggle_twice_restores(bms, chapter_index, page_index);
    } else {
        let i = bookmark_pos(bms, chapter_index, page_index)->0;
        law_toggle_twice_marked(bms, chapter_index, page_index);
        let b = BookmarkView { chapter_index, page_index, label: None };
        let twice = once.push(b);
        assert(once == bms.remove(i));
        assert forall|pg: (usize, usize)| bookmarked_pages(twice).contains(pg) <==> bookmarked_pages(bms).contains(pg) by {
            if bookmarked_pages(twice).contains(pg) {
                let k = choose|k: int| 0 <= k < twice.len() && #[trigger] twice[k].chapter_index == pg.0 && twice[k].page_index == pg.1;
                if k == once.len() {
                    assert(bms[i].chapter_index == pg.0 && bms[i].page_index == pg.1);
                } else {
                    let bk = if k < i { k } else { k + 1 };
                    assert(twice[k] == bms[bk]);
                    assert(bms[bk].chapter_index == pg.0 && bms[bk].page_index == pg.1);
                }
            }
            if bookmarked_pages(bms).contains(pg) {
                let k = choose|k: int| 0 <= k < bms.len() && #[trigger] bms[k].chapter_index == pg.0 && bms[k].page_index == pg.1;
                if k == i {
                    assert(twice[once.len() as int] == b);
                    assert(twice[once.len() as int].chapter_index == pg.0 && twice[once.len() as int].page_index == pg.1);
                } else {
                    let tk = if k < i { k } else { k - 1 };
                    assert(twice[tk] == bms[k]);
                    assert(twice[tk].chapter_index == pg.0 && twice[tk].page_index == pg.1);
                }
            }
        }
        assert(bookmarked_pages(twice) =~= bookmarked_pages(bms));
    }
}

/// On a known book whose bookmarks mark each page at most once, two toggles
/// of a page report opposite outcomes and leave the same pages bookmarked,
/// one bookmark each; nothing else in the state changes.
pub proof fn law_toggle_twice_state_pages(s: AppStateView, path: Seq<char>, chapter_index: usize, page_index: usize)
    requires
        s.books.contains_key(path),
        distinct_pages(s.books[path].bookmarks),
    ensures
        ({
            let (s1, first) = toggle_state(s, path, chapter_index, page_index);
            let (s2, second) = toggle_state(s1, path, chapter_index, page_index);
            &&& second == !first
            &&& s2.books.dom() == s.books.dom()
            &&& distinct_pages(s2.books[path].bookmarks)
            &&& bookmarked_pages(s2.books[path].bookmarks) == bookmarked_pages(s.books[path].bookmarks)
            &&& s2.books[path] == BookRecordView { bookmarks: s2.books[path].bookmarks, ..s.books[path] }
            &&& forall|other: Seq<char>| other != path && s.books.contains_key(other) ==> #[trigger] s2.books[other] == s.books[other]
            &&& s2.last_opened == s.last_opened
            &&& s2.preferences == s.preferences
        }),
{
    law_toggle_twice_same_pages(s.books[path].bookmarks, chapter_index, page_index);
    let s1 = toggle_state(s, path, chapter_index, page_index).0;
    let s2 = toggle_state(s1, path, chapter_index, page_index).0;
    assert(s2.books.dom() =~= s.books.dom());
}

/// Whether a highlight spans exactly `start..end` of the chapter.
pub open spec fn spans(h: HighlightView, chapter_index: usize, start: usize, end: usize) -> bool {
    h.chapter_index == chapter_index && h.start_offset == start && h.end_offset == end
}

proof fn lemma_without_highlight_none(hs: Seq<HighlightView>, c: usize, s: usize, e: usize)
    requires
        forall|i: int| 0 <= i < hs.len() ==> !spans(#[trigger] hs[i], c, s, e),
    ensures
        without_highlight(hs, c, s, e) == hs,
    decreases hs.len(),
{
    if hs.len() > 0 {
        lemma_without_highlight_none(hs.drop_last(), c, s, e);
        assert(hs.last() == hs[hs.len() - 1]);
        assert(hs =~= hs.drop_last().push(hs.last()));
    }
}

/// After removing the highlights of a span, none of that span remains.
pub proof fn law_removed_highlight_gone(hs: Seq<HighlightView>, chapter_index: usize, start: usize, end: usize)
    ensures
        forall|i: int| 0 <= i < without_highlight(hs, chapter_index, start, end).len()
            ==> !spans(#[trigger] without_highlight(hs, chapter_index, start, end)[i], chapter_index, start, end),
    decreases hs.len(),
{
    if hs.len() > 0 {
        law_removed_highlight_gone(hs.drop_last(), chapter_index, start, end);
        let rest = without_highlight(hs.drop_last(), chapter_index, start, end);
        let all = without_highlight(hs, chapter_index, start, end);
        assert forall|i: int| 0 <= i < all.len() implies !spans(#[trigger] all[i], chapter_index, start, end) by {
            if i < rest.len() {
                assert(all[i] == rest[i]);
            }
        }
    }
}

/// Highlighting a span that carries no highlight and then removing the
/// highlights of that span gives back the state as it was.
pub proof fn law_add_then_remove_highlight(s: AppStateView, path: Seq<char>, h: HighlightView)
    requires
        s.books.contains_key(path),
        forall|i: int| 0 <= i < s.books[path].highlights.len()
            ==> !spans(#[trigger] s.books[path].highlights[i], h.chapter_index, h.start_offset, h.end_offset),
    ensures
        ({
            let r = s.books[path];
            let s1 = AppStateView {
                books: s.books.insert(path, BookRecordView { highlights: r.highlights.push(h), ..r }),
                ..s
            };
            let r1 = s1.books[path];
            AppStateView {
                books: s1.books.insert(path, BookRecordView {
                    highlights: without_highlight(r1.highlights, h.chapter_index, h.start_offset, h.end_offset),
                    ..r1
                }),
                ..s1
            }
        }) == s,
{
    let r = s.books[path];
    let hs = r.highlights;
    let pushed = hs.push(h);
    assert(pushed.drop_last() =~= hs);
    lemma_without_highlight_none(hs, h.chapter_index, h.start_offset, h.end_offset);
    assert(without_highlight(pushed, h.chapter_index, h.start_offset, h.end_offset) == hs);
    let s1 = AppStateView { books: s.books.insert(path, BookRecordView { highlights: pushed, ..r }), ..s };
    assert(s1.books.insert(path, BookRecordView { highlights: hs, ..s1.books[path] }) =~= s.books);
}

/// Whether no quote carries the id.
pub open spec fn no_quote_with_id(qs: Seq<QuoteView>, id: Seq<char>) -> bool {
    forall|i: int| 0 <= i < qs.len() ==> (#[trigger] qs[i]).id != id
}

proof fn lemma_without_quote_none(qs: Seq<QuoteView>, id: Seq<char>)
    requires
        no_quote_with_id(qs, id),
    ensures
        without_quote(qs, id) == qs,
    decreases qs.len(),
{
    if qs.len() > 0 {
        lemma_without_quote_none(qs.drop_last(), id);
        assert(qs.last() == qs[qs.len() - 1]);
        assert(qs =~= qs.drop_last().push(qs.last()));
    }
}

/// After removing the quotes with an id, none with that id remains.
pub proof fn law_removed_quote_gone(qs: Seq<QuoteView>, id: Seq<char>)
    ensures
        no_quote_with_id(without_quote(qs, id), id),
    decreases qs.len(),
{
    if qs.len() > 0 {
        law_removed_quote_gone(qs.drop_last(), id);
        let rest = without_quote(qs.drop_last(), id);
        let all = without_quote(qs, id);
        assert forall|i: int| 0 <= i < all.len() implies (#[trigger] all[i]).id != id by {
            if i < rest.len() {
                assert(all[i] == rest[i]);
            }
        }
    }
}

/// Saving a quote under an id that no quote of the book carries and then
/// removing the quotes with that id gives back the state as it was.
pub proof fn law_add_then_remove_quote(s: AppStateView, path: Seq<char>, q: QuoteView)
    requires
        s.books.contains_key(path),
        no_quote_with_id(s.books[path].quotes, q.id),
    ensures
        ({
            let r = s.books[path];
            let s1 = AppStateView {
                books: s.books.insert(path, BookRecordView { quotes: r.quotes.push(q), ..r }),
                ..s
            };
            let r1 = s1.books[path];
            AppStateView {
                books: s1.books.insert(path, BookRecordView { quotes: without_quote(r1.quotes, q.id), ..r1 }),
                ..s1
            }
        }) == s,
{
    let r = s.books[path];
    let qs = r.quotes;
    let pushed = qs.push(q);
    assert(pushed.drop_last() =~= qs);
    lemma_without_quote_none(qs, q.id);
    assert(without_quote(pushed, q.id) == qs);
    let s1 = AppStateView { books: s.books.insert(path, BookRecordView { quotes: pushed, ..r }), ..s };
    assert(s1.books.insert(path, BookRecordView { quotes: qs, ..s1.books[path] }) =~= s.books);
}

} // verus!
