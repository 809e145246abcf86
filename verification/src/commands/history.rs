//! The reading history: every book with saved state, and forgetting a book.
use vstd::prelude::*;

use crate::state::{
    books_map, find_book, lemma_last_book, last_book, unique_paths, AppState, AppStateView,
    BookHistoryEntry, BookHistoryEntryView, BookRecord, BookRecordView,
};
use crate::text::{str_lowercase, to_chars, to_lowercase};

verus! {

/// Whether `a` comes before or equals `b` in the order of `String`
/// comparison (lexicographic by code point).
pub open spec fn chars_le(a: Seq<char>, b: Seq<char>) -> bool
    decreases a.len(),
{
    if a.len() == 0 {
        true
    } else if b.len() == 0 {
        false
    } else if a[0] != b[0] {
        (a[0] as u32) < (b[0] as u32)
    } else {
        chars_le(a.drop_first(), b.drop_first())
    }
}

/// Any two sequences are ordered one way or the other.
pub proof fn lemma_chars_le_total(a: Seq<char>, b: Seq<char>)
    ensures
        chars_le(a, b) || chars_le(b, a),
    decreases a.len(),
{
    if a.len() > 0 && b.len() > 0 {
        if a[0] == b[0] {
            lemma_chars_le_total(a.drop_first(), b.drop_first());
        } else {
            vstd::utf8::char_u32_cast(a[0], a[0] as u32);
            vstd::utf8::char_u32_cast(b[0], b[0] as u32);
        }
    }
}

/// The order is transitive.
pub proof fn lemma_chars_le_trans(a: Seq<char>, b: Seq<char>, c: Seq<char>)
    requires
        chars_le(a, b),
        chars_le(b, c),
    ensures
        chars_le(a, c),
    decreases a.len(),
{
    if a.len() > 0 && b.len() > 0 && c.len() > 0 && a[0] == b[0] && b[0] == c[0] {
        lemma_chars_le_trans(a.drop_first(), b.drop_first(), c.drop_first());
    }
}

/// Whether `a` comes before or equals `b`.
fn chars_le_exec(a: &[char], b: &[char]) -> (res: bool)
    ensures
        res == chars_le(a@, b@),
{
    let mut i: usize = 0;
    assert(a@.skip(0) =~= a@);
    assert(b@.skip(0) =~= b@);
    while i < a.len() && i < b.len() && a[i] == b[i]
        invariant
            i <= a@.len(),
            i <= b@.len(),
            chars_le(a@.skip(i as int), b@.skip(i as int)) == chars_le(a@, b@),
        decreases a@.len() - i,
    {
        assert(a@.skip(i as int).drop_first() =~= a@.skip(i + 1));
        assert(b@.skip(i as int).drop_first() =~= b@.skip(i + 1));
        i = i + 1;
    }
    if i == a.len() {
        true
    } else if i == b.len() {
        false
    } else {
        (a[i] as u32) < (b[i] as u32)
    }
}

/// The history line of the book at `path` with record `r`.
pub open spec fn history_entry(path: Seq<char>, r: BookRecordView) -> BookHistoryEntryView {
    BookHistoryEntryView {
        file_path: path,
        title: r.title,
        author: r.author,
        last_chapter: r.last_chapter,
        last_page: r.last_page,
        has_bookmarks: r.bookmarks.len() > 0,
        has_quotes: r.quotes.len() > 0,
    }
}

/// The history lines of the records, in the order they are kept.
pub open spec fn history_entries(b: Seq<(String, BookRecord)>) -> Seq<BookHistoryEntryView> {
    b.map_values(|e: (String, BookRecord)| history_entry(e.0@, e.1@))
}

/// The history lines are in order of their lower-cased titles.
pub open spec fn sorted_by_title(h: Seq<BookHistoryEntryView>) -> bool {
    forall|i: int, j: int|
        0 <= i < j < h.len() ==> chars_le(str_lowercase(#[trigger] h[i].title), str_lowercase(#[trigger] h[j].title))
}

/// The views of a list of history lines.
pub open spec fn entry_views(v: Seq<BookHistoryEntry>) -> Seq<BookHistoryEntryView> {
    v.map_values(|e: BookHistoryEntry| e@)
}

/// Lists every book with saved state, alphabetically by lower-cased title.
pub fn get_book_history(state: &AppState) -> (res: Vec<BookHistoryEntry>)
    ensures
        sorted_by_title(entry_views(res@)),
        entry_views(res@).to_multiset() == history_entries(state.books@).to_multiset(),
        state.wf() ==> forall|i: int| 0 <= i < res@.len() ==> {
            let e = #[trigger] res@[i]@;
            let r = state@.books[e.file_path];
            &&& state@.books.contains_key(e.file_path)
            &&& e.title == r.title && e.author == r.author
            &&& e.last_chapter == r.last_chapter && e.last_page == r.last_page
            &&& e.has_bookmarks == (r.bookmarks.len() > 0) && e.has_quotes == (r.quotes.len() > 0)
        },
{
    let ghost all = history_entries(state.books@);
    let mut sorted: Vec<BookHistoryEntry> = Vec::new();
    let mut keys: Vec<Vec<char>> = Vec::new();
    let mut k: usize = 0;
    broadcast use vstd::seq_lib::group_to_multiset_ensures;
    assert(all.take(0) =~= Seq::<BookHistoryEntryView>::empty());
    while k < state.books.len()
        invariant
            k <= state.books@.len(),
            all == history_entries(state.books@),
            keys@.len() == sorted@.len(),
            forall|i: int| 0 <= i < keys@.len() ==> #[trigger] keys@[i]@ == str_lowercase(sorted@[i]@.title),
            sorted_by_title(entry_views(sorted@)),
            entry_views(sorted@).to_multiset() == all.take(k as int).to_multiset(),
        decreases state.books@.len() - k,
    {
        let (path, record) = (&state.books[k].0, &state.books[k].1);
        let entry = BookHistoryEntry {
            file_path: path.clone(),
            title: record.title.clone(),
            author: record.author.clone(),
            last_chapter: record.last_chapter,
            last_page: record.last_page,
            has_bookmarks: record.bookmarks.len() > 0,
            has_quotes: record.quotes.len() > 0,
        };
        assert(entry@ == all[k as int]);
        let key = to_chars(to_lowercase(entry.title.as_str()).as_str());
        let mut p = sorted.len();
        while p > 0 && !chars_le_exec(keys[p - 1].as_slice(), key.as_slice())
            invariant
                p <= sorted@.len(),
                keys@.len() == sorted@.len(),
                forall|i: int| 0 <= i < keys@.len() ==> #[trigger] keys@[i]@ == str_lowercase(sorted@[i]@.title),
                key@ == str_lowercase(entry@.title),
                forall|q: int| p <= q < sorted@.len() ==> !chars_le(str_lowercase(#[trigger] sorted@[q]@.title), key@),
            decreases p,
        {
            p = p - 1;
        }
        let ghost old_sorted = entry_views(sorted@);
        proof {
            assert forall|q: int| p <= q < old_sorted.len() implies chars_le(key@, str_lowercase(#[trigger] old_sorted[q].title)) by {
                assert(old_sorted[q] == sorted@[q]@);
                lemma_chars_le_total(key@, str_lowercase(old_sorted[q].title));
            }
            if p > 0 {
                assert(old_sorted[p - 1] == sorted@[p - 1]@);
                assert forall|q: int| 0 <= q < p implies chars_le(str_lowercase(#[trigger] old_sorted[q].title), key@) by {
                    if q < p - 1 {
                        lemma_chars_le_trans(str_lowercase(old_sorted[q].title), str_lowercase(old_sorted[p - 1].title), key@);
                    }
                }
            }
        }
        let ghost ev = entry@;
        let ghost old_keys = keys@;
        sorted.insert(p, entry);
        keys.insert(p, key);
        proof {
            let ns = entry_views(sorted@);
            assert(ns =~= old_sorted.insert(p as int, ev));
            assert forall|i: int, j: int| 0 <= i < j < ns.len() implies chars_le(str_lowercase(#[trigger] ns[i].title), str_lowercase(#[trigger] ns[j].title)) by {
                if i < p && j == p {
                } else if i == p {
                } else if j < p {
                    assert(ns[i] == old_sorted[i] && ns[j] == old_sorted[j]);
                } else if i < p {
                    assert(ns[i] == old_sorted[i] && ns[j] == old_sorted[j - 1]);
                    lemma_chars_le_trans(str_lowercase(ns[i].title), key@, str_lowercase(ns[j].title));
                } else {
                    assert(ns[i] == old_sorted[i - 1] && ns[j] == old_sorted[j - 1]);
                }
            }
            assert forall|i: int| 0 <= i < keys@.len() implies #[trigger] keys@[i]@ == str_lowercase(sorted@[i]@.title) by {
                if i < p {
                } else if i > p {
                    assert(keys@[i] == old_keys[i - 1]);
                }
            }
            assert(all.take(k + 1) =~= all.take(k as int).push(ev));
            vstd::seq_lib::to_multiset_insert(old_sorted, p as int, ev);
            vstd::seq_lib::to_multiset_build(all.take(k as int), ev);
            assert(entry_views(sorted@).to_multiset() == all.take(k + 1).to_multiset());
        }
        k = k + 1;
    }
    assert(all.take(k as int) =~= all);
    proof {
        if state.wf() {
            law_history_entry_fields(state.books@);
            assert forall|i: int| 0 <= i < sorted@.len() implies {
                let e = #[trigger] sorted@[i]@;
                let r = state@.books[e.file_path];
                &&& state@.books.contains_key(e.file_path)
                &&& e.title == r.title && e.author == r.author
                &&& e.last_chapter == r.last_chapter && e.last_page == r.last_page
                &&& e.has_bookmarks == (r.bookmarks.len() > 0) && e.has_quotes == (r.quotes.len() > 0)
            } by {
                let ev = entry_views(sorted@);
                assert(ev[i] == sorted@[i]@);
                assert(ev.contains(ev[i]));
                assert(ev.to_multiset().count(ev[i]) > 0);
                assert(all.to_multiset().count(ev[i]) > 0);
                assert(all.contains(ev[i]));
                let j = choose|j: int| 0 <= j < all.len() && all[j] == ev[i];
                assert(history_entries(state.books@)[j] == ev[i]);
            }
        }
    }
    sorted
}

// ---------------------------------------------------------------------------
// Forgetting a book
// ---------------------------------------------------------------------------

/// Removing the record of `path` removes it from the map.
proof fn lemma_books_map_remove(b: Seq<(String, BookRecord)>, i: int)
    requires
        unique_paths(b),
        0 <= i < b.len(),
    ensures
        books_map(b.remove(i)) == books_map(b).remove(b[i].0@),
        unique_paths(b.remove(i)),
    decreases b.len(),
{
    let key = b[i].0@;
    let b2 = b.remove(i);
    if i == b.len() - 1 {
        assert(b2 =~= b.drop_last());
        lemma_last_book(b.drop_last(), key);
        assert(last_book(b.drop_last(), key) is None) by {
            if let Some(j) = last_book(b.drop_last(), key) {
                assert(b[j] == b.drop_last()[j]);
            }
        }
        assert(books_map(b2) =~= books_map(b).remove(key));
    } else {
        assert(unique_paths(b.drop_last())) by {
            assert forall|x: int, y: int| 0 <= x < y < b.drop_last().len() implies (#[trigger] b.drop_last()[x]).0@ != (#[trigger] b.drop_last()[y]).0@ by {
                assert(b.drop_last()[x] == b[x] && b.drop_last()[y] == b[y]);
            }
        }
        lemma_books_map_remove(b.drop_last(), i);
        assert(b2.drop_last() =~= b.drop_last().remove(i));
        assert(b2.last() == b.last());
        assert(b.last().0@ != key);
        assert(books_map(b2) =~= books_map(b).remove(key));
    }
    assert forall|x: int, y: int| 0 <= x < y < b2.len() implies (#[trigger] b2[x]).0@ != (#[trigger] b2[y]).0@ by {
        let ox = if x < i { x } else { x + 1 };
        let oy = if y < i { y } else { y + 1 };
        assert(b2[x] == b[ox] && b2[y] == b[oy]);
    }
}

/// Forgets a book: its record goes, and it stops being the last opened book.
/// Returns whether anything changed.
pub fn delete_book_history(state: &mut AppState, file_path: String) -> (changed: bool)
    requires
        old(state).wf(),
    ensures
        final(state).wf(),
        changed == (old(state)@.books.contains_key(file_path@) || old(state)@.last_opened == Some(file_path@)),
        final(state)@ == (AppStateView {
            books: old(state)@.books.remove(file_path@),
            last_opened: if old(state)@.last_opened == Some(file_path@) {
                None
            } else {
                old(state)@.last_opened
            },
            ..old(state)@
        }),
{
    let ghost b = state.books@;
    proof {
        lemma_last_book(b, file_path@);
    }
    let removed = match find_book(&state.books, file_path.as_str()) {
        Some(i) => {
            let _ = state.books.remove(i);
            proof {
                lemma_books_map_remove(b, i as int);
            }
            true
        },
        None => {
            assert(books_map(b).remove(file_path@) =~= books_map(b));
            false
        },
    };
    let mut changed = removed;
    let is_last = match &state.last_opened {
        Some(l) => crate::text::chars_eq(to_chars(l.as_str()).as_slice(), to_chars(file_path.as_str()).as_slice()),
        None => false,
    };
    if is_last {
        state.last_opened = None;
        changed = true;
    }
    changed
}

// ---------------------------------------------------------------------------
// Laws
// ---------------------------------------------------------------------------

/// Every line of the history shows its book's record as it is: the path,
/// title, author, chapter and page of the record, and whether it has any
/// bookmark and any quote.
pub proof fn law_history_entry_fields(b: Seq<(String, BookRecord)>)
    requires
        unique_paths(b),
    ensures
        forall|i: int| 0 <= i < history_entries(b).len() ==> {
            let e = #[trigger] history_entries(b)[i];
            let r = books_map(b)[e.file_path];
            &&& books_map(b).contains_key(e.file_path)
            &&& e.file_path == b[i].0@
            &&& e.title == r.title
            &&& e.author == r.author
            &&& e.last_chapter == r.last_chapter
            &&& e.last_page == r.last_page
            &&& e.has_bookmarks == (r.bookmarks.len() > 0)
            &&& e.has_quotes == (r.quotes.len() > 0)
        },
{
    law_history_lists_saved_books(b);
}

/// The history lists exactly the books that have saved state, one line per
/// book, each line showing that book's record.
pub proof fn law_history_lists_saved_books(b: Seq<(String, BookRecord)>)
    requires
        unique_paths(b),
    ensures
        history_entries(b).len() == b.len(),
        forall|i: int| 0 <= i < b.len() ==> books_map(b).contains_key(#[trigger] history_entries(b)[i].file_path)
            && history_entries(b)[i] == history_entry(b[i].0@, books_map(b)[b[i].0@]),
        forall|k: Seq<char>| #[trigger] books_map(b).contains_key(k) ==> exists|i: int|
            0 <= i < b.len() && #[trigger] history_entries(b)[i].file_path == k,
{
    assert forall|i: int| 0 <= i < b.len() implies books_map(b).contains_key(#[trigger] history_entries(b)[i].file_path)
        && history_entries(b)[i] == history_entry(b[i].0@, books_map(b)[b[i].0@]) by {
        lemma_last_book(b, b[i].0@);
        let j = last_book(b, b[i].0@)->0;
        if j != i {
            if i < j {
                assert(b[i].0@ != b[j].0@);
            } else {
                assert(b[j].0@ != b[i].0@);
            }
        }
    }
    assert forall|k: Seq<char>| #[trigger] books_map(b).contains_key(k) implies exists|i: int|
        0 <= i < b.len() && #[trigger] history_entries(b)[i].file_path == k by {
        lemma_last_book(b, k);
        let i = last_book(b, k)->0;
        assert(history_entries(b)[i].file_path == k);
    }
}

} // verus!
