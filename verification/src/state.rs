//! The persisted reading state (books, progress, annotations, preferences)
//! and the in-memory search index of the open book.
use vstd::prelude::*;

use crate::text::{chars_eq, decimal, decimal_chars, extend_from, str_chars, string_from_chars, to_chars};

verus! {

// ---------------------------------------------------------------------------
// Search index
// ---------------------------------------------------------------------------

/// The plain text of one chapter of the open book, for searching.
#[derive(Debug)]
pub struct ChapterText {
    pub index: usize,
    pub title: Option<String>,
    pub plain_text: String,
}

/// The search index of the book that is open (not persisted).
#[derive(Debug)]
pub struct BookIndex {
    pub file_path: String,
    pub chapters: Vec<ChapterText>,
}

/// The characters of an optional string.
pub open spec fn opt_view(o: Option<String>) -> Option<Seq<char>> {
    match o {
        Some(s) => Some(s@),
        None => None,
    }
}

/// The contents of a chapter's text entry.
pub struct ChapterTextView {
    pub index: usize,
    pub title: Option<Seq<char>>,
    pub plain_text: Seq<char>,
}

impl View for ChapterText {
    type V = ChapterTextView;

    open spec fn view(&self) -> ChapterTextView {
        ChapterTextView { index: self.index, title: opt_view(self.title), plain_text: self.plain_text@ }
    }
}

/// A copy of an optional string.
pub fn clone_opt_string(o: &Option<String>) -> (res: Option<String>)
    ensures
        res == *o,
{
    match o {
        Some(s) => Some(s.clone()),
        None => None,
    }
}

impl Clone for ChapterText {
    fn clone(&self) -> (res: Self)
        ensures
            res == *self,
    {
        ChapterText {
            index: self.index,
            title: clone_opt_string(&self.title),
            plain_text: self.plain_text.clone(),
        }
    }
}

impl Default for BookIndex {
    fn default() -> (res: Self)
        ensures
            res.file_path@ == Seq::<char>::empty(),
            res.chapters@ == Seq::<ChapterText>::empty(),
    {
        BookIndex { file_path: String::new(), chapters: Vec::new() }
    }
}

// ---------------------------------------------------------------------------
// Stripping markup
// ---------------------------------------------------------------------------

/// The text that stripping tags from `s` produces, together with whether the
/// end of `s` lies inside a tag. A `<` opens a tag, a `>` closes it and stands
/// for one space, and every other character outside a tag is kept.
pub open spec fn strip_state(s: Seq<char>) -> (Seq<char>, bool)
    decreases s.len(),
{
    if s.len() == 0 {
        (Seq::empty(), false)
    } else {
        let (out, in_tag) = strip_state(s.drop_last());
        let c = s.last();
        if c == '<' {
            (out, true)
        } else if c == '>' {
            (out.push(' '), false)
        } else if !in_tag {
            (out.push(c), false)
        } else {
            (out, true)
        }
    }
}

/// `s` with its tags stripped.
pub open spec fn stripped(s: Seq<char>) -> Seq<char> {
    strip_state(s).0
}

/// Stripped text holds no `<` and no `>`, and is no longer than the input.
pub proof fn law_stripped_has_no_markup(s: Seq<char>)
    ensures
        forall|i: int| 0 <= i < stripped(s).len() ==> #[trigger] stripped(s)[i] != '<' && stripped(s)[i] != '>',
        stripped(s).len() <= s.len(),
    decreases s.len(),
{
    if s.len() > 0 {
        law_stripped_has_no_markup(s.drop_last());
        let before = stripped(s.drop_last());
        let after = stripped(s);
        assert forall|i: int| 0 <= i < after.len() implies #[trigger] after[i] != '<' && after[i] != '>' by {
            if i < before.len() {
                assert(after[i] == before[i]);
            }
        }
    }
}

/// Text without `<` and `>` comes through stripping unchanged.
pub proof fn law_stripped_plain_text(s: Seq<char>)
    requires
        forall|i: int| 0 <= i < s.len() ==> #[trigger] s[i] != '<' && s[i] != '>',
    ensures
        stripped(s) == s,
        !strip_state(s).1,
    decreases s.len(),
{
    if s.len() > 0 {
        law_stripped_plain_text(s.drop_last());
        assert(s.last() == s[s.len() - 1]);
        assert(s =~= s.drop_last().push(s.last()));
    }
}

/// Strip HTML tags from a string, returning plain text.
pub fn strip_html(html: &str) -> (res: String)
    ensures
        res@ == stripped(html@),
{
    let chars = to_chars(html);
    let mut out: Vec<char> = Vec::new();
    let mut in_tag = false;
    let mut i: usize = 0;
    assert(chars@.take(0) =~= Seq::<char>::empty());
    while i < chars.len()
        invariant
            i <= chars@.len(),
            (out@, in_tag) == strip_state(chars@.take(i as int)),
        decreases chars@.len() - i,
    {
        let c = chars[i];
        assert(chars@.take(i + 1).drop_last() =~= chars@.take(i as int));
        if c == '<' {
            in_tag = true;
        } else if c == '>' {
            in_tag = false;
            out.push(' ');
        } else if !in_tag {
            out.push(c);
        }
        i = i + 1;
    }
    assert(chars@.take(chars@.len() as int) =~= chars@);
    string_from_chars(out.as_slice())
}

// ---------------------------------------------------------------------------
// Annotations
// ---------------------------------------------------------------------------

/// A bookmarked page.
#[derive(Debug)]
pub struct Bookmark {
    pub chapter_index: usize,
    pub page_index: usize,
    pub label: Option<String>,
}

/// A highlighted span of a chapter.
#[derive(Debug)]
pub struct Highlight {
    pub chapter_index: usize,
    pub start_offset: usize,
    pub end_offset: usize,
    pub color: String,
    pub note: Option<String>,
}

/// A saved quote.
#[derive(Debug)]
pub struct Quote {
    pub id: String,
    pub chapter_index: usize,
    pub text: String,
    pub note: Option<String>,
}

/// The contents of a bookmark.
pub struct BookmarkView {
    pub chapter_index: usize,
    pub page_index: usize,
    pub label: Option<Seq<char>>,
}

/// The contents of a highlight.
pub struct HighlightView {
    pub chapter_index: usize,
    pub start_offset: usize,
    pub end_offset: usize,
    pub color: Seq<char>,
    pub note: Option<Seq<char>>,
}

/// The contents of a quote.
pub struct QuoteView {
    pub id: Seq<char>,
    pub chapter_index: usize,
    pub text: Seq<char>,
    pub note: Option<Seq<char>>,
}

impl View for Bookmark {
    type V = BookmarkView;

    open spec fn view(&self) -> BookmarkView {
        BookmarkView {
            chapter_index: self.chapter_index,
            page_index: self.page_index,
            label: opt_view(self.label),
        }
    }
}

impl View for Highlight {
    type V = HighlightView;

    open spec fn view(&self) -> HighlightView {
        HighlightView {
            chapter_index: self.chapter_index,
            start_offset: self.start_offset,
            end_offset: self.end_offset,
            color: self.color@,
            note: opt_view(self.note),
        }
    }
}

impl View for Quote {
    type V = QuoteView;

    open spec fn view(&self) -> QuoteView {
        QuoteView {
            id: self.id@,
            chapter_index: self.chapter_index,
            text: self.text@,
            note: opt_view(self.note),
        }
    }
}

impl Clone for Bookmark {
    fn clone(&self) -> (res: Self)
        ensures
            res@ == self@,
    {
        Bookmark {
            chapter_index: self.chapter_index,
            page_index: self.page_index,
            label: clone_opt_string(&self.label),
        }
    }
}

impl Clone for Highlight {
    fn clone(&self) -> (res: Self)
        ensures
            res@ == self@,
    {
        Highlight {
            chapter_index: self.chapter_index,
            start_offset: self.start_offset,
            end_offset: self.end_offset,
            color: self.color.clone(),
            note: clone_opt_string(&self.note),
        }
    }
}

impl Clone for Quote {
    fn clone(&self) -> (res: Self)
        ensures
            res@ == self@,
    {
        Quote {
            id: self.id.clone(),
            chapter_index: self.chapter_index,
            text: self.text.clone(),
            note: clone_opt_string(&self.note),
        }
    }
}

/// The views of a list of bookmarks.
pub open spec fn bookmark_views(v: Seq<Bookmark>) -> Seq<BookmarkView> {
    v.map_values(|b: Bookmark| b@)
}

/// The views of a list of highlights.
pub open spec fn highlight_views(v: Seq<Highlight>) -> Seq<HighlightView> {
    v.map_values(|h: Highlight| h@)
}

/// The views of a list of quotes.
pub open spec fn quote_views(v: Seq<Quote>) -> Seq<QuoteView> {
    v.map_values(|q: Quote| q@)
}

/// A copy of a list of bookmarks.
pub fn clone_bookmarks(v: &Vec<Bookmark>) -> (res: Vec<Bookmark>)
    ensures
        bookmark_views(res@) == bookmark_views(v@),
{
    let mut out: Vec<Bookmark> = Vec::new();
    let mut i: usize = 0;
    while i < v.len()
        invariant
            i <= v@.len(),
            bookmark_views(out@) == bookmark_views(v@).take(i as int),
        decreases v@.len() - i,
    {
        let item = v[i].clone();
        assert(item@ == v@[i as int]@);
        let ghost prev = out@;
        out.push(item);
        assert(bookmark_views(out@) =~= bookmark_views(prev).push(item@));
        i = i + 1;
        assert(bookmark_views(out@) =~= bookmark_views(v@).take(i as int));
    }
    assert(bookmark_views(v@).take(i as int) =~= bookmark_views(v@));
    out
}

/// A copy of a list of highlights.
pub fn clone_highlights(v: &Vec<Highlight>) -> (res: Vec<Highlight>)
    ensures
        highlight_views(res@) == highlight_views(v@),
{
    let mut out: Vec<Highlight> = Vec::new();
    let mut i: usize = 0;
    while i < v.len()
        invariant
            i <= v@.len(),
            highlight_views(out@) == highlight_views(v@).take(i as int),
        decreases v@.len() - i,
    {
        let item = v[i].clone();
        assert(item@ == v@[i as int]@);
        let ghost prev = out@;
        out.push(item);
        assert(highlight_views(out@) =~= highlight_views(prev).push(item@));
        i = i + 1;
        assert(highlight_views(out@) =~= highlight_views(v@).take(i as int));
    }
    assert(highlight_views(v@).take(i as int) =~= highlight_views(v@));
    out
}

/// A copy of a list of quotes.
pub fn clone_quotes(v: &Vec<Quote>) -> (res: Vec<Quote>)
    ensures
        quote_views(res@) == quote_views(v@),
{
    let mut out: Vec<Quote> = Vec::new();
    let mut i: usize = 0;
    while i < v.len()
        invariant
            i <= v@.len(),
            quote_views(out@) == quote_views(v@).take(i as int),
        decreases v@.len() - i,
    {
        let item = v[i].clone();
        assert(item@ == v@[i as int]@);
        let ghost prev = out@;
        out.push(item);
        assert(quote_views(out@) =~= quote_views(prev).push(item@));
        i = i + 1;
        assert(quote_views(out@) =~= quote_views(v@).take(i as int));
    }
    assert(quote_views(v@).take(i as int) =~= quote_views(v@));
    out
}

// ---------------------------------------------------------------------------
// Book records
// ---------------------------------------------------------------------------

/// What is remembered of one book. The scroll position is kept as the bit
/// pattern of the `f64` it is in the state file.
#[derive(Debug)]
pub struct BookRecord {
    pub title: String,
    pub author: String,
    pub last_chapter: usize,
    pub last_page: usize,
    pub last_scroll_top_bits: u64,
    pub bookmarks: Vec<Bookmark>,
    pub highlights: Vec<Highlight>,
    pub quotes: Vec<Quote>,
}

/// The contents of a book record.
pub struct BookRecordView {
    pub title: Seq<char>,
    pub author: Seq<char>,
    pub last_chapter: usize,
    pub last_page: usize,
    pub last_scroll_top_bits: u64,
    pub bookmarks: Seq<BookmarkView>,
    pub highlights: Seq<HighlightView>,
    pub quotes: Seq<QuoteView>,
}

impl View for BookRecord {
    type V = BookRecordView;

    open spec fn view(&self) -> BookRecordView {
        BookRecordView {
            title: self.title@,
            author: self.author@,
            last_chapter: self.last_chapter,
            last_page: self.last_page,
            last_scroll_top_bits: self.last_scroll_top_bits,
            bookmarks: bookmark_views(self.bookmarks@),
            highlights: highlight_views(self.highlights@),
            quotes: quote_views(self.quotes@),
        }
    }
}

impl Clone for BookRecord {
    fn clone(&self) -> (res: Self)
        ensures
            res@ == self@,
    {
        BookRecord {
            title: self.title.clone(),
            author: self.author.clone(),
            last_chapter: self.last_chapter,
            last_page: self.last_page,
            last_scroll_top_bits: self.last_scroll_top_bits,
            bookmarks: clone_bookmarks(&self.bookmarks),
            highlights: clone_highlights(&self.highlights),
            quotes: clone_quotes(&self.quotes),
        }
    }
}

/// A new book's record: at the start, with no annotations (a scroll position
/// of zero is the bit pattern zero).
pub open spec fn default_record(title: Seq<char>, author: Seq<char>) -> BookRecordView {
    BookRecordView {
        title,
        author,
        last_chapter: 0,
        last_page: 0,
        last_scroll_top_bits: 0,
        bookmarks: Seq::empty(),
        highlights: Seq::empty(),
        quotes: Seq::empty(),
    }
}

/// The record of a book that was just opened for the first time.
pub fn default_book_record(title: String, author: String) -> (res: BookRecord)
    ensures
        res@ == default_record(title@, author@),
{
    let res = BookRecord {
        title,
        author,
        last_chapter: 0,
        last_page: 0,
        last_scroll_top_bits: 0,
        bookmarks: Vec::new(),
        highlights: Vec::new(),
        quotes: Vec::new(),
    };
    assert(res@.bookmarks =~= Seq::<BookmarkView>::empty());
    assert(res@.highlights =~= Seq::<HighlightView>::empty());
    assert(res@.quotes =~= Seq::<QuoteView>::empty());
    res
}

/// One line of the reading history.
#[derive(Debug)]
pub struct BookHistoryEntry {
    pub file_path: String,
    pub title: String,
    pub author: String,
    pub last_chapter: usize,
    pub last_page: usize,
    pub has_bookmarks: bool,
    pub has_quotes: bool,
}

/// The contents of a history line.
pub struct BookHistoryEntryView {
    pub file_path: Seq<char>,
    pub title: Seq<char>,
    pub author: Seq<char>,
    pub last_chapter: usize,
    pub last_page: usize,
    pub has_bookmarks: bool,
    pub has_quotes: bool,
}

impl View for BookHistoryEntry {
    type V = BookHistoryEntryView;

    open spec fn view(&self) -> BookHistoryEntryView {
        BookHistoryEntryView {
            file_path: self.file_path@,
            title: self.title@,
            author: self.author@,
            last_chapter: self.last_chapter,
            last_page: self.last_page,
            has_bookmarks: self.has_bookmarks,
            has_quotes: self.has_quotes,
        }
    }
}

// ---------------------------------------------------------------------------
// Preferences and the whole state
// ---------------------------------------------------------------------------

/// The reader's preferences. Font size and line height are kept as the bit
/// patterns of the `f32` values they are in the state file.
#[derive(Debug)]
pub struct UserPreferences {
    pub font_size_bits: Option<u32>,
    pub theme: Option<String>,
    pub font_family: Option<String>,
    pub line_height_bits: Option<u32>,
    pub text_align: Option<String>,
    pub reader_mode: Option<String>,
}

/// The contents of the preferences.
pub struct UserPreferencesView {
    pub font_size_bits: Option<u32>,
    pub theme: Option<Seq<char>>,
    pub font_family: Option<Seq<char>>,
    pub line_height_bits: Option<u32>,
    pub text_align: Option<Seq<char>>,
    pub reader_mode: Option<Seq<char>>,
}

impl View for UserPreferences {
    type V = UserPreferencesView;

    open spec fn view(&self) -> UserPreferencesView {
        UserPreferencesView {
            font_size_bits: self.font_size_bits,
            theme: opt_view(self.theme),
            font_family: opt_view(self.font_family),
            line_height_bits: self.line_height_bits,
            text_align: opt_view(self.text_align),
            reader_mode: opt_view(self.reader_mode),
        }
    }
}

impl Clone for UserPreferences {
    fn clone(&self) -> (res: Self)
        ensures
            res@ == self@,
    {
        UserPreferences {
            font_size_bits: self.font_size_bits,
            theme: clone_opt_string(&self.theme),
            font_family: clone_opt_string(&self.font_family),
            line_height_bits: self.line_height_bits,
            text_align: clone_opt_string(&self.text_align),
            reader_mode: clone_opt_string(&self.reader_mode),
        }
    }
}

impl Default for UserPreferences {
    fn default() -> (res: Self)
        ensures
            res@ == (UserPreferencesView {
                font_size_bits: None,
                theme: None,
                font_family: None,
                line_height_bits: None,
                text_align: None,
                reader_mode: None,
            }),
    {
        UserPreferences {
            font_size_bits: None,
            theme: None,
            font_family: None,
            line_height_bits: None,
            text_align: None,
            reader_mode: None,
        }
    }
}

/// Everything that is persisted: the last opened book, a record per book
/// (keyed by file path, each path at most once), and the preferences.
#[derive(Debug)]
pub struct AppState {
    pub last_opened: Option<String>,
    pub books: Vec<(String, BookRecord)>,
    pub preferences: UserPreferences,
}

/// The records of a list of keyed records, as a map.
pub open spec fn books_map(b: Seq<(String, BookRecord)>) -> Map<Seq<char>, BookRecordView>
    decreases b.len(),
{
    if b.len() == 0 {
        Map::empty()
    } else {
        books_map(b.drop_last()).insert(b.last().0@, b.last().1@)
    }
}

/// The contents of the whole state.
pub struct AppStateView {
    pub last_opened: Option<Seq<char>>,
    pub books: Map<Seq<char>, BookRecordView>,
    pub preferences: UserPreferencesView,
}

impl View for AppState {
    type V = AppStateView;

    open spec fn view(&self) -> AppStateView {
        AppStateView {
            last_opened: opt_view(self.last_opened),
            books: books_map(self.books@),
            preferences: self.preferences@,
        }
    }
}

/// No file path has two records.
pub open spec fn unique_paths(b: Seq<(String, BookRecord)>) -> bool {
    forall|i: int, j: int| 0 <= i < j < b.len() ==> (#[trigger] b[i]).0@ != (#[trigger] b[j]).0@
}

impl AppState {
    /// The state is well formed: no file path has two records.
    pub open spec fn wf(&self) -> bool {
        unique_paths(self.books@)
    }
}

/// The state of a first start: no book, no preference set.
pub open spec fn fresh_state() -> AppStateView {
    AppStateView {
        last_opened: None,
        books: Map::empty(),
        preferences: UserPreferencesView {
            font_size_bits: None,
            theme: None,
            font_family: None,
            line_height_bits: None,
            text_align: None,
            reader_mode: None,
        },
    }
}

impl Default for AppState {
    fn default() -> (res: Self)
        ensures
            res.wf(),
            res@ == fresh_state(),
    {
        AppState { last_opened: None, books: Vec::new(), preferences: UserPreferences::default() }
    }
}

/// The state read at start-up, and whether a corrupt state file was set aside.
#[derive(Debug)]
pub struct LoadedState {
    pub state: AppState,
    pub state_recovered: bool,
}

/// What reading the state file at start-up gave.
#[derive(Debug)]
pub enum StateFileRead {
    /// There is no state file yet.
    NotFound,
    /// The file exists but could not be read.
    Unreadable,
    /// The file was read but does not hold a state; it has been set aside.
    Malformed,
    /// The file held this state.
    Parsed(AppState),
}

/// The state to start with: the one the file held, or a fresh one. A
/// malformed file is reported as recovered so the reader can be warned.
pub fn loaded_state(read: StateFileRead) -> (res: LoadedState)
    requires
        read matches StateFileRead::Parsed(s) ==> s.wf(),
    ensures
        res.state.wf(),
        match read {
            StateFileRead::Parsed(s) => res.state@ == s@ && !res.state_recovered,
            StateFileRead::Malformed => res.state@ == fresh_state() && res.state_recovered,
            _ => res.state@ == fresh_state() && !res.state_recovered,
        },
{
    match read {
        StateFileRead::Parsed(state) => LoadedState { state, state_recovered: false },
        StateFileRead::Malformed => LoadedState { state: AppState::default(), state_recovered: true },
        _ => LoadedState { state: AppState::default(), state_recovered: false },
    }
}

/// How many numbered names are tried for a corrupt state file before the
/// process id is used.
pub const MAX_CORRUPT_SUFFIX: u32 = 999;

/// The name a corrupt state file `file_name` is set aside under: on the first
/// attempt `<name>.corrupt-<timestamp>`, on attempt `k` after that
/// `<name>.corrupt-<timestamp>-<k>`.
pub open spec fn corrupt_name(file_name: Seq<char>, timestamp: u64, attempt: u32) -> Seq<char> {
    let base = file_name + ".corrupt-"@ + decimal(timestamp as nat);
    if attempt == 0 {
        base
    } else {
        base + seq!['-'] + decimal(attempt as nat)
    }
}

/// The name to try for a corrupt state file on the given attempt; the caller
/// tries attempts from zero until a name is free.
pub fn corrupt_state_name(file_name: &str, timestamp: u64, attempt: u32) -> (res: String)
    ensures
        res@ == corrupt_name(file_name@, timestamp, attempt),
{
    let mut out = to_chars(file_name);
    extend_from(&mut out, str_chars(".corrupt-").as_slice());
    extend_from(&mut out, decimal_chars(timestamp).as_slice());
    if attempt > 0 {
        out.push('-');
        extend_from(&mut out, decimal_chars(attempt as u64).as_slice());
    }
    string_from_chars(out.as_slice())
}

// ---------------------------------------------------------------------------
// Finding and changing records
// ---------------------------------------------------------------------------

/// The last record for `path`.
pub open spec fn last_book(b: Seq<(String, BookRecord)>, path: Seq<char>) -> Option<int>
    decreases b.len(),
{
    if b.len() == 0 {
        None
    } else if b.last().0@ == path {
        Some(b.len() - 1)
    } else {
        last_book(b.drop_last(), path)
    }
}

/// Where the record for `path` is, and what the map holds.
pub proof fn lemma_last_book(b: Seq<(String, BookRecord)>, path: Seq<char>)
    ensures
        last_book(b, path) matches Some(i) ==> 0 <= i < b.len() && b[i].0@ == path && books_map(
            b,
        ).contains_key(path) && books_map(b)[path] == b[i].1@,
        last_book(b, path) is None ==> !books_map(b).contains_key(path),
        last_book(b, path) is None ==> forall|i: int| 0 <= i < b.len() ==> (#[trigger] b[i]).0@ != path,
    decreases b.len(),
{
    if b.len() > 0 {
        lemma_last_book(b.drop_last(), path);
        if b.last().0@ != path {
            assert forall|i: int| 0 <= i < b.len() - 1 implies b[i] == b.drop_last()[i] by {}
        }
    }
}

/// The keys of the map are the paths of the list.
pub proof fn lemma_books_map_keys(b: Seq<(String, BookRecord)>)
    ensures
        forall|k: Seq<char>| #[trigger] books_map(b).contains_key(k) <==> exists|i: int| 0 <= i < b.len() && b[i].0@ == k,
    decreases b.len(),
{
    if b.len() > 0 {
        lemma_books_map_keys(b.drop_last());
        assert forall|k: Seq<char>| #[trigger] books_map(b).contains_key(k) implies exists|i: int| 0 <= i < b.len() && b[i].0@ == k by {
            if k == b.last().0@ {
                assert(b[b.len() - 1].0@ == k);
            } else {
                assert(books_map(b.drop_last()).contains_key(k));
                let i = choose|i: int| 0 <= i < b.len() - 1 && b.drop_last()[i].0@ == k;
                assert(b[i] == b.drop_last()[i]);
            }
        }
        assert forall|k: Seq<char>| (exists|i: int| 0 <= i < b.len() && b[i].0@ == k) implies #[trigger] books_map(b).contains_key(k) by {
            let i = choose|i: int| 0 <= i < b.len() && b[i].0@ == k;
            if i < b.len() - 1 {
                assert(b.drop_last()[i] == b[i]);
                assert(books_map(b.drop_last()).contains_key(k));
            }
        }
    }
}

/// Replacing the record for `path` at its (last) position replaces it in the map.
pub proof fn lemma_books_map_update(b: Seq<(String, BookRecord)>, i: int, entry: (String, BookRecord))
    requires
        last_book(b, entry.0@) == Some(i),
    ensures
        books_map(b.update(i, entry)) == books_map(b).insert(entry.0@, entry.1@),
        last_book(b.update(i, entry), entry.0@) == Some(i),
    decreases b.len(),
{
    let b2 = b.update(i, entry);
    lemma_last_book(b, entry.0@);
    if i == b.len() - 1 {
        assert(b2.drop_last() =~= b.drop_last());
        assert(books_map(b2) =~= books_map(b).insert(entry.0@, entry.1@));
    } else {
        assert(b.last().0@ != entry.0@);
        lemma_books_map_update(b.drop_last(), i, entry);
        assert(b2.drop_last() =~= b.drop_last().update(i, entry));
        assert(books_map(b2) =~= books_map(b).insert(entry.0@, entry.1@));
    }
}

/// Where the record for `path` is.
pub fn find_book(books: &Vec<(String, BookRecord)>, path: &str) -> (res: Option<usize>)
    ensures
        match res {
            Some(i) => last_book(books@, path@) == Some(i as int),
            None => last_book(books@, path@) is None,
        },
{
    let p = to_chars(path);
    let mut k = books.len();
    assert(books@.take(k as int) =~= books@);
    while k > 0
        invariant
            k <= books@.len(),
            p@ == path@,
            last_book(books@.take(k as int), path@) == last_book(books@, path@),
        decreases k,
    {
        assert(books@.take(k as int).drop_last() =~= books@.take(k - 1));
        if chars_eq(to_chars(books[k - 1].0.as_str()).as_slice(), p.as_slice()) {
            return Some(k - 1);
        }
        k = k - 1;
    }
    None
}

/// The record the state holds for `path`, or a fresh one with empty title
/// and author when it holds none.
pub open spec fn record_or_new(s: AppStateView, path: Seq<char>, title: Seq<char>, author: Seq<char>) -> BookRecordView {
    if s.books.contains_key(path) {
        s.books[path]
    } else {
        default_record(title, author)
    }
}

/// A copy of the record for `path`, where the state has one.
pub fn get_record(state: &AppState, path: &str) -> (res: Option<BookRecord>)
    ensures
        match res {
            Some(r) => state@.books.contains_key(path@) && r@ == state@.books[path@],
            None => !state@.books.contains_key(path@),
        },
{
    proof {
        lemma_last_book(state.books@, path@);
    }
    match find_book(&state.books, path) {
        Some(i) => Some(state.books[i].1.clone()),
        None => None,
    }
}

/// Stores `record` as the record for `path`, adding it when the state has
/// no record for `path` and replacing the existing one otherwise.
pub fn put_record(state: &mut AppState, path: String, record: BookRecord)
    requires
        old(state).wf(),
    ensures
        final(state).wf(),
        final(state)@ == (AppStateView { books: old(state)@.books.insert(path@, record@), ..old(state)@ }),
{
    let ghost b = state.books@;
    proof {
        lemma_last_book(b, path@);
    }
    match find_book(&state.books, path.as_str()) {
        Some(i) => {
            let _ = state.books.remove(i);
            state.books.insert(i, (path, record));
            proof {
                let entry = state.books@[i as int];
                assert(state.books@ =~= b.update(i as int, entry));
                lemma_books_map_update(b, i as int, entry);
                assert forall|x: int, y: int| 0 <= x < y < state.books@.len() implies (#[trigger] state.books@[x]).0@ != (#[trigger] state.books@[y]).0@ by {
                    if x != i && y != i {
                        assert(b[x] == state.books@[x] && b[y] == state.books@[y]);
                    } else if x == i {
                        assert(b[x].0@ == path@);
                        assert(b[y] == state.books@[y]);
                    } else {
                        assert(b[y].0@ == path@);
                        assert(b[x] == state.books@[x]);
                    }
                }
            }
        },
        None => {
            state.books.push((path, record));
            proof {
                assert(state.books@.drop_last() =~= b);
                assert forall|x: int, y: int| 0 <= x < y < state.books@.len() implies (#[trigger] state.books@[x]).0@ != (#[trigger] state.books@[y]).0@ by {
                    if y == b.len() {
                        assert(state.books@[x] == b[x]);
                    } else {
                        assert(state.books@[x] == b[x] && state.books@[y] == b[y]);
                    }
                }
            }
        },
    }
}

} // verus!
