//! Case-insensitive full-text search over the chapters of the open book.
//!
//! Matching compares the Unicode lower-case mapping of the text with the
//! lower-cased query, and reports each match by the byte offset of its first
//! character in the text as written, so offsets stay right where lower-casing
//! changes the length of the text.
use vstd::prelude::*;

use crate::state::{clone_opt_string, opt_view, ChapterText, ChapterTextView};
use crate::text::{
    char_lowercase, char_to_lowercase, chars_eq, extend_from, slice_range, starts_with_chars,
    string_from_chars, to_chars, trim, trim_chars, utf8_len, utf8_offsets, lemma_utf8_len_increasing,
};

verus! {

/// The most results that one search returns.
pub const MAX_RESULTS: usize = 30;

/// How many bytes of context a snippet takes on either side of a match.
pub const SNIPPET_CONTEXT: usize = 60;

/// One search hit.
#[derive(Debug)]
pub struct SearchResult {
    pub chapter_index: usize,
    pub chapter_title: Option<String>,
    pub snippet: String,
    pub offset: usize,
}

/// The contents of a search hit.
pub struct SearchResultView {
    pub chapter_index: usize,
    pub chapter_title: Option<Seq<char>>,
    pub snippet: Seq<char>,
    pub offset: int,
}

impl View for SearchResult {
    type V = SearchResultView;

    open spec fn view(&self) -> SearchResultView {
        SearchResultView {
            chapter_index: self.chapter_index,
            chapter_title: opt_view(self.chapter_title),
            snippet: self.snippet@,
            offset: self.offset as int,
        }
    }
}

// ---------------------------------------------------------------------------
// Specification
// ---------------------------------------------------------------------------

/// The Unicode lower-case mapping of `s`, character by character.
pub open spec fn fold_case(s: Seq<char>) -> Seq<char>
    decreases s.len(),
{
    if s.len() == 0 {
        Seq::empty()
    } else {
        fold_case(s.drop_last()) + char_lowercase(s.last())
    }
}

/// A match of the folded query `q` in `t` spans the characters `i..j`.
pub open spec fn is_match(t: Seq<char>, q: Seq<char>, i: int, j: int) -> bool {
    0 <= i < j <= t.len() && fold_case(t.subrange(i, j)) == q
}

/// The characters `i..j` are the shortest match of `q` that starts at `i`.
pub open spec fn is_first_match(t: Seq<char>, q: Seq<char>, i: int, j: int) -> bool {
    is_match(t, q, i, j) && forall|m: int| i < m < j ==> !is_match(t, q, i, m)
}

/// Some match of `q` in `t` starts at character `i`.
pub open spec fn has_match(t: Seq<char>, q: Seq<char>, i: int) -> bool {
    exists|j: int| is_first_match(t, q, i, j)
}

/// Where the shortest match of `q` that starts at character `i` ends.
pub open spec fn match_end(t: Seq<char>, q: Seq<char>, i: int) -> int {
    choose|j: int| is_first_match(t, q, i, j)
}

/// The non-overlapping matches of `q` in `t` that a scan from character `i`
/// to the end finds, taking the first match at each position and resuming
/// after it.
pub open spec fn scan(t: Seq<char>, q: Seq<char>, i: int) -> Seq<(int, int)>
    decreases t.len() - i,
{
    if i < 0 || i >= t.len() {
        Seq::empty()
    } else if has_match(t, q, i) {
        let e = match_end(t, q, i);
        seq![(i, e)] + scan(t, q, e)
    } else {
        scan(t, q, i + 1)
    }
}

/// The largest character boundary of `t` whose byte offset is at most `limit`.
pub open spec fn floor_boundary(t: Seq<char>, limit: int) -> int {
    choose|m: int|
        0 <= m <= t.len() && #[trigger] utf8_len(t.take(m)) <= limit && (m == t.len() || utf8_len(
            t.take(m + 1),
        ) > limit)
}

/// The smallest character boundary of `t` whose byte offset is at least `limit`.
pub open spec fn ceil_boundary(t: Seq<char>, limit: int) -> int {
    choose|m: int|
        0 <= m <= t.len() && #[trigger] utf8_len(t.take(m)) >= limit && (m == 0 || utf8_len(
            t.take(m - 1),
        ) < limit)
}

/// The snippet shown for a match spanning the characters `i..j` of `t`: the
/// text from about 60 bytes before the match to about 60 bytes after it,
/// widened to character boundaries.
pub open spec fn snippet_of(t: Seq<char>, i: int, j: int) -> Seq<char> {
    let start_byte = utf8_len(t.take(i)) - SNIPPET_CONTEXT;
    let end_byte = utf8_len(t.take(j)) + SNIPPET_CONTEXT;
    let lo = floor_boundary(t, if start_byte < 0 { 0 } else { start_byte });
    let hi = ceil_boundary(t, if end_byte > utf8_len(t) { utf8_len(t) as int } else { end_byte });
    t.subrange(lo, hi)
}

/// The hit reported for a match spanning the characters `m.0..m.1` of a chapter.
pub open spec fn hit_of(ch: ChapterTextView, m: (int, int)) -> SearchResultView {
    SearchResultView {
        chapter_index: ch.index,
        chapter_title: ch.title,
        snippet: snippet_of(ch.plain_text, m.0, m.1),
        offset: utf8_len(ch.plain_text.take(m.0)) as int,
    }
}

/// All hits of the folded query `q` in one chapter, in text order.
pub open spec fn chapter_hits(ch: ChapterTextView, q: Seq<char>) -> Seq<SearchResultView> {
    scan(ch.plain_text, q, 0).map_values(|m: (int, int)| hit_of(ch, m))
}

/// All hits of the folded query `q`, chapter after chapter.
pub open spec fn all_hits(chs: Seq<ChapterTextView>, q: Seq<char>) -> Seq<SearchResultView>
    decreases chs.len(),
{
    if chs.len() == 0 {
        Seq::empty()
    } else {
        all_hits(chs.drop_last(), q) + chapter_hits(chs.last(), q)
    }
}

/// What a search for `query` returns: the first 30 hits of its lower-case
/// form, or nothing when that is empty.
pub open spec fn search_spec(chs: Seq<ChapterTextView>, query: Seq<char>) -> Seq<SearchResultView> {
    let q = fold_case(query);
    if q.len() == 0 {
        Seq::empty()
    } else {
        let hits = all_hits(chs, q);
        if hits.len() <= MAX_RESULTS {
            hits
        } else {
            hits.take(MAX_RESULTS as int)
        }
    }
}

// ---------------------------------------------------------------------------
// Lemmas
// ---------------------------------------------------------------------------

/// Folding a longer prefix extends the folding of a shorter one.
pub proof fn lemma_fold_take(s: Seq<char>, k: int, j: int)
    requires
        0 <= k <= j <= s.len(),
    ensures
        fold_case(s.take(k)).is_prefix_of(fold_case(s.take(j))),
    decreases j - k,
{
    if k < j {
        lemma_fold_take(s, k, j - 1);
        assert(s.take(j).drop_last() =~= s.take(j - 1));
    }
}

/// A match that starts at `i` is the shortest one exactly when no shorter one exists,
/// so there is at most one shortest match.
pub proof fn lemma_first_match_unique(t: Seq<char>, q: Seq<char>, i: int, j: int)
    requires
        is_first_match(t, q, i, j),
    ensures
        has_match(t, q, i),
        match_end(t, q, i) == j,
{
    let e = match_end(t, q, i);
    assert(is_first_match(t, q, i, e));
    if e < j {
        assert(!is_match(t, q, i, e));
    } else if e > j {
        assert(!is_match(t, q, i, j));
    }
}

// ---------------------------------------------------------------------------
// Matching
// ---------------------------------------------------------------------------

/// The lower-case form of `text` that the search compares against.
pub fn fold_for_search(text: &str) -> (res: String)
    ensures
        res@ == fold_case(text@),
{
    let chars = to_chars(text);
    let folded = fold_chars(chars.as_slice());
    string_from_chars(folded.as_slice())
}

/// The lower-case form of a character sequence.
pub fn fold_chars(t: &[char]) -> (res: Vec<char>)
    ensures
        res@ == fold_case(t@),
{
    let mut out: Vec<char> = Vec::new();
    let mut i: usize = 0;
    assert(t@.take(0) =~= Seq::<char>::empty());
    while i < t.len()
        invariant
            i <= t@.len(),
            out@ == fold_case(t@.take(i as int)),
        decreases t@.len() - i,
    {
        let low = char_to_lowercase(t[i]);
        extend_from(&mut out, low.as_slice());
        assert(t@.take(i + 1).drop_last() =~= t@.take(i as int));
        i = i + 1;
    }
    assert(t@.take(t@.len() as int) =~= t@);
    out
}

/// Where the shortest match of the folded query `q` that starts at character
/// `i` of `t` ends, if any match starts there.
fn match_at(t: &[char], q: &[char], i: usize) -> (res: Option<usize>)
    requires
        i < t@.len(),
    ensures
        res matches Some(j) ==> is_first_match(t@, q@, i as int, j as int),
        res is None ==> !has_match(t@, q@, i as int),
{
    let mut folded: Vec<char> = Vec::new();
    let mut k: usize = i;
    assert(t@.subrange(i as int, i as int) =~= Seq::<char>::empty());
    while k < t.len()
        invariant
            i <= k <= t@.len(),
            i < t@.len(),
            folded@ == fold_case(t@.subrange(i as int, k as int)),
            forall|m: int| i < m <= k ==> !is_match(t@, q@, i as int, m),
        decreases t@.len() - k,
    {
        let low = char_to_lowercase(t[k]);
        extend_from(&mut folded, low.as_slice());
        assert(t@.subrange(i as int, k + 1).drop_last() =~= t@.subrange(i as int, k as int));
        assert(t@.subrange(i as int, k + 1).last() == t@[k as int]);
        k = k + 1;
        if chars_eq(folded.as_slice(), q) {
            return Some(k);
        }
        if !starts_with_chars(q, folded.as_slice()) {
            assert forall|j: int| i < j <= t@.len() implies !is_match(t@, q@, i as int, j) by {
                if j > k {
                    let sub = t@.subrange(i as int, j);
                    lemma_fold_take(sub, k - i, j - i);
                    assert(sub.take(k - i) =~= t@.subrange(i as int, k as int));
                    assert(sub.take(j - i) =~= sub);
                }
            }
            return None;
        }
    }
    None
}

/// The character spans of the non-overlapping matches of the folded query
/// `q` in `t`, scanning left to right.
pub fn match_spans(t: &[char], q: &[char]) -> (res: Vec<(usize, usize)>)
    ensures
        res@.map_values(|p: (usize, usize)| (p.0 as int, p.1 as int)) == scan(t@, q@, 0),
{
    let mut matches: Vec<(usize, usize)> = Vec::new();
    let mut start: usize = 0;
    while start < t.len()
        invariant
            start <= t@.len(),
            matches@.map_values(|p: (usize, usize)| (p.0 as int, p.1 as int)) + scan(
                t@,
                q@,
                start as int,
            ) == scan(t@, q@, 0),
        decreases t@.len() - start,
    {
        let ghost before = matches@;
        match match_at(t, q, start) {
            Some(end) => {
                proof {
                    lemma_first_match_unique(t@, q@, start as int, end as int);
                }
                matches.push((start, end));
                assert(matches@.map_values(|p: (usize, usize)| (p.0 as int, p.1 as int))
                    =~= before.map_values(|p: (usize, usize)| (p.0 as int, p.1 as int)).push(
                    (start as int, end as int),
                ));
                assert(scan(t@, q@, start as int) == seq![(start as int, end as int)] + scan(
                    t@,
                    q@,
                    end as int,
                ));
                assert(matches@.map_values(|p: (usize, usize)| (p.0 as int, p.1 as int)) + scan(
                    t@,
                    q@,
                    end as int,
                ) =~= before.map_values(|p: (usize, usize)| (p.0 as int, p.1 as int)) + scan(
                    t@,
                    q@,
                    start as int,
                ));
                start = end;
            },
            None => {
                start = start + 1;
            },
        }
    }
    assert(matches@.map_values(|p: (usize, usize)| (p.0 as int, p.1 as int)) =~= matches@.map_values(
        |p: (usize, usize)| (p.0 as int, p.1 as int),
    ) + scan(t@, q@, start as int));
    matches
}

/// The byte spans of the matches that a scan of `t` finds.
pub open spec fn byte_spans(t: Seq<char>, q: Seq<char>) -> Seq<(int, int)> {
    scan(t, q, 0).map_values(|m: (int, int)| (utf8_len(t.take(m.0)) as int, utf8_len(t.take(m.1)) as int))
}

/// The byte ranges of the non-overlapping matches of the lower-cased query
/// `folded_query` in `text`, ignoring case, scanning left to right.
pub fn find_case_insensitive_matches(text: &str, folded_query: &str) -> (res: Vec<(usize, usize)>)
    requires
        utf8_len(text@) <= usize::MAX,
    ensures
        res@.map_values(|p: (usize, usize)| (p.0 as int, p.1 as int)) == byte_spans(text@, folded_query@),
{
    let t = to_chars(text);
    let q = to_chars(folded_query);
    let offs = utf8_offsets(t.as_slice());
    let spans = match_spans(t.as_slice(), q.as_slice());
    let ghost want = byte_spans(t@, q@);
    let mut out: Vec<(usize, usize)> = Vec::new();
    let mut k: usize = 0;
    while k < spans.len()
        invariant
            k <= spans@.len(),
            spans@.map_values(|p: (usize, usize)| (p.0 as int, p.1 as int)) == scan(t@, q@, 0),
            want == byte_spans(t@, q@),
            offs@.len() == t@.len() + 1,
            forall|m: int| 0 <= m <= t@.len() ==> #[trigger] offs@[m] == utf8_len(t@.take(m)),
            out@.len() == k,
            forall|j: int| 0 <= j < k ==> (#[trigger] out@[j]).0 as int == want[j].0 && out@[j].1 as int == want[j].1,
        decreases spans@.len() - k,
    {
        let (i, j) = spans[k];
        proof {
            assert(scan(t@, q@, 0)[k as int] == (i as int, j as int));
            lemma_scan_spans(t@, q@, 0, k as int);
        }
        out.push((offs[i], offs[j]));
        k = k + 1;
    }
    assert(out@.map_values(|p: (usize, usize)| (p.0 as int, p.1 as int)) =~= want);
    out
}

// ---------------------------------------------------------------------------
// Hits and snippets
// ---------------------------------------------------------------------------

/// The floor boundary is determined by its defining property.
proof fn lemma_floor_unique(t: Seq<char>, limit: int, m: int)
    requires
        0 <= m <= t.len(),
        utf8_len(t.take(m)) <= limit,
        m == t.len() || utf8_len(t.take(m + 1)) > limit,
    ensures
        floor_boundary(t, limit) == m,
{
    let f = floor_boundary(t, limit);
    assert(0 <= f <= t.len() && utf8_len(t.take(f)) <= limit && (f == t.len() || utf8_len(
        t.take(f + 1),
    ) > limit));
    if f < m {
        lemma_utf8_len_increasing(t, f + 1, m);
    } else if f > m {
        lemma_utf8_len_increasing(t, m + 1, f);
    }
}

/// The ceiling boundary is determined by its defining property.
proof fn lemma_ceil_unique(t: Seq<char>, limit: int, m: int)
    requires
        0 <= m <= t.len(),
        utf8_len(t.take(m)) >= limit,
        m == 0 || utf8_len(t.take(m - 1)) < limit,
    ensures
        ceil_boundary(t, limit) == m,
{
    let f = ceil_boundary(t, limit);
    assert(0 <= f <= t.len() && utf8_len(t.take(f)) >= limit && (f == 0 || utf8_len(
        t.take(f - 1),
    ) < limit));
    if f < m {
        lemma_utf8_len_increasing(t, f, m - 1);
    } else if f > m {
        lemma_utf8_len_increasing(t, m, f - 1);
    }
}

/// The hit for the match spanning the characters `i..j` of a chapter whose
/// characters are `t` and whose boundary offsets are `offs`.
#[verifier::spinoff_prover]
#[verifier::rlimit(40)]
fn make_hit(ch: &ChapterText, t: &[char], offs: &Vec<usize>, i: usize, j: usize) -> (res:
    SearchResult)
    requires
        t@ == ch.plain_text@,
        offs@.len() == t@.len() + 1,
        forall|m: int| 0 <= m <= t@.len() ==> #[trigger] offs@[m] == utf8_len(t@.take(m)),
        i < j <= t@.len(),
    ensures
        res@ == hit_of(ch@, (i as int, j as int)),
{
    let n = t.len();
    let total = offs[n];
    proof {
        lemma_utf8_len_increasing(t@, i as int, (i + 1) as int);
        lemma_utf8_len_increasing(t@, (j - 1) as int, j as int);
        lemma_utf8_len_increasing(t@, j as int, n as int);
        assert(t@.take(n as int) =~= t@);
    }
    let b = offs[i];
    let lo_limit: usize = if b >= SNIPPET_CONTEXT {
        b - SNIPPET_CONTEXT
    } else {
        0
    };
    let mut lo: usize = i;
    while lo > 0 && offs[lo] > lo_limit
        invariant
            lo <= i,
            i < n,
            n == t@.len(),
            offs@.len() == n + 1,
            forall|m: int| 0 <= m <= n ==> #[trigger] offs@[m] == utf8_len(t@.take(m)),
            offs@[lo + 1] > lo_limit,
        decreases lo,
    {
        lo = lo - 1;
    }
    proof {
        assert(t@.take(0) =~= Seq::<char>::empty());
        lemma_floor_unique(t@, lo_limit as int, lo as int);
    }
    let e = offs[j];
    let hi_limit: usize = if total - e >= SNIPPET_CONTEXT {
        e + SNIPPET_CONTEXT
    } else {
        total
    };
    let mut hi: usize = j;
    while hi < n && offs[hi] < hi_limit
        invariant
            j <= hi <= n,
            j >= 1,
            n == t@.len(),
            offs@.len() == n + 1,
            forall|m: int| 0 <= m <= n ==> #[trigger] offs@[m] == utf8_len(t@.take(m)),
            offs@[hi - 1] < hi_limit,
            hi_limit <= offs@[n as int],
        decreases n - hi,
    {
        hi = hi + 1;
    }
    proof {
        lemma_ceil_unique(t@, hi_limit as int, hi as int);
    }
    let snippet_chars = slice_range(t, lo, hi);
    SearchResult {
        chapter_index: ch.index,
        chapter_title: clone_opt_string(&ch.title),
        snippet: string_from_chars(snippet_chars.as_slice()),
        offset: b,
    }
}

// ---------------------------------------------------------------------------
// Searching the chapters
// ---------------------------------------------------------------------------

/// The first 30 entries of `s`.
pub open spec fn first_results(s: Seq<SearchResultView>) -> Seq<SearchResultView> {
    if s.len() <= MAX_RESULTS {
        s
    } else {
        s.take(MAX_RESULTS as int)
    }
}

/// The views of a sequence of chapter texts.
pub open spec fn chapter_views(chs: Seq<ChapterText>) -> Seq<ChapterTextView> {
    chs.map_values(|c: ChapterText| c@)
}

/// The views of a sequence of search results.
pub open spec fn result_views(rs: Seq<SearchResult>) -> Seq<SearchResultView> {
    rs.map_values(|r: SearchResult| r@)
}

/// Searches the chapters for `query`, ignoring case, and returns at most 30
/// hits in reading order, each with the byte offset of the match in its
/// chapter and a snippet of surrounding text.
#[verifier::spinoff_prover]
#[verifier::rlimit(40)]
pub fn search_chapters(chapters: Vec<ChapterText>, query: String) -> (res: Vec<SearchResult>)
    requires
        forall|c: int| 0 <= c < chapters@.len() ==> utf8_len(#[trigger] chapters@[c].plain_text@)
            <= usize::MAX,
    ensures
        result_views(res@) == search_spec(chapter_views(chapters@), query@),
{
    let query_chars = to_chars(query.as_str());
    let q = fold_chars(query_chars.as_slice());
    if q.len() == 0 {
        let empty: Vec<SearchResult> = Vec::new();
        assert(result_views(empty@) =~= Seq::<SearchResultView>::empty());
        return empty;
    }
    let ghost chs = chapter_views(chapters@);
    let mut results: Vec<SearchResult> = Vec::new();
    let mut c: usize = 0;
    assert(chs.take(0) =~= Seq::<ChapterTextView>::empty());
    assert(result_views(results@) =~= first_results(all_hits(chs.take(0), q@)));
    while c < chapters.len() && results.len() < MAX_RESULTS
        invariant
            c <= chapters@.len(),
            chs == chapter_views(chapters@),
            chs.len() == chapters@.len(),
            q@ == fold_case(query@),
            q@.len() > 0,
            forall|k: int| 0 <= k < chapters@.len() ==> utf8_len(#[trigger] chapters@[k].plain_text@)
                <= usize::MAX,
            result_views(results@) == first_results(all_hits(chs.take(c as int), q@)),
        decreases chapters@.len() - c,
    {
        let ch = &chapters[c];
        let t = to_chars(ch.plain_text.as_str());
        let offs = utf8_offsets(t.as_slice());
        let matches = match_spans(t.as_slice(), q.as_slice());
        let ghost before = all_hits(chs.take(c as int), q@);
        let ghost hits = chapter_hits(chs[c as int], q@);
        let ghost spans = scan(t@, q@, 0);
        proof {
            assert(chs[c as int] == ch@);
            assert(hits.len() == matches@.len());
            assert(result_views(results@).len() < MAX_RESULTS);
            assert(result_views(results@) =~= before + hits.take(0));
        }
        let mut k: usize = 0;
        while k < matches.len() && results.len() < MAX_RESULTS
            invariant
                k <= matches@.len(),
                hits.len() == matches@.len(),
                spans.len() == matches@.len(),
                spans == scan(t@, q@, 0),
                matches@.map_values(|p: (usize, usize)| (p.0 as int, p.1 as int)) == spans,
                hits == chapter_hits(ch@, q@),
                t@ == ch.plain_text@,
                offs@.len() == t@.len() + 1,
                forall|m: int| 0 <= m <= t@.len() ==> #[trigger] offs@[m] == utf8_len(t@.take(m)),
                results@.len() <= MAX_RESULTS,
                result_views(results@) == before + hits.take(k as int),
                (before + hits.take(k as int)).len() <= MAX_RESULTS,
            decreases matches@.len() - k,
        {
            let (i, j) = matches[k];
            proof {
                assert(spans[k as int] == (i as int, j as int));
                lemma_scan_spans(t@, q@, 0, k as int);
            }
            let hit = make_hit(ch, t.as_slice(), &offs, i, j);
            let ghost prev = results@;
            results.push(hit);
            k = k + 1;
            proof {
                assert(hits[k - 1] == hit_of(ch@, (i as int, j as int)));
                assert(hits.take(k as int) =~= hits.take(k - 1).push(hits[k - 1]));
                assert(result_views(results@) =~= result_views(prev).push(hit@));
                assert(result_views(results@) =~= before + hits.take(k as int));
            }
        }
        proof {
            assert(chs.take(c + 1).drop_last() =~= chs.take(c as int));
            assert(all_hits(chs.take(c + 1), q@) == before + hits);
            if k == matches.len() {
                assert(hits.take(k as int) =~= hits);
            } else {
                assert((before + hits.take(k as int)).is_prefix_of(before + hits));
                assert((before + hits).take(MAX_RESULTS as int) =~= before + hits.take(k as int));
            }
        }
        c = c + 1;
    }
    proof {
        if c < chapters.len() {
            lemma_all_hits_prefix(chs, q@, c as int, chs.len() as int);
            let full = all_hits(chs, q@);
            let part = all_hits(chs.take(c as int), q@);
            assert(chs.take(chs.len() as int) =~= chs);
            assert(full.take(MAX_RESULTS as int) =~= part.take(MAX_RESULTS as int));
        } else {
            assert(chs.take(c as int) =~= chs);
        }
    }
    results
}

/// What searching the open book for `query` returns: nothing for a blank
/// query, else the hits of `search_spec`.
pub open spec fn book_search(chs: Seq<ChapterTextView>, query: Seq<char>) -> Seq<SearchResultView> {
    if trim(query).len() == 0 {
        Seq::empty()
    } else {
        search_spec(chs, query)
    }
}

/// Searches the chapters of the open book; a query of only whitespace finds
/// nothing.
pub fn search_book(chapters: Vec<ChapterText>, query: String) -> (res: Vec<SearchResult>)
    requires
        forall|c: int| 0 <= c < chapters@.len() ==> utf8_len(#[trigger] chapters@[c].plain_text@)
            <= usize::MAX,
    ensures
        result_views(res@) == book_search(chapter_views(chapters@), query@),
{
    if trim_chars(to_chars(query.as_str()).as_slice()).len() == 0 {
        let empty: Vec<SearchResult> = Vec::new();
        assert(result_views(empty@) =~= Seq::<SearchResultView>::empty());
        return empty;
    }
    search_chapters(chapters, query)
}

/// Every span that a scan reports lies inside the text and is not empty.
proof fn lemma_scan_spans(t: Seq<char>, q: Seq<char>, i: int, k: int)
    requires
        0 <= k < scan(t, q, i).len(),
    ensures
        0 <= scan(t, q, i)[k].0 < scan(t, q, i)[k].1 <= t.len(),
    decreases t.len() - i,
{
    if i < 0 || i >= t.len() {
    } else if has_match(t, q, i) {
        let e = match_end(t, q, i);
        assert(is_first_match(t, q, i, e));
        if k > 0 {
            lemma_scan_spans(t, q, e, k - 1);
        }
    } else {
        lemma_scan_spans(t, q, i + 1, k);
    }
}

/// The hits of the first chapters are a prefix of the hits of more chapters.
proof fn lemma_all_hits_prefix(chs: Seq<ChapterTextView>, q: Seq<char>, c: int, d: int)
    requires
        0 <= c <= d <= chs.len(),
    ensures
        all_hits(chs.take(c), q).is_prefix_of(all_hits(chs.take(d), q)),
    decreases d - c,
{
    if c < d {
        lemma_all_hits_prefix(chs, q, c, d - 1);
        assert(chs.take(d).drop_last() =~= chs.take(d - 1));
    }
}

// ---------------------------------------------------------------------------
// Laws
// ---------------------------------------------------------------------------

/// Every span that a scan from `i` reports is the shortest match of the query
/// at its start, lies at or after `i`, and the spans come in text order
/// without overlapping.
pub proof fn law_scan_matches_ordered(t: Seq<char>, q: Seq<char>, i: int)
    requires
        0 <= i,
    ensures
        forall|k: int| 0 <= k < scan(t, q, i).len() ==> is_first_match(t, q, #[trigger] scan(t, q, i)[k].0, scan(t, q, i)[k].1)
            && i <= scan(t, q, i)[k].0,
        forall|k1: int, k2: int| 0 <= k1 < k2 < scan(t, q, i).len() ==> #[trigger] scan(t, q, i)[k1].1 <= #[trigger] scan(t, q, i)[k2].0,
    decreases t.len() - i,
{
    if i >= t.len() {
    } else if has_match(t, q, i) {
        let e = match_end(t, q, i);
        assert(is_first_match(t, q, i, e));
        law_scan_matches_ordered(t, q, e);
        let rest = scan(t, q, e);
        let all = scan(t, q, i);
        assert(all == seq![(i, e)] + rest);
        assert forall|k: int| 0 <= k < all.len() implies is_first_match(t, q, #[trigger] all[k].0, all[k].1) && i <= all[k].0 by {
            if k > 0 {
                assert(all[k] == rest[k - 1]);
            }
        }
        assert forall|k1: int, k2: int| 0 <= k1 < k2 < all.len() implies #[trigger] all[k1].1 <= #[trigger] all[k2].0 by {
            assert(all[k2] == rest[k2 - 1]);
            if k1 > 0 {
                assert(all[k1] == rest[k1 - 1]);
            }
        }
    } else {
        law_scan_matches_ordered(t, q, i + 1);
        assert(scan(t, q, i) == scan(t, q, i + 1));
    }
}

/// A scan from `i` misses no match: every position at or after `i` where a
/// match starts lies within one of the reported spans.
pub proof fn law_scan_complete(t: Seq<char>, q: Seq<char>, i: int, p: int)
    requires
        0 <= i <= p < t.len(),
        has_match(t, q, p),
    ensures
        exists|k: int| 0 <= k < scan(t, q, i).len() && #[trigger] scan(t, q, i)[k].0 <= p < scan(t, q, i)[k].1,
    decreases t.len() - i,
{
    let all = scan(t, q, i);
    if has_match(t, q, i) {
        let e = match_end(t, q, i);
        assert(is_first_match(t, q, i, e));
        assert(all == seq![(i, e)] + scan(t, q, e));
        if p < e {
            assert(all[0] == (i, e));
            assert(0 <= 0 < all.len() && all[0].0 <= p < all[0].1);
        } else {
            law_scan_complete(t, q, e, p);
            let k = choose|k: int| 0 <= k < scan(t, q, e).len() && #[trigger] scan(t, q, e)[k].0 <= p < scan(t, q, e)[k].1;
            assert(all[k + 1] == scan(t, q, e)[k]);
        }
    } else {
        assert(p != i);
        law_scan_complete(t, q, i + 1, p);
        assert(all == scan(t, q, i + 1));
        let k = choose|k: int| 0 <= k < scan(t, q, i + 1).len() && #[trigger] scan(t, q, i + 1)[k].0 <= p < scan(t, q, i + 1)[k].1;
        assert(all[k] == scan(t, q, i + 1)[k]);
    }
}

/// How many matches of `q` the chapters hold in all: the lengths of the
/// scans of the chapters, added up.
pub open spec fn total_matches(chs: Seq<ChapterTextView>, q: Seq<char>) -> nat
    decreases chs.len(),
{
    if chs.len() == 0 {
        0
    } else {
        total_matches(chs.drop_last(), q) + scan(chs.last().plain_text, q, 0).len()
    }
}

/// The hits of all chapters number as many as their matches.
proof fn lemma_all_hits_len(chs: Seq<ChapterTextView>, q: Seq<char>)
    ensures
        all_hits(chs, q).len() == total_matches(chs, q),
    decreases chs.len(),
{
    if chs.len() > 0 {
        lemma_all_hits_len(chs.drop_last(), q);
    }
}

/// Hit number `total_matches(chs.take(c), q) + k` is the hit of the `k`-th
/// match of chapter `c`.
proof fn lemma_hit_at(chs: Seq<ChapterTextView>, q: Seq<char>, c: int, k: int)
    requires
        0 <= c < chs.len(),
        0 <= k < scan(chs[c].plain_text, q, 0).len(),
    ensures
        all_hits(chs, q)[total_matches(chs.take(c), q) + k] == hit_of(chs[c], scan(chs[c].plain_text, q, 0)[k]),
        total_matches(chs.take(c), q) + k < all_hits(chs, q).len(),
    decreases chs.len(),
{
    let init = chs.drop_last();
    let before = all_hits(init, q);
    let hits = chapter_hits(chs.last(), q);
    lemma_all_hits_len(init, q);
    lemma_all_hits_len(chs, q);
    assert(all_hits(chs, q) == before + hits);
    if c < chs.len() - 1 {
        lemma_hit_at(init, q, c, k);
        assert(chs.take(c) =~= init.take(c));
        assert(chs[c] == init[c]);
        let idx = total_matches(init.take(c), q) + k;
        assert(all_hits(chs, q)[idx] == before[idx]);
    } else {
        assert(chs.take(c) =~= init);
        let idx = total_matches(init, q) + k;
        assert(all_hits(chs, q)[idx] == hits[k]);
    }
}

/// Hit number `total_matches(chs.take(c), q) + k` exists and comes from the
/// `k`-th match of chapter `c`: it carries that chapter's index and title,
/// the byte offset where the match starts and the match's snippet.
pub open spec fn hit_reports_match(chs: Seq<ChapterTextView>, q: Seq<char>, c: int, k: int) -> bool {
    let i = total_matches(chs.take(c), q) + k;
    let m = scan(chs[c].plain_text, q, 0)[k];
    &&& i < all_hits(chs, q).len()
    &&& all_hits(chs, q)[i].chapter_index == chs[c].index
    &&& all_hits(chs, q)[i].chapter_title == chs[c].title
    &&& all_hits(chs, q)[i].offset == utf8_len(chs[c].plain_text.take(m.0))
    &&& all_hits(chs, q)[i].snippet == snippet_of(chs[c].plain_text, m.0, m.1)
}

/// Every match of every chapter gives a hit, in order: there are as many
/// hits as matches, and the hits of chapter `c` follow those of the chapters
/// before it, one per match, in the order of the matches.
pub proof fn law_all_hits_every_match(chs: Seq<ChapterTextView>, q: Seq<char>)
    ensures
        all_hits(chs, q).len() == total_matches(chs, q),
        forall|c: int, k: int|
            0 <= c < chs.len() && 0 <= k < scan(chs[c].plain_text, q, 0).len() ==> #[trigger] hit_reports_match(chs, q, c, k),
{
    lemma_all_hits_len(chs, q);
    assert forall|c: int, k: int|
        0 <= c < chs.len() && 0 <= k < scan(chs[c].plain_text, q, 0).len() implies #[trigger] hit_reports_match(chs, q, c, k) by {
        lemma_hit_at(chs, q, c, k);
    }
}

/// A search for a query with a non-empty lower-case form returns one hit per
/// match in the chapters, up to 30: no chapter gives fewer hits than it has
/// matches while the limit is not reached.
pub proof fn law_search_counts_every_match(chs: Seq<ChapterTextView>, query: Seq<char>)
    requires
        fold_case(query).len() > 0,
    ensures
        search_spec(chs, query).len() == if total_matches(chs, fold_case(query)) <= MAX_RESULTS {
            total_matches(chs, fold_case(query)) as int
        } else {
            MAX_RESULTS as int
        },
        search_spec(chs, query) == all_hits(chs, fold_case(query)).take(search_spec(chs, query).len() as int),
{
    law_all_hits_every_match(chs, fold_case(query));
    let hits = all_hits(chs, fold_case(query));
    assert(hits.take(hits.len() as int) =~= hits);
}

/// A search returns at most 30 hits, and none for a query whose lower-case
/// form is empty.
pub proof fn law_search_bounded(chs: Seq<ChapterTextView>, query: Seq<char>)
    ensures
        search_spec(chs, query).len() <= MAX_RESULTS,
        fold_case(query).len() == 0 ==> search_spec(chs, query).len() == 0,
{
}

} // verus!
