//! Chapter titles: from the table of contents, from the chapter's own
//! `<title>`, or numbered.
use vstd::prelude::*;

use crate::text::{
    chars_eq, decimal, decimal_chars, digits_value, extend_from, find_chars, find_first,
    is_digit, lemma_find_from, parse_digits, slice_from, slice_range, starts_with_chars,
    str_chars, str_lowercase, string_from_chars, to_chars, to_lowercase, trim, trim_chars,
};

verus! {

/// The trimmed text between the first `<title>` and the first `</title>`
/// after it, unless that is empty.
pub open spec fn html_title(html: Seq<char>) -> Option<Seq<char>> {
    match find_first(html, "<title>"@) {
        None => None,
        Some(s) => {
            let after = html.skip(s + 7);
            match find_first(after, "</title>"@) {
                None => None,
                Some(e) => {
                    let t = trim(after.take(e));
                    if t.len() == 0 {
                        None
                    } else {
                        Some(t)
                    }
                },
            }
        },
    }
}

/// The text of the HTML document's `<title>` element.
pub fn extract_html_title(html: &str) -> (res: Option<String>)
    ensures
        match res {
            Some(t) => html_title(html@) == Some(t@),
            None => html_title(html@) is None,
        },
{
    let h = to_chars(html);
    let open = str_chars("<title>");
    proof {
        reveal_strlit("<title>");
    }
    let start = find_chars(h.as_slice(), open.as_slice())?;
    proof {
        lemma_find_from(h@, open@, 0);
    }
    let n = h.len();
    assert(open@.len() == 7);
    assert(start + 7 <= n);
    let after = slice_from(h.as_slice(), start + 7);
    let close = str_chars("</title>");
    let end = find_chars(after.as_slice(), close.as_slice())?;
    proof {
        lemma_find_from(after@, close@, 0);
    }
    let inner = slice_range(after.as_slice(), 0, end);
    let t = trim_chars(inner.as_slice());
    if t.len() == 0 {
        None
    } else {
        Some(string_from_chars(t.as_slice()))
    }
}

/// The words that mark a generic chapter title, tried in this order.
pub open spec fn title_prefixes() -> Seq<Seq<char>> {
    seq!["chapter"@, "chap"@, "section"@, "part"@, "item"@, "sec"@, "ch"@]
}

/// The first of the generic title words, from position `k` of the list on,
/// that starts `lower`.
pub open spec fn first_title_prefix(lower: Seq<char>, k: int) -> Option<int>
    decreases title_prefixes().len() - k,
{
    if k < 0 || k >= title_prefixes().len() {
        None
    } else if title_prefixes()[k].is_prefix_of(lower) {
        Some(k)
    } else {
        first_title_prefix(lower, k + 1)
    }
}

/// `s` from its first ASCII digit on.
pub open spec fn from_first_digit(s: Seq<char>) -> Seq<char>
    decreases s.len(),
{
    if s.len() > 0 && !is_digit(s[0]) {
        from_first_digit(s.drop_first())
    } else {
        s
    }
}

/// The ASCII digits that start `s`.
pub open spec fn leading_digits(s: Seq<char>) -> Seq<char>
    decreases s.len(),
{
    if s.len() > 0 && is_digit(s[0]) {
        seq![s[0]] + leading_digits(s.drop_first())
    } else {
        Seq::empty()
    }
}

/// "Chapter " followed by the decimal form of `n`.
pub open spec fn numbered_title(n: nat) -> Seq<char> {
    "Chapter "@ + decimal(n)
}

/// The cleaned form of a chapter's `<title>`: nothing when it is blank; a
/// numbered title when it starts (in lower case) with a generic word such as
/// "chapter" or "part" (the number that follows the word, else
/// `fallback_number`); the trimmed title otherwise.
pub open spec fn cleaned_title(title: Seq<char>, fallback_number: nat) -> Option<Seq<char>> {
    let trimmed = trim(title);
    if trimmed.len() == 0 {
        None
    } else {
        let lower = str_lowercase(trimmed);
        match first_title_prefix(lower, 0) {
            None => Some(trimmed),
            Some(k) => {
                let rest = from_first_digit(lower.skip(title_prefixes()[k].len() as int));
                let digits = leading_digits(rest);
                if rest.len() > 0 && digits_value(digits) <= usize::MAX {
                    Some(numbered_title(digits_value(digits)))
                } else {
                    Some(numbered_title(fallback_number))
                }
            },
        }
    }
}

/// The generic title words, as character vectors.
fn title_prefix_chars() -> (res: Vec<Vec<char>>)
    ensures
        res@.map_values(|v: Vec<char>| v@) == title_prefixes(),
{
    let res = vec![
        str_chars("chapter"),
        str_chars("chap"),
        str_chars("section"),
        str_chars("part"),
        str_chars("item"),
        str_chars("sec"),
        str_chars("ch"),
    ];
    assert(res@.map_values(|v: Vec<char>| v@) =~= title_prefixes());
    res
}

/// "Chapter " followed by the decimal form of `n`.
pub fn chapter_number_title(n: usize) -> (res: String)
    ensures
        res@ == numbered_title(n as nat),
{
    let mut out = str_chars("Chapter ");
    extend_from(&mut out, decimal_chars(n as u64).as_slice());
    string_from_chars(out.as_slice())
}

proof fn lemma_leading_digits(s: Seq<char>)
    ensures
        leading_digits(s).len() <= s.len(),
        leading_digits(s) == s.take(leading_digits(s).len() as int),
        forall|i: int| 0 <= i < leading_digits(s).len() ==> is_digit(#[trigger] leading_digits(s)[i]),
        leading_digits(s).len() < s.len() ==> !is_digit(s[leading_digits(s).len() as int]),
    decreases s.len(),
{
    if s.len() > 0 && is_digit(s[0]) {
        lemma_leading_digits(s.drop_first());
        assert(leading_digits(s) =~= s.take(leading_digits(s).len() as int));
    }
}

proof fn lemma_from_first_digit(s: Seq<char>)
    ensures
        from_first_digit(s).len() > 0 ==> is_digit(from_first_digit(s)[0]),
        from_first_digit(s).is_suffix_of(s),
    decreases s.len(),
{
    if s.len() > 0 && !is_digit(s[0]) {
        lemma_from_first_digit(s.drop_first());
        let r = from_first_digit(s.drop_first());
        assert(r =~= s.subrange(s.len() - r.len(), s.len() as int));
    } else {
        assert(s =~= s.subrange(0, s.len() as int));
    }
}

/// Normalizes a chapter's `<title>`: generic titles become "Chapter N".
pub fn clean_chapter_title(title: &str, fallback_number: usize) -> (res: Option<String>)
    ensures
        match res {
            Some(t) => cleaned_title(title@, fallback_number as nat) == Some(t@),
            None => cleaned_title(title@, fallback_number as nat) is None,
        },
{
    let chars = to_chars(title);
    let trimmed = trim_chars(chars.as_slice());
    if trimmed.len() == 0 {
        return None;
    }
    let trimmed_str = string_from_chars(trimmed.as_slice());
    let lower_str = to_lowercase(trimmed_str.as_str());
    let lower = to_chars(lower_str.as_str());
    let prefixes = title_prefix_chars();
    let mut k: usize = 0;
    while k < prefixes.len()
        invariant
            k <= prefixes@.len(),
            prefixes@.map_values(|v: Vec<char>| v@) == title_prefixes(),
            lower@ == str_lowercase(trim(title@)),
            trimmed@ == trim(title@),
            trimmed@.len() > 0,
            first_title_prefix(lower@, k as int) == first_title_prefix(lower@, 0),
        decreases prefixes@.len() - k,
    {
        assert(prefixes@[k as int]@ == title_prefixes()[k as int]);
        if starts_with_chars(lower.as_slice(), prefixes[k].as_slice()) {
            let stripped = slice_from(lower.as_slice(), prefixes[k].len());
            let mut d: usize = 0;
            assert(stripped@.skip(0) =~= stripped@);
            while d < stripped.len() && !('0' <= stripped[d] && stripped[d] <= '9')
                invariant
                    d <= stripped@.len(),
                    from_first_digit(stripped@.skip(d as int)) == from_first_digit(stripped@),
                decreases stripped@.len() - d,
            {
                assert(stripped@.skip(d as int).drop_first() =~= stripped@.skip(d + 1));
                d = d + 1;
            }
            let rest = slice_from(stripped.as_slice(), d);
            proof {
                lemma_from_first_digit(stripped@);
            }
            if rest.len() > 0 && '0' <= rest[0] && rest[0] <= '9' {
                let mut e: usize = 0;
                while e < rest.len() && '0' <= rest[e] && rest[e] <= '9'
                    invariant
                        e <= rest@.len(),
                        forall|i: int| 0 <= i < e ==> is_digit(#[trigger] rest@[i]),
                    decreases rest@.len() - e,
                {
                    e = e + 1;
                }
                let digits = slice_range(rest.as_slice(), 0, e);
                proof {
                    lemma_leading_digits(rest@);
                    let ld = leading_digits(rest@);
                    if ld.len() < e {
                        assert(is_digit(rest@[ld.len() as int]));
                    } else if ld.len() > e {
                        assert(is_digit(ld[e as int]));
                        assert(ld[e as int] == rest@[e as int]);
                    }
                    assert(digits@ =~= leading_digits(rest@));
                }
                if let Some(n) = parse_digits(digits.as_slice()) {
                    return Some(chapter_number_title(n));
                }
            }
            return Some(chapter_number_title(fallback_number));
        }
        k = k + 1;
    }
    Some(trimmed_str)
}

/// The labels that stand for no real chapter title.
pub open spec fn placeholder_titles() -> Seq<Seq<char>> {
    seq!["unnamed"@, "unamed"@, "untitled"@, "unknown"@, "no title"@, "none"@]
}

/// Whether a label is a placeholder: blank, a generic word such as
/// "untitled", or the book's own title (compared in lower case after trimming).
pub open spec fn is_placeholder_spec(label: Seq<char>, book_title_lower: Seq<char>) -> bool {
    let lower = str_lowercase(trim(label));
    lower.len() == 0 || placeholder_titles().contains(lower) || lower == book_title_lower
}

/// Whether a chapter label is a placeholder for the book whose lower-cased,
/// trimmed title is `book_title_lower`.
pub fn is_placeholder(label: &str, book_title_lower: &[char]) -> (res: bool)
    ensures
        res == is_placeholder_spec(label@, book_title_lower@),
{
    let chars = to_chars(label);
    let trimmed = string_from_chars(trim_chars(chars.as_slice()).as_slice());
    let lower_str = to_lowercase(trimmed.as_str());
    let lower = to_chars(lower_str.as_str());
    if lower.len() == 0 {
        return true;
    }
    let words = vec![
        str_chars("unnamed"),
        str_chars("unamed"),
        str_chars("untitled"),
        str_chars("unknown"),
        str_chars("no title"),
        str_chars("none"),
    ];
    assert(words@.map_values(|v: Vec<char>| v@) =~= placeholder_titles());
    let mut k: usize = 0;
    while k < words.len()
        invariant
            k <= words@.len(),
            words@.map_values(|v: Vec<char>| v@) == placeholder_titles(),
            lower@ == str_lowercase(trim(label@)),
            forall|j: int| 0 <= j < k ==> placeholder_titles()[j] != lower@,
        decreases words@.len() - k,
    {
        assert(words@[k as int]@ == placeholder_titles()[k as int]);
        if chars_eq(words[k].as_slice(), lower.as_slice()) {
            assert(placeholder_titles()[k as int] == lower@);
            assert(placeholder_titles().contains(lower@));
            return true;
        }
        k = k + 1;
    }
    chars_eq(lower.as_slice(), book_title_lower)
}

} // verus!
