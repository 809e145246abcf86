//! Character-level text primitives shared by the adapters, the search and the
//! state code: Unicode whitespace, trimming, ASCII case folding, searching and
//! splitting, decimal numbers, and the conversions between `str`, `String` and
//! character vectors.
use vstd::prelude::*;

verus! {

// ---------------------------------------------------------------------------
// Unicode whitespace and trimming
// ---------------------------------------------------------------------------

/// The Unicode `White_Space` property, the set that `char::is_whitespace`
/// and the `trim` family of `str` use.
pub open spec fn is_ws(c: char) -> bool {
    ||| ('\u{9}' <= c && c <= '\u{d}')
    ||| c == ' '
    ||| c == '\u{85}'
    ||| c == '\u{a0}'
    ||| c == '\u{1680}'
    ||| ('\u{2000}' <= c && c <= '\u{200a}')
    ||| c == '\u{2028}'
    ||| c == '\u{2029}'
    ||| c == '\u{202f}'
    ||| c == '\u{205f}'
    ||| c == '\u{3000}'
}

/// `s` without its leading whitespace.
pub open spec fn trim_start(s: Seq<char>) -> Seq<char>
    decreases s.len(),
{
    if s.len() > 0 && is_ws(s[0]) {
        trim_start(s.drop_first())
    } else {
        s
    }
}

/// `s` without its trailing whitespace.
pub open spec fn trim_end(s: Seq<char>) -> Seq<char>
    decreases s.len(),
{
    if s.len() > 0 && is_ws(s.last()) {
        trim_end(s.drop_last())
    } else {
        s
    }
}

/// `s` without leading and trailing whitespace.
pub open spec fn trim(s: Seq<char>) -> Seq<char> {
    trim_end(trim_start(s))
}

/// Whether `c` is Unicode whitespace.
pub fn is_whitespace(c: char) -> (res: bool)
    ensures
        res == is_ws(c),
{
    ('\u{9}' <= c && c <= '\u{d}') || c == ' ' || c == '\u{85}' || c == '\u{a0}' || c == '\u{1680}'
        || ('\u{2000}' <= c && c <= '\u{200a}') || c == '\u{2028}' || c == '\u{2029}' || c
        == '\u{202f}' || c == '\u{205f}' || c == '\u{3000}'
}

/// The number of leading whitespace characters of `s`.
pub fn leading_ws_len(s: &[char]) -> (k: usize)
    ensures
        k <= s@.len(),
        s@.skip(k as int) == trim_start(s@),
{
    let mut i: usize = 0;
    assert(s@.skip(0) =~= s@);
    while i < s.len() && is_whitespace(s[i])
        invariant
            i <= s@.len(),
            trim_start(s@.skip(i as int)) == trim_start(s@),
        decreases s@.len() - i,
    {
        assert(s@.skip(i as int).drop_first() =~= s@.skip(i + 1));
        i = i + 1;
    }
    i
}

/// The length of `s` without its trailing whitespace.
pub fn trimmed_end_len(s: &[char]) -> (k: usize)
    ensures
        k <= s@.len(),
        s@.take(k as int) == trim_end(s@),
{
    let mut k: usize = s.len();
    assert(s@.take(k as int) =~= s@);
    while k > 0 && is_whitespace(s[k - 1])
        invariant
            k <= s@.len(),
            trim_end(s@.take(k as int)) == trim_end(s@),
        decreases k,
    {
        assert(s@.take(k as int).drop_last() =~= s@.take(k - 1));
        k = k - 1;
    }
    k
}

/// `s` with leading and trailing whitespace removed.
pub fn trim_chars(s: &[char]) -> (res: Vec<char>)
    ensures
        res@ == trim(s@),
{
    let start = leading_ws_len(s);
    let rest = slice_from(s, start);
    let end = trimmed_end_len(rest.as_slice());
    slice_range(rest.as_slice(), 0, end)
}

/// `s` with leading whitespace removed.
pub fn trim_start_chars(s: &[char]) -> (res: Vec<char>)
    ensures
        res@ == trim_start(s@),
{
    let start = leading_ws_len(s);
    slice_from(s, start)
}

// ---------------------------------------------------------------------------
// Copying and slicing
// ---------------------------------------------------------------------------

/// Copies the characters of a string slice into a vector.
pub fn to_chars(s: &str) -> (res: Vec<char>)
    ensures
        res@ == s@,
{
    let mut res: Vec<char> = Vec::new();
    for c in it: s.chars()
        invariant
            res@ == it.seq().take(it.index() as int),
            it.seq() == s@,
    {
        res.push(c);
    }
    res
}

/// The characters `s[from..to]`.
pub fn slice_range<T: Copy>(s: &[T], from: usize, to: usize) -> (res: Vec<T>)
    requires
        from <= to <= s@.len(),
    ensures
        res@ == s@.subrange(from as int, to as int),
{
    let mut res: Vec<T> = Vec::new();
    let mut i = from;
    while i < to
        invariant
            from <= i <= to <= s@.len(),
            res@ == s@.subrange(from as int, i as int),
        decreases to - i,
    {
        res.push(s[i]);
        i = i + 1;
    }
    res
}

/// The characters `s[from..]`.
pub fn slice_from<T: Copy>(s: &[T], from: usize) -> (res: Vec<T>)
    requires
        from <= s@.len(),
    ensures
        res@ == s@.skip(from as int),
{
    slice_range(s, from, s.len())
}

/// Appends all of `t` to `v`.
pub fn extend_from<T: Copy>(v: &mut Vec<T>, t: &[T])
    ensures
        final(v)@ == old(v)@ + t@,
{
    let ghost start = v@;
    let mut i: usize = 0;
    while i < t.len()
        invariant
            i <= t@.len(),
            v@ == start + t@.take(i as int),
        decreases t@.len() - i,
    {
        v.push(t[i]);
        i = i + 1;
        assert(v@ =~= start + t@.take(i as int));
    }
    assert(t@.take(t@.len() as int) =~= t@);
}

/// Whether two character sequences are equal.
pub fn chars_eq(a: &[char], b: &[char]) -> (res: bool)
    ensures
        res == (a@ == b@),
{
    if a.len() != b.len() {
        return false;
    }
    let mut i: usize = 0;
    while i < a.len()
        invariant
            a@.len() == b@.len(),
            i <= a@.len(),
            a@.take(i as int) == b@.take(i as int),
        decreases a@.len() - i,
    {
        if a[i] != b[i] {
            assert(a@.take(i + 1)[i as int] != b@.take(i + 1)[i as int]);
            return false;
        }
        i = i + 1;
        assert(a@.take(i as int) =~= b@.take(i as int));
    }
    assert(a@ =~= a@.take(a@.len() as int));
    assert(b@ =~= b@.take(b@.len() as int));
    true
}

/// Builds a `String` from the characters of `v`.
#[verifier::external_body]
pub(crate) fn string_from_chars(v: &[char]) -> (res: String)
    ensures
        res@ == v@,
{
    v.iter().collect()
}

// ---------------------------------------------------------------------------
// Prefixes, suffixes and searching
// ---------------------------------------------------------------------------

/// Whether `p` occurs in `s` starting at index `i`.
pub open spec fn occurs_at(s: Seq<char>, p: Seq<char>, i: int) -> bool {
    0 <= i && i + p.len() <= s.len() && s.subrange(i, i + p.len()) == p
}

/// The first index at or after `from` where `p` occurs in `s`.
pub open spec fn find_from(s: Seq<char>, p: Seq<char>, from: int) -> Option<int>
    decreases s.len() + 1 - from,
{
    if from < 0 || from + p.len() > s.len() {
        None
    } else if occurs_at(s, p, from) {
        Some(from)
    } else {
        find_from(s, p, from + 1)
    }
}

/// The first index where `p` occurs in `s`.
pub open spec fn find_first(s: Seq<char>, p: Seq<char>) -> Option<int> {
    find_from(s, p, 0)
}

/// A found occurrence lies at or after the start of the search and is an occurrence.
pub proof fn lemma_find_from(s: Seq<char>, p: Seq<char>, from: int)
    requires
        0 <= from,
    ensures
        find_from(s, p, from) matches Some(i) ==> from <= i && occurs_at(s, p, i),
        find_from(s, p, from) matches Some(i) ==> forall|j: int|
            from <= j < i ==> !occurs_at(s, p, j),
        find_from(s, p, from) is None ==> forall|j: int| from <= j ==> !occurs_at(s, p, j),
    decreases s.len() + 1 - from,
{
    if from < 0 || from + p.len() > s.len() {
    } else if occurs_at(s, p, from) {
    } else {
        lemma_find_from(s, p, from + 1);
        if find_from(s, p, from) is None {
            assert forall|j: int| from <= j implies !occurs_at(s, p, j) by {
                if j == from {
                }
            }
        } else {
            let i = find_from(s, p, from)->0;
            assert forall|j: int| from <= j < i implies !occurs_at(s, p, j) by {
                if j == from {
                }
            }
        }
    }
}

/// Whether `p` occurs in `s` at index `i`.
pub fn chars_occur_at(s: &[char], p: &[char], i: usize) -> (res: bool)
    ensures
        res == occurs_at(s@, p@, i as int),
{
    if i > s.len() || p.len() > s.len() - i {
        return false;
    }
    let n = s.len();
    let mut k: usize = 0;
    while k < p.len()
        invariant
            n == s@.len(),
            i <= s@.len(),
            i + p@.len() <= s@.len(),
            k <= p@.len(),
            forall|j: int| 0 <= j < k ==> s@[i + j] == p@[j],
        decreases p@.len() - k,
    {
        assert(i + k < s@.len());
        if s[i + k] != p[k] {
            assert(s@.subrange(i as int, i + p@.len())[k as int] != p@[k as int]);
            return false;
        }
        k = k + 1;
    }
    assert(s@.subrange(i as int, i + p@.len()) =~= p@);
    true
}

/// The first index at or after `from` where `p` occurs in `s`.
pub fn find_chars_from(s: &[char], p: &[char], from: usize) -> (res: Option<usize>)
    ensures
        res matches Some(i) ==> find_from(s@, p@, from as int) == Some(i as int),
        res is None ==> find_from(s@, p@, from as int) is None,
{
    let mut i = from;
    while i <= s.len() && p.len() <= s.len() - i
        invariant
            from <= i,
            find_from(s@, p@, from as int) == find_from(s@, p@, i as int),
        decreases s@.len() + 1 - i,
    {
        if chars_occur_at(s, p, i) {
            return Some(i);
        }
        if i == s.len() {
            assert(find_from(s@, p@, i + 1) is None);
            return None;
        }
        i = i + 1;
    }
    None
}

/// The first index where `p` occurs in `s`.
pub fn find_chars(s: &[char], p: &[char]) -> (res: Option<usize>)
    ensures
        res matches Some(i) ==> find_first(s@, p@) == Some(i as int),
        res is None ==> find_first(s@, p@) is None,
{
    find_chars_from(s, p, 0)
}

/// Whether `p` is a prefix of `s`.
pub fn starts_with_chars(s: &[char], p: &[char]) -> (res: bool)
    ensures
        res == p@.is_prefix_of(s@),
{
    let r = chars_occur_at(s, p, 0);
    proof {
        if p@.len() <= s@.len() {
            assert(s@.subrange(0, p@.len() as int) == s@.subrange(0, (0 + p@.len()) as int));
        }
    }
    r
}

/// Whether `p` is a suffix of `s`.
pub fn ends_with_chars(s: &[char], p: &[char]) -> (res: bool)
    ensures
        res == p@.is_suffix_of(s@),
{
    if p.len() > s.len() {
        return false;
    }
    let r = chars_occur_at(s, p, s.len() - p.len());
    proof {
        assert(s@.subrange(s@.len() - p@.len(), s@.len() as int) == s@.subrange(
            (s@.len() - p@.len()) as int,
            (s@.len() - p@.len()) + p@.len(),
        ));
    }
    r
}

/// The characters of a string literal or other `&str`.
pub fn str_chars(s: &str) -> (res: Vec<char>)
    ensures
        res@ == s@,
{
    to_chars(s)
}

// ---------------------------------------------------------------------------
// ASCII case
// ---------------------------------------------------------------------------

/// `c` with ASCII upper-case letters mapped to lower case.
pub open spec fn ascii_lower(c: char) -> char {
    if 'A' <= c && c <= 'Z' {
        ((c as u32) + 32) as char
    } else {
        c
    }
}

/// `s` with ASCII upper-case letters mapped to lower case, as `to_ascii_lowercase` does.
pub open spec fn ascii_lower_seq(s: Seq<char>) -> Seq<char> {
    s.map_values(|c: char| ascii_lower(c))
}

/// Whether two sequences are equal when ASCII case is ignored.
pub open spec fn eq_ignore_ascii_case(a: Seq<char>, b: Seq<char>) -> bool {
    ascii_lower_seq(a) == ascii_lower_seq(b)
}

/// `c` with ASCII upper-case letters mapped to lower case.
pub fn ascii_lower_char(c: char) -> (res: char)
    ensures
        res == ascii_lower(c),
{
    if 'A' <= c && c <= 'Z' {
        let code: u32 = c as u32;
        char_from_ascii(code + 32)
    } else {
        c
    }
}

/// The character with ASCII code `code`.
fn char_from_ascii(code: u32) -> (res: char)
    requires
        code < 128,
    ensures
        res == code as char,
{
    let b: u8 = code as u8;
    b as char
}

/// `s` with ASCII upper-case letters mapped to lower case.
pub fn ascii_lower_chars(s: &[char]) -> (res: Vec<char>)
    ensures
        res@ == ascii_lower_seq(s@),
{
    let mut res: Vec<char> = Vec::new();
    let mut i: usize = 0;
    while i < s.len()
        invariant
            i <= s@.len(),
            res@ == ascii_lower_seq(s@.take(i as int)),
        decreases s@.len() - i,
    {
        res.push(ascii_lower_char(s[i]));
        i = i + 1;
        assert(ascii_lower_seq(s@.take(i as int)) =~= ascii_lower_seq(s@.take(i - 1)).push(
            ascii_lower(s@[i - 1]),
        ));
    }
    assert(s@.take(s@.len() as int) =~= s@);
    res
}

/// Whether two sequences are equal when ASCII case is ignored.
pub fn chars_eq_ignore_ascii_case(a: &[char], b: &[char]) -> (res: bool)
    ensures
        res == eq_ignore_ascii_case(a@, b@),
{
    let la = ascii_lower_chars(a);
    let lb = ascii_lower_chars(b);
    chars_eq(la.as_slice(), lb.as_slice())
}

/// Whether `c` is an ASCII digit.
pub open spec fn is_digit(c: char) -> bool {
    '0' <= c && c <= '9'
}

/// Whether `c` is an ASCII letter or digit.
pub open spec fn is_ascii_alnum(c: char) -> bool {
    is_digit(c) || ('a' <= c && c <= 'z') || ('A' <= c && c <= 'Z')
}

/// Whether `c` is ASCII whitespace as `u8::is_ascii_whitespace` defines it.
pub open spec fn is_ascii_ws(c: char) -> bool {
    c == ' ' || c == '\t' || c == '\n' || c == '\u{c}' || c == '\r'
}

// ---------------------------------------------------------------------------
// Decimal numbers
// ---------------------------------------------------------------------------

/// The decimal digit for `d < 10`.
pub open spec fn digit_char(d: nat) -> char {
    (('0' as u32) + d) as char
}

/// The decimal representation of `n`, without leading zeros.
pub open spec fn decimal(n: nat) -> Seq<char>
    decreases n,
{
    if n < 10 {
        seq![digit_char(n)]
    } else {
        decimal(n / 10).push(digit_char(n % 10))
    }
}

/// The value of a sequence of decimal digits.
pub open spec fn digits_value(s: Seq<char>) -> nat
    decreases s.len(),
{
    if s.len() == 0 {
        0
    } else {
        digits_value(s.drop_last()) * 10 + ((s.last() as u32) - ('0' as u32)) as nat
    }
}

/// The decimal representation of `n`.
pub fn decimal_chars(n: u64) -> (res: Vec<char>)
    ensures
        res@ == decimal(n as nat),
    decreases n,
{
    if n < 10 {
        let mut v: Vec<char> = Vec::new();
        v.push(char_from_ascii(48 + n as u32));
        v
    } else {
        let mut v = decimal_chars(n / 10);
        v.push(char_from_ascii(48 + (n % 10) as u32));
        v
    }
}

/// Parses a non-empty sequence of ASCII digits as a `usize`; `None` when the
/// value does not fit.
pub fn parse_digits(s: &[char]) -> (res: Option<usize>)
    requires
        s@.len() > 0,
        forall|i: int| 0 <= i < s@.len() ==> is_digit(#[trigger] s@[i]),
    ensures
        res matches Some(n) ==> n as nat == digits_value(s@),
        res is None ==> digits_value(s@) > usize::MAX,
{
    let mut acc: usize = 0;
    let mut i: usize = 0;
    while i < s.len()
        invariant
            i <= s@.len(),
            forall|j: int| 0 <= j < s@.len() ==> is_digit(#[trigger] s@[j]),
            acc as nat == digits_value(s@.take(i as int)),
        decreases s@.len() - i,
    {
        let d: u32 = (s[i] as u32) - 48;
        assert(s@.take(i + 1).drop_last() =~= s@.take(i as int));
        if acc > (usize::MAX - d as usize) / 10 {
            proof {
                lemma_digits_value_monotone(s@, (i + 1) as int);
            }
            return None;
        }
        acc = acc * 10 + d as usize;
        i = i + 1;
    }
    assert(s@.take(s@.len() as int) =~= s@);
    Some(acc)
}

/// The value of a digit sequence is at least the value of any of its prefixes.
pub proof fn lemma_digits_value_monotone(s: Seq<char>, k: int)
    requires
        0 <= k <= s.len(),
    ensures
        digits_value(s.take(k)) <= digits_value(s),
    decreases s.len() - k,
{
    if k < s.len() {
        lemma_digits_value_monotone(s, k + 1);
        assert(s.take(k + 1).drop_last() =~= s.take(k));
    } else {
        assert(s.take(k) =~= s);
    }
}

// ---------------------------------------------------------------------------
// Unicode lower case and UTF-8 widths
// ---------------------------------------------------------------------------

/// The characters that `char::to_lowercase` yields for `c`.
pub uninterp spec fn char_lowercase(c: char) -> Seq<char>;

/// What `str::to_lowercase` returns for `s`.
pub uninterp spec fn str_lowercase(s: Seq<char>) -> Seq<char>;

/// Calls `char::to_lowercase` and collects what it yields. The result is
/// named `char_lowercase(c)`; the standard documentation states that the
/// mapping is one or more characters, which is the only fact claimed of it.
#[verifier::external_body]
pub(crate) fn char_to_lowercase(c: char) -> (res: Vec<char>)
    ensures
        res@ == char_lowercase(c),
        res@.len() >= 1,
{
    c.to_lowercase().collect()
}

/// Calls `str::to_lowercase`; the result is named `str_lowercase(s@)` and
/// nothing more is claimed of it.
#[verifier::external_body]
pub(crate) fn to_lowercase(s: &str) -> (res: String)
    ensures
        res@ == str_lowercase(s@),
{
    s.to_lowercase()
}

/// The number of bytes of the UTF-8 encoding of `c`.
pub open spec fn utf8_width(c: char) -> nat {
    if (c as u32) < 0x80 {
        1
    } else if (c as u32) < 0x800 {
        2
    } else if (c as u32) < 0x10000 {
        3
    } else {
        4
    }
}

/// The number of bytes of the UTF-8 encoding of `s`.
pub open spec fn utf8_len(s: Seq<char>) -> nat
    decreases s.len(),
{
    if s.len() == 0 {
        0
    } else {
        utf8_len(s.drop_last()) + utf8_width(s.last())
    }
}

/// The UTF-8 width of `c`.
pub fn char_utf8_width(c: char) -> (res: usize)
    ensures
        res == utf8_width(c),
{
    let u: u32 = c as u32;
    if u < 0x80 {
        1
    } else if u < 0x800 {
        2
    } else if u < 0x10000 {
        3
    } else {
        4
    }
}

/// Byte offsets grow strictly with the number of characters.
pub proof fn lemma_utf8_len_increasing(s: Seq<char>, k: int, j: int)
    requires
        0 <= k <= j <= s.len(),
    ensures
        utf8_len(s.take(k)) <= utf8_len(s.take(j)),
        k < j ==> utf8_len(s.take(k)) < utf8_len(s.take(j)),
        utf8_len(s.take(j)) <= utf8_len(s),
{
    lemma_utf8_take_mono(s, k, j);
    lemma_utf8_take_mono(s, j, s.len() as int);
    assert(s.take(s.len() as int) =~= s);
}

proof fn lemma_utf8_take_mono(s: Seq<char>, k: int, j: int)
    requires
        0 <= k <= j <= s.len(),
    ensures
        utf8_len(s.take(k)) <= utf8_len(s.take(j)),
        k < j ==> utf8_len(s.take(k)) < utf8_len(s.take(j)),
    decreases j - k,
{
    if k < j {
        lemma_utf8_take_mono(s, k, j - 1);
        assert(s.take(j).drop_last() =~= s.take(j - 1));
    }
}

/// The byte offset of every character boundary of `s`: entry `m` is the
/// UTF-8 length of the first `m` characters.
pub fn utf8_offsets(s: &[char]) -> (res: Vec<usize>)
    requires
        utf8_len(s@) <= usize::MAX,
    ensures
        res@.len() == s@.len() + 1,
        forall|m: int| 0 <= m <= s@.len() ==> #[trigger] res@[m] == utf8_len(s@.take(m)),
{
    let mut res: Vec<usize> = Vec::new();
    let mut acc: usize = 0;
    res.push(0);
    assert(s@.take(0) =~= Seq::<char>::empty());
    let mut i: usize = 0;
    while i < s.len()
        invariant
            i <= s@.len(),
            utf8_len(s@) <= usize::MAX,
            acc == utf8_len(s@.take(i as int)),
            res@.len() == i + 1,
            forall|m: int| 0 <= m <= i ==> #[trigger] res@[m] == utf8_len(s@.take(m)),
        decreases s@.len() - i,
    {
        proof {
            lemma_utf8_len_increasing(s@, (i + 1) as int, s@.len() as int);
            assert(s@.take(i + 1).drop_last() =~= s@.take(i as int));
        }
        acc = acc + char_utf8_width(s[i]);
        res.push(acc);
        i = i + 1;
    }
    res
}

// ---------------------------------------------------------------------------
// Splitting
// ---------------------------------------------------------------------------

/// The pieces of `s` between the non-overlapping occurrences of `sep`, found
/// left to right, as `str::split` yields them (empty pieces included).
pub open spec fn split(s: Seq<char>, sep: Seq<char>) -> Seq<Seq<char>>
    decreases s.len(),
{
    if sep.len() == 0 {
        seq![s]
    } else {
        match find_first(s, sep) {
            None => seq![s],
            Some(i) => {
                proof {
                    lemma_find_from(s, sep, 0);
                }
                seq![s.take(i)] + split(s.skip(i + sep.len()), sep)
            },
        }
    }
}

/// Searching from `pos` is searching the suffix that starts there.
pub proof fn lemma_find_from_skip(s: Seq<char>, p: Seq<char>, pos: int, from: int)
    requires
        0 <= pos <= from,
        pos <= s.len(),
    ensures
        find_from(s, p, from) == (match find_from(s.skip(pos), p, from - pos) {
            Some(i) => Some(i + pos),
            None => None,
        }),
    decreases s.len() + 1 - from,
{
    let t = s.skip(pos);
    if from + p.len() > s.len() {
    } else {
        assert(s.subrange(from, from + p.len()) =~= t.subrange(from - pos, from - pos + p.len()));
        if !occurs_at(s, p, from) {
            lemma_find_from_skip(s, p, pos, from + 1);
        }
    }
}

/// Splits `s` at every non-overlapping occurrence of the non-empty `sep`.
pub fn split_chars(s: &[char], sep: &[char]) -> (res: Vec<Vec<char>>)
    requires
        sep@.len() > 0,
    ensures
        res@.map_values(|v: Vec<char>| v@) == split(s@, sep@),
{
    let mut pieces: Vec<Vec<char>> = Vec::new();
    let mut pos: usize = 0;
    assert(s@.skip(0) =~= s@);
    loop
        invariant
            pos <= s@.len(),
            sep@.len() > 0,
            pieces@.map_values(|v: Vec<char>| v@) + split(s@.skip(pos as int), sep@) == split(
                s@,
                sep@,
            ),
        decreases s@.len() - pos,
    {
        let ghost rest = s@.skip(pos as int);
        let ghost before = pieces@.map_values(|v: Vec<char>| v@);
        proof {
            lemma_find_from_skip(s@, sep@, pos as int, pos as int);
        }
        match find_chars_from(s, sep, pos) {
            None => {
                pieces.push(slice_from(s, pos));
                assert(pieces@.map_values(|v: Vec<char>| v@) =~= before + seq![rest]);
                return pieces;
            },
            Some(i) => {
                proof {
                    lemma_find_from(s@, sep@, pos as int);
                    assert(find_first(rest, sep@) == Some(i - pos));
                    assert(rest.take(i - pos) =~= s@.subrange(pos as int, i as int));
                    assert(rest.skip(i - pos + sep@.len()) =~= s@.skip(i + sep@.len()));
                }
                pieces.push(slice_range(s, pos, i));
                assert(pieces@.map_values(|v: Vec<char>| v@) =~= before + seq![
                    s@.subrange(pos as int, i as int),
                ]);
                let n = s.len();
                assert(i + sep@.len() <= n);
                pos = i + sep.len();
            },
        }
    }
}

// ---------------------------------------------------------------------------
// Joining and whitespace
// ---------------------------------------------------------------------------

/// The parts joined with `sep` between them.
pub open spec fn joined(parts: Seq<Seq<char>>, sep: char) -> Seq<char>
    decreases parts.len(),
{
    if parts.len() == 0 {
        Seq::empty()
    } else if parts.len() == 1 {
        parts[0]
    } else {
        joined(parts.drop_last(), sep) + seq![sep] + parts.last()
    }
}

/// The parts joined with `sep` between them.
pub fn join_chars(parts: &Vec<Vec<char>>, sep: char) -> (res: Vec<char>)
    ensures
        res@ == joined(parts@.map_values(|v: Vec<char>| v@), sep),
{
    let ghost pv = parts@.map_values(|v: Vec<char>| v@);
    let mut out: Vec<char> = Vec::new();
    let mut i: usize = 0;
    assert(pv.take(0) =~= Seq::<Seq<char>>::empty());
    while i < parts.len()
        invariant
            i <= parts@.len(),
            pv == parts@.map_values(|v: Vec<char>| v@),
            out@ == joined(pv.take(i as int), sep),
        decreases parts@.len() - i,
    {
        assert(parts@[i as int]@ == pv[i as int]);
        assert(pv.take(i + 1).drop_last() =~= pv.take(i as int));
        if i > 0 {
            out.push(sep);
        }
        extend_from(&mut out, parts[i].as_slice());
        proof {
            if i == 0 {
                assert(pv.take(1) =~= seq![pv[0]]);
                assert(out@ =~= pv[0]);
            } else {
                assert(out@ =~= joined(pv.take(i as int), sep) + seq![sep] + pv[i as int]);
            }
        }
        i = i + 1;
    }
    assert(pv.take(pv.len() as int) =~= pv);
    out
}

/// `s` with each run of whitespace replaced by one space.
pub open spec fn squeeze(s: Seq<char>) -> Seq<char>
    decreases s.len(),
{
    if s.len() == 0 {
        Seq::empty()
    } else {
        let p = squeeze(s.drop_last());
        let c = s.last();
        if is_ws(c) {
            if s.len() >= 2 && is_ws(s[s.len() - 2]) {
                p
            } else {
                p.push(' ')
            }
        } else {
            p.push(c)
        }
    }
}

/// The words of `s` (its maximal runs of non-whitespace) joined by single
/// spaces, as `split_whitespace` and `join(" ")` give them.
pub open spec fn normalized_ws(s: Seq<char>) -> Seq<char> {
    squeeze(trim(s))
}

/// The words of `s` joined by single spaces.
pub fn normalize_whitespace(s: &[char]) -> (res: Vec<char>)
    ensures
        res@ == normalized_ws(s@),
{
    let t = trim_chars(s);
    let mut out: Vec<char> = Vec::new();
    let mut i: usize = 0;
    assert(t@.take(0) =~= Seq::<char>::empty());
    while i < t.len()
        invariant
            i <= t@.len(),
            out@ == squeeze(t@.take(i as int)),
        decreases t@.len() - i,
    {
        let c = t[i];
        assert(t@.take(i + 1).drop_last() =~= t@.take(i as int));
        assert(t@.take(i + 1).last() == c);
        if is_whitespace(c) {
            if i >= 1 && is_whitespace(t[i - 1]) {
                assert(t@.take(i + 1)[i - 1] == t@[i - 1]);
            } else {
                out.push(' ');
            }
        } else {
            out.push(c);
        }
        i = i + 1;
    }
    assert(t@.take(t@.len() as int) =~= t@);
    out
}

/// The message of the `Utf8Error` that `std::str::from_utf8` reports for `raw`.
pub uninterp spec fn utf8_error_message(raw: Seq<u8>) -> Seq<char>;

/// Calls `std::str::from_utf8`: it succeeds exactly on valid UTF-8, and then
/// the text is the decoding of the bytes; otherwise the error's message is
/// named `utf8_error_message`.
#[verifier::external_body]
pub(crate) fn str_from_utf8(raw: &[u8]) -> (res: Result<String, String>)
    ensures
        res is Ok <==> vstd::utf8::valid_utf8(raw@),
        res matches Ok(s) ==> s@ == vstd::utf8::decode_utf8(raw@),
        res matches Err(m) ==> m@ == utf8_error_message(raw@),
{
    std::str::from_utf8(raw).map(|s| s.to_string()).map_err(|e| e.to_string())
}

/// The text of `raw` when it is valid UTF-8.
pub fn utf8_to_string(raw: &[u8]) -> (res: Option<String>)
    ensures
        res is Some <==> vstd::utf8::valid_utf8(raw@),
        res matches Some(s) ==> s@ == vstd::utf8::decode_utf8(raw@),
{
    match str_from_utf8(raw) {
        Ok(s) => Some(s),
        Err(_) => None,
    }
}

} // verus!
