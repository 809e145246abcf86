//! The files of an EPUB archive as the adapter holds them, and inlining the
//! images that chapters reference as `data:` URIs.
use vstd::prelude::*;

use super::path::{resolve_path, resolved_path};
use crate::text::{
    ascii_lower, ascii_lower_chars, ascii_lower_seq, chars_eq, chars_eq_ignore_ascii_case,
    ends_with_chars, eq_ignore_ascii_case, extend_from, find_chars_from, find_from, is_ascii_alnum,
    is_ascii_ws, lemma_find_from, slice_from, slice_range, starts_with_chars, str_chars,
    str_lowercase, string_from_chars, to_chars, to_lowercase, trim, trim_chars, trim_start,
    trim_start_chars,
};

verus! {

/// A file of the archive: its name and its bytes.
#[derive(Debug)]
pub struct Resource {
    pub name: String,
    pub bytes: Vec<u8>,
}

/// The names and contents of the archive's files, in archive order.
pub open spec fn resource_views(rs: Seq<Resource>) -> Seq<(Seq<char>, Seq<u8>)> {
    rs.map_values(|r: Resource| (r.name@, r.bytes@))
}

/// The last file named exactly `path`.
pub open spec fn last_exact(rs: Seq<(Seq<char>, Seq<u8>)>, path: Seq<char>) -> Option<int>
    decreases rs.len(),
{
    if rs.len() == 0 {
        None
    } else if rs.last().0 == path {
        Some(rs.len() - 1)
    } else {
        last_exact(rs.drop_last(), path)
    }
}

/// The last file whose name equals `path` when ASCII case is ignored.
pub open spec fn last_ignoring_case(rs: Seq<(Seq<char>, Seq<u8>)>, path: Seq<char>) -> Option<int>
    decreases rs.len(),
{
    if rs.len() == 0 {
        None
    } else if eq_ignore_ascii_case(rs.last().0, path) {
        Some(rs.len() - 1)
    } else {
        last_ignoring_case(rs.drop_last(), path)
    }
}

/// The contents of the file at `path`: the file of that exact name, else one
/// whose name differs only in ASCII case. Of files sharing a name the last
/// one counts, as when the files are inserted into a map in archive order.
pub open spec fn resource_lookup(rs: Seq<(Seq<char>, Seq<u8>)>, path: Seq<char>) -> Option<Seq<u8>> {
    match last_exact(rs, path) {
        Some(i) => Some(rs[i].1),
        None => match last_ignoring_case(rs, path) {
            Some(i) => Some(rs[i].1),
            None => None,
        },
    }
}

proof fn lemma_last_exact_bounds(rs: Seq<(Seq<char>, Seq<u8>)>, path: Seq<char>)
    ensures
        last_exact(rs, path) matches Some(i) ==> 0 <= i < rs.len() && rs[i].0 == path,
        last_ignoring_case(rs, path) matches Some(i) ==> 0 <= i < rs.len() && eq_ignore_ascii_case(
            rs[i].0,
            path,
        ),
    decreases rs.len(),
{
    if rs.len() > 0 {
        lemma_last_exact_bounds(rs.drop_last(), path);
    }
}

/// A file that the archive holds under exactly `path` is found by a lookup of `path`.
pub proof fn lemma_lookup_finds(rs: Seq<(Seq<char>, Seq<u8>)>, path: Seq<char>, i: int)
    requires
        0 <= i < rs.len(),
        rs[i].0 == path,
    ensures
        resource_lookup(rs, path) is Some,
    decreases rs.len(),
{
    if i < rs.len() - 1 {
        lemma_lookup_finds(rs.drop_last(), path, i);
        assert(rs.drop_last()[i] == rs[i]);
    }
}

/// Looks up an archive file by path, falling back to an ASCII
/// case-insensitive match.
pub fn get_resource<'a>(resources: &'a Vec<Resource>, path: &str) -> (res: Option<&'a Vec<u8>>)
    ensures
        match res {
            Some(b) => resource_lookup(resource_views(resources@), path@) == Some(b@),
            None => resource_lookup(resource_views(resources@), path@) is None,
        },
{
    let ghost rs = resource_views(resources@);
    let p = to_chars(path);
    let mut k: usize = resources.len();
    assert(rs.take(k as int) =~= rs);
    while k > 0
        invariant
            k <= resources@.len(),
            rs == resource_views(resources@),
            p@ == path@,
            last_exact(rs.take(k as int), path@) == last_exact(rs, path@),
        decreases k,
    {
        let name = to_chars(resources[k - 1].name.as_str());
        assert(rs.take(k as int).drop_last() =~= rs.take(k - 1));
        if chars_eq(name.as_slice(), p.as_slice()) {
            proof {
                lemma_last_exact_bounds(rs, path@);
            }
            return Some(&resources[k - 1].bytes);
        }
        k = k - 1;
    }
    assert(rs.take(0) =~= Seq::<(Seq<char>, Seq<u8>)>::empty());
    let mut k: usize = resources.len();
    while k > 0
        invariant
            k <= resources@.len(),
            rs == resource_views(resources@),
            p@ == path@,
            last_exact(rs, path@) is None,
            last_ignoring_case(rs.take(k as int), path@) == last_ignoring_case(rs, path@),
        decreases k,
    {
        let name = to_chars(resources[k - 1].name.as_str());
        assert(rs.take(k as int).drop_last() =~= rs.take(k - 1));
        if chars_eq_ignore_ascii_case(name.as_slice(), p.as_slice()) {
            return Some(&resources[k - 1].bytes);
        }
        k = k - 1;
    }
    None
}

// ---------------------------------------------------------------------------
// Image types
// ---------------------------------------------------------------------------

/// The image MIME type that the (lower-cased) extension of `path` names.
pub open spec fn image_mime(path: Seq<char>) -> Option<Seq<char>> {
    let lower = str_lowercase(path);
    if ".png"@.is_suffix_of(lower) {
        Some("image/png"@)
    } else if ".jpg"@.is_suffix_of(lower) || ".jpeg"@.is_suffix_of(lower) {
        Some("image/jpeg"@)
    } else if ".gif"@.is_suffix_of(lower) {
        Some("image/gif"@)
    } else if ".svg"@.is_suffix_of(lower) {
        Some("image/svg+xml"@)
    } else if ".webp"@.is_suffix_of(lower) {
        Some("image/webp"@)
    } else {
        None
    }
}

/// Guesses the MIME type of an image from its file extension.
pub fn guess_image_mime(path: &str) -> (res: Option<String>)
    ensures
        match res {
            Some(m) => image_mime(path@) == Some(m@),
            None => image_mime(path@) is None,
        },
{
    let lower_s = to_lowercase(path);
    let lower = to_chars(lower_s.as_str());
    let l = lower.as_slice();
    if ends_with_chars(l, str_chars(".png").as_slice()) {
        Some("image/png".to_string())
    } else if ends_with_chars(l, str_chars(".jpg").as_slice()) || ends_with_chars(
        l,
        str_chars(".jpeg").as_slice(),
    ) {
        Some("image/jpeg".to_string())
    } else if ends_with_chars(l, str_chars(".gif").as_slice()) {
        Some("image/gif".to_string())
    } else if ends_with_chars(l, str_chars(".svg").as_slice()) {
        Some("image/svg+xml".to_string())
    } else if ends_with_chars(l, str_chars(".webp").as_slice()) {
        Some("image/webp".to_string())
    } else {
        None
    }
}

/// The character of the standard Base64 alphabet for the 6-bit value `v`:
/// `A`-`Z`, `a`-`z`, `0`-`9`, `+`, `/`.
pub open spec fn base64_digit(v: int) -> char {
    if v < 26 {
        (('A' as u32) + v) as char
    } else if v < 52 {
        (('a' as u32) + (v - 26)) as char
    } else if v < 62 {
        (('0' as u32) + (v - 52)) as char
    } else if v == 62 {
        '+'
    } else {
        '/'
    }
}

/// The standard, padded Base64 encoding of `bytes` (RFC 4648, section 4):
/// each group of three bytes, read as a 24-bit number, gives four characters
/// of six bits each; a last group of one or two bytes is filled with zero
/// bits and padded with `=` to four characters.
pub open spec fn base64_standard(bytes: Seq<u8>) -> Seq<char>
    decreases bytes.len(),
{
    if bytes.len() == 0 {
        Seq::empty()
    } else if bytes.len() == 1 {
        let n = bytes[0] * 65536;
        seq![base64_digit(n / 262144), base64_digit((n / 4096) % 64), '=', '=']
    } else if bytes.len() == 2 {
        let n = bytes[0] * 65536 + bytes[1] * 256;
        seq![base64_digit(n / 262144), base64_digit((n / 4096) % 64), base64_digit((n / 64) % 64), '=']
    } else {
        let n = bytes[0] * 65536 + bytes[1] * 256 + bytes[2];
        seq![
            base64_digit(n / 262144),
            base64_digit((n / 4096) % 64),
            base64_digit((n / 64) % 64),
            base64_digit(n % 64),
        ] + base64_standard(bytes.skip(3))
    }
}

/// Encodes with `base64::engine::general_purpose::STANDARD`, whose output is
/// the padded standard encoding that `base64_standard` spells out.
#[verifier::external_body]
fn base64_encode(bytes: &[u8]) -> (res: String)
    ensures
        res@ == base64_standard(bytes@),
{
    base64::Engine::encode(&base64::engine::general_purpose::STANDARD, bytes)
}

/// The `data:` URI of an image of type `mime`.
pub open spec fn data_uri(mime: Seq<char>, bytes: Seq<u8>) -> Seq<char> {
    "data:"@ + mime + ";base64,"@ + base64_standard(bytes)
}

/// Builds a `data:` URI.
fn make_data_uri(mime: &str, bytes: &[u8]) -> (res: String)
    ensures
        res@ == data_uri(mime@, bytes@),
{
    let mut out = str_chars("data:");
    extend_from(&mut out, to_chars(mime).as_slice());
    extend_from(&mut out, str_chars(";base64,").as_slice());
    let encoded = base64_encode(bytes);
    extend_from(&mut out, to_chars(encoded.as_str()).as_slice());
    string_from_chars(out.as_slice())
}

/// The `data:` URI of the image at `path`, when its extension names an image type.
pub open spec fn image_uri_spec(path: Seq<char>, bytes: Seq<u8>) -> Option<Seq<char>> {
    match image_mime(path) {
        Some(m) => Some(data_uri(m, bytes)),
        None => None,
    }
}

/// The `data:` URI of an image file.
pub fn image_data_uri(path: &str, bytes: &[u8]) -> (res: Option<String>)
    ensures
        match res {
            Some(u) => image_uri_spec(path@, bytes@) == Some(u@),
            None => image_uri_spec(path@, bytes@) is None,
        },
{
    let mime = guess_image_mime(path)?;
    Some(make_data_uri(mime.as_str(), bytes))
}

// ---------------------------------------------------------------------------
// Finding `src` attributes
// ---------------------------------------------------------------------------

/// A character that can be part of an attribute name.
pub open spec fn is_attr_name_char(c: char) -> bool {
    is_ascii_alnum(c) || c == '-' || c == '_' || c == ':'
}

/// Whether a character can be part of an attribute name.
pub fn is_attr_name_byte(c: char) -> (res: bool)
    ensures
        res == is_attr_name_char(c),
{
    ('0' <= c && c <= '9') || ('a' <= c && c <= 'z') || ('A' <= c && c <= 'Z') || c == '-' || c
        == '_' || c == ':'
}

/// `src` in any ASCII case starts at `i` and is not the tail of a longer name.
pub open spec fn src_name_at(s: Seq<char>, i: int) -> bool {
    &&& 0 <= i
    &&& i + 3 <= s.len()
    &&& ascii_lower(s[i]) == 's'
    &&& ascii_lower(s[i + 1]) == 'r'
    &&& ascii_lower(s[i + 2]) == 'c'
    &&& (i == 0 || !is_attr_name_char(s[i - 1]))
}

/// The first index at or after `j` that is not ASCII whitespace (or the end).
pub open spec fn skip_ascii_ws(s: Seq<char>, j: int) -> int
    decreases s.len() - j,
{
    if j < s.len() && is_ascii_ws(s[j]) {
        skip_ascii_ws(s, j + 1)
    } else {
        j
    }
}

/// The index of the opening quote of the value of the `src` name at `i`:
/// after the name come optional whitespace, `=`, optional whitespace and a
/// single or double quote.
pub open spec fn src_quote_at(s: Seq<char>, i: int) -> Option<int> {
    let j = skip_ascii_ws(s, i + 3);
    if j < s.len() && s[j] == '=' {
        let k = skip_ascii_ws(s, j + 1);
        if k < s.len() && (s[k] == '"' || s[k] == '\'') {
            Some(k)
        } else {
            None
        }
    } else {
        None
    }
}

/// The span of the first quoted `src` value found scanning from `i`; `None`
/// when there is none, or when the first such value lacks its closing quote.
pub open spec fn find_src_from(s: Seq<char>, i: int) -> Option<(int, int)>
    decreases s.len() - i,
{
    if i < 0 || i + 3 > s.len() {
        None
    } else if src_name_at(s, i) && src_quote_at(s, i) is Some {
        let k = src_quote_at(s, i)->0;
        match find_from(s, seq![s[k]], k + 1) {
            Some(e) => Some((k + 1, e)),
            None => None,
        }
    } else {
        find_src_from(s, i + 1)
    }
}

proof fn lemma_skip_ascii_ws(s: Seq<char>, j: int)
    requires
        0 <= j,
    ensures
        j <= skip_ascii_ws(s, j),
        j <= s.len() ==> skip_ascii_ws(s, j) <= s.len(),
    decreases s.len() - j,
{
    if j < s.len() && is_ascii_ws(s[j]) {
        lemma_skip_ascii_ws(s, j + 1);
    }
}

/// A found value lies inside the text, after its opening quote.
pub proof fn lemma_find_src_bounds(s: Seq<char>, i: int)
    requires
        0 <= i,
    ensures
        find_src_from(s, i) matches Some((a, b)) ==> 1 <= a <= b < s.len(),
    decreases s.len() - i,
{
    if i + 3 > s.len() {
    } else if src_name_at(s, i) && src_quote_at(s, i) is Some {
        let k = src_quote_at(s, i)->0;
        lemma_skip_ascii_ws(s, i + 3);
        lemma_skip_ascii_ws(s, skip_ascii_ws(s, i + 3) + 1);
        lemma_find_from(s, seq![s[k]], k + 1);
    } else {
        lemma_find_src_bounds(s, i + 1);
    }
}

/// The first index at or after `j` that is not ASCII whitespace.
fn skip_whitespace(s: &[char], j: usize) -> (res: usize)
    requires
        j <= s@.len(),
    ensures
        res == skip_ascii_ws(s@, j as int),
        j <= res <= s@.len(),
{
    let mut k = j;
    while k < s.len() && (s[k] == ' ' || s[k] == '\t' || s[k] == '\n' || s[k] == '\u{c}' || s[k] == '\r')
        invariant
            j <= k <= s@.len(),
            skip_ascii_ws(s@, k as int) == skip_ascii_ws(s@, j as int),
        decreases s@.len() - k,
    {
        k = k + 1;
    }
    k
}

/// The span of the first quoted `src` attribute value in `s` (character
/// indices of the value without its quotes).
pub fn find_next_src_value(s: &[char]) -> (res: Option<(usize, usize)>)
    ensures
        match res {
            Some((a, b)) => find_src_from(s@, 0) == Some((a as int, b as int)),
            None => find_src_from(s@, 0) is None,
        },
{
    let n = s.len();
    let mut i: usize = 0;
    while n >= 3 && i <= n - 3
        invariant
            i <= n,
            n == s@.len(),
            find_src_from(s@, i as int) == find_src_from(s@, 0),
        decreases n - i,
    {
        if ascii_lower_char_eq(s[i], 's') && ascii_lower_char_eq(s[i + 1], 'r') && ascii_lower_char_eq(
            s[i + 2],
            'c',
        ) && (i == 0 || !is_attr_name_byte(s[i - 1])) {
            let j = skip_whitespace(s, i + 3);
            if j < n && s[j] == '=' {
                let k = skip_whitespace(s, j + 1);
                if k < n && (s[k] == '"' || s[k] == '\'') {
                    let quote: Vec<char> = vec![s[k]];
                    assert(quote@ =~= seq![s@[k as int]]);
                    return match find_chars_from(s, quote.as_slice(), k + 1) {
                        Some(e) => Some((k + 1, e)),
                        None => None,
                    };
                }
            }
        }
        i = i + 1;
    }
    None
}

/// Whether `c` is `lower` when ASCII case is ignored (`lower` being lower case).
fn ascii_lower_char_eq(c: char, lower: char) -> (res: bool)
    ensures
        res == (ascii_lower(c) == lower),
{
    crate::text::ascii_lower_char(c) == lower
}

// ---------------------------------------------------------------------------
// Inlining images
// ---------------------------------------------------------------------------

/// The `data:` URI that replaces the image reference `src` in the chapter at
/// archive path `base`: references that already are `data:`, `http:`,
/// `https:` or protocol-relative URLs stay, as do references to files that
/// are not images or are missing.
pub open spec fn inline_src_spec(src: Seq<char>, base: Seq<char>, rs: Seq<(Seq<char>, Seq<u8>)>) -> Option<
    Seq<char>,
> {
    let lower = ascii_lower_seq(trim_start(src));
    if "data:"@.is_prefix_of(lower) || "http:"@.is_prefix_of(lower) || "https:"@.is_prefix_of(
        lower,
    ) {
        None
    } else if "//"@.is_prefix_of(trim_start(src)) {
        None
    } else {
        let resolved = resolved_path(base, trim(src));
        match image_mime(resolved) {
            None => None,
            Some(m) => match resource_lookup(rs, resolved) {
                None => None,
                Some(bytes) => Some(data_uri(m, bytes)),
            },
        }
    }
}

/// The replacement for the image reference `src`.
pub fn inline_image_src(src: &str, base_path: &str, resources: &Vec<Resource>) -> (res: Option<
    String,
>)
    ensures
        match res {
            Some(u) => inline_src_spec(src@, base_path@, resource_views(resources@)) == Some(u@),
            None => inline_src_spec(src@, base_path@, resource_views(resources@)) is None,
        },
{
    let chars = to_chars(src);
    let start_trimmed = trim_start_chars(chars.as_slice());
    let lower = ascii_lower_chars(start_trimmed.as_slice());
    let l = lower.as_slice();
    if starts_with_chars(l, str_chars("data:").as_slice()) || starts_with_chars(
        l,
        str_chars("http:").as_slice(),
    ) || starts_with_chars(l, str_chars("https:").as_slice()) {
        return None;
    }
    if starts_with_chars(start_trimmed.as_slice(), str_chars("//").as_slice()) {
        return None;
    }
    let trimmed = string_from_chars(trim_chars(chars.as_slice()).as_slice());
    let resolved = resolve_path(base_path, trimmed.as_str());
    let mime = guess_image_mime(resolved.as_str())?;
    let bytes = get_resource(resources, resolved.as_str())?;
    Some(make_data_uri(mime.as_str(), bytes.as_slice()))
}

/// `html` with the quoted `src` values that refer to image files of the
/// archive replaced by `data:` URIs of those images.
pub open spec fn inlined(html: Seq<char>, base: Seq<char>, rs: Seq<(Seq<char>, Seq<u8>)>) -> Seq<char>
    decreases html.len(),
{
    match find_src_from(html, 0) {
        None => html,
        Some((a, b)) => {
            proof {
                lemma_find_src_bounds(html, 0);
            }
            let src = html.subrange(a, b);
            let replacement = match inline_src_spec(src, base, rs) {
                Some(u) => u,
                None => src,
            };
            html.take(a) + replacement + inlined(html.skip(b), base, rs)
        },
    }
}

/// Replace src="..." values in HTML with base64 data URIs using resources from the zip.
pub fn inline_images(html: &str, base_path: &str, resources: &Vec<Resource>) -> (res: String)
    ensures
        res@ == inlined(html@, base_path@, resource_views(resources@)),
{
    let ghost rs = resource_views(resources@);
    let chars = to_chars(html);
    let n = chars.len();
    let mut output: Vec<char> = Vec::new();
    let mut cursor: usize = 0;
    assert(chars@.skip(0) =~= chars@);
    loop
        invariant
            cursor <= n,
            n == chars@.len(),
            rs == resource_views(resources@),
            output@ + inlined(chars@.skip(cursor as int), base_path@, rs) == inlined(
                html@,
                base_path@,
                rs,
            ),
        decreases n - cursor,
    {
        let rest = slice_from(chars.as_slice(), cursor);
        match find_next_src_value(rest.as_slice()) {
            None => {
                extend_from(&mut output, rest.as_slice());
                return string_from_chars(output.as_slice());
            },
            Some((a, b)) => {
                proof {
                    lemma_find_src_bounds(rest@, 0);
                }
                let ghost before = output@;
                extend_from(&mut output, slice_range(rest.as_slice(), 0, a).as_slice());
                let src_chars = slice_range(rest.as_slice(), a, b);
                let src = string_from_chars(src_chars.as_slice());
                match inline_image_src(src.as_str(), base_path, resources) {
                    Some(uri) => {
                        extend_from(&mut output, to_chars(uri.as_str()).as_slice());
                    },
                    None => {
                        extend_from(&mut output, src_chars.as_slice());
                    },
                }
                assert(rest@.skip(b as int) =~= chars@.skip(cursor + b));
                assert(rest@.take(a as int) =~= rest@.subrange(0, a as int));
                assert(output@ + inlined(chars@.skip(cursor + b), base_path@, rs) =~= before
                    + inlined(rest@, base_path@, rs));
                cursor = cursor + b;
            },
        }
    }
}

} // verus!
