//! Sanitizing book HTML before it reaches the reader view.
//!
//! The cleaning itself is ammonia's; this module decides which attributes
//! survive: inline images only as `data:` URIs of raster or SVG images, no
//! link targets, everything else as ammonia's defaults allow.
use vstd::prelude::*;

use crate::text::{
    ascii_lower_chars, ascii_lower_seq, chars_eq, starts_with_chars, str_chars, to_chars,
    trim_start, trim_start_chars,
};

verus! {

/// The `data:` URI prefixes of images that may stay inline.
pub open spec fn safe_image_prefixes() -> Seq<Seq<char>> {
    seq![
        "data:image/png;base64,"@,
        "data:image/jpeg;base64,"@,
        "data:image/jpg;base64,"@,
        "data:image/gif;base64,"@,
        "data:image/webp;base64,"@,
        "data:image/svg+xml;base64,"@,
    ]
}

/// `value`, without leading whitespace and in ASCII lower case, starts with
/// one of the safe image prefixes.
pub open spec fn is_safe_data_image_spec(value: Seq<char>) -> bool {
    exists|k: int|
        0 <= k < safe_image_prefixes().len() && (#[trigger] safe_image_prefixes()[k]).is_prefix_of(
            ascii_lower_seq(trim_start(value)),
        )
}

/// The prefixes of `safe_image_prefixes`, as character vectors.
fn safe_image_prefix_chars() -> (res: Vec<Vec<char>>)
    ensures
        res@.map_values(|v: Vec<char>| v@) == safe_image_prefixes(),
{
    let mut res: Vec<Vec<char>> = Vec::new();
    res.push(str_chars("data:image/png;base64,"));
    res.push(str_chars("data:image/jpeg;base64,"));
    res.push(str_chars("data:image/jpg;base64,"));
    res.push(str_chars("data:image/gif;base64,"));
    res.push(str_chars("data:image/webp;base64,"));
    res.push(str_chars("data:image/svg+xml;base64,"));
    assert(res@.map_values(|v: Vec<char>| v@) =~= safe_image_prefixes());
    res
}

/// Whether an attribute value is an inline image that may stay.
pub fn is_safe_data_image(value: &str) -> (res: bool)
    ensures
        res == is_safe_data_image_spec(value@),
{
    let chars = to_chars(value);
    let trimmed = trim_start_chars(chars.as_slice());
    let lower = ascii_lower_chars(trimmed.as_slice());
    let prefixes = safe_image_prefix_chars();
    let mut k: usize = 0;
    while k < prefixes.len()
        invariant
            k <= prefixes@.len(),
            prefixes@.map_values(|v: Vec<char>| v@) == safe_image_prefixes(),
            lower@ == ascii_lower_seq(trim_start(value@)),
            forall|j: int| 0 <= j < k ==> !(#[trigger] safe_image_prefixes()[j]).is_prefix_of(lower@),
        decreases prefixes@.len() - k,
    {
        assert(prefixes@[k as int]@ == safe_image_prefixes()[k as int]);
        if starts_with_chars(lower.as_slice(), prefixes[k].as_slice()) {
            return true;
        }
        k = k + 1;
    }
    false
}

/// What becomes of attribute `attribute` with value `value` on element
/// `element`: `None` drops it, `Some(v)` keeps it with value `v`.
pub open spec fn book_attribute(element: Seq<char>, attribute: Seq<char>, value: Seq<char>) -> Option<
    Seq<char>,
> {
    if element == "img"@ && attribute == "src"@ {
        if is_safe_data_image_spec(value) {
            Some(value)
        } else {
            None
        }
    } else if element == "a"@ && attribute == "href"@ {
        None
    } else {
        Some(value)
    }
}

/// The attribute filter never keeps a link target, keeps an image source
/// only when it is an inline image of an allowed type, and never alters a
/// value it keeps.
pub proof fn law_attribute_filter_safe(element: Seq<char>, attribute: Seq<char>, value: Seq<char>)
    ensures
        book_attribute("a"@, "href"@, value) is None,
        book_attribute("img"@, "src"@, value) is Some <==> is_safe_data_image_spec(value),
        book_attribute(element, attribute, value) matches Some(kept) ==> kept == value,
{
    reveal_strlit("a");
    reveal_strlit("img");
    assert("a"@.len() != "img"@.len());
}

/// The attribute filter handed to ammonia.
pub fn filter_book_attribute(element: &str, attribute: &str, value: &str) -> (res: Option<String>)
    ensures
        match res {
            Some(v) => book_attribute(element@, attribute@, value@) == Some(v@),
            None => book_attribute(element@, attribute@, value@) is None,
        },
{
    let e = to_chars(element);
    let a = to_chars(attribute);
    let img = str_chars("img");
    let src = str_chars("src");
    let anchor = str_chars("a");
    let href = str_chars("href");
    if chars_eq(e.as_slice(), img.as_slice()) && chars_eq(a.as_slice(), src.as_slice()) {
        if is_safe_data_image(value) {
            Some(value.to_string())
        } else {
            None
        }
    } else if chars_eq(e.as_slice(), anchor.as_slice()) && chars_eq(a.as_slice(), href.as_slice()) {
        None
    } else {
        Some(value.to_string())
    }
}

/// What ammonia's `Builder::clean` produces for `html` when the builder
/// allows `extra_tags` besides its default tags, allows only the URL schemes
/// `url_schemes`, denies relative URLs, adds no `rel` to links, and filters
/// attributes with `filter_book_attribute`.
pub uninterp spec fn ammonia_cleaned(
    html: Seq<char>,
    extra_tags: Seq<Seq<char>>,
    url_schemes: Seq<Seq<char>>,
) -> Seq<char>;

/// The views of a vector of string slices.
pub open spec fn str_views(v: Seq<&str>) -> Seq<Seq<char>> {
    v.map_values(|s: &str| s@)
}

/// Configures an `ammonia::Builder` as `ammonia_cleaned` describes and calls
/// `Builder::clean` on `html`. The result is named `ammonia_cleaned`; nothing
/// else is claimed of it. `clean` panics when an allowed tag is also one whose
/// content it removes (`script` and `style` by default), so neither may be
/// among the extra tags.
#[verifier::external_body]
fn ammonia_clean(html: &str, extra_tags: &Vec<&str>, url_schemes: &Vec<&str>) -> (res: String)
    requires
        forall|i: int| 0 <= i < extra_tags@.len() ==> extra_tags@[i]@ != "script"@ && extra_tags@[i]@ != "style"@,
    ensures
        res@ == ammonia_cleaned(html@, str_views(extra_tags@), str_views(url_schemes@)),
{
    let mut builder = ammonia::Builder::default();
    builder
        .add_tags(extra_tags.iter().copied())
        .url_schemes(url_schemes.iter().copied().collect())
        .url_relative(ammonia::UrlRelative::Deny)
        .link_rel(None)
        .attribute_filter(|element, attribute, value| {
            filter_book_attribute(element, attribute, value).map(std::borrow::Cow::Owned)
        });
    builder.clean(html).to_string()
}

/// The extra tags that book HTML may use.
pub open spec fn book_extra_tags() -> Seq<Seq<char>> {
    seq!["main"@, "section"@]
}

/// The URL schemes that book HTML may use.
pub open spec fn book_url_schemes() -> Seq<Seq<char>> {
    seq!["data"@]
}

/// Sanitizes the HTML of a book chapter: scripts, styles, event handlers,
/// links to other documents and remote resources are removed; inline
/// images survive as `data:` URIs.
pub fn sanitize_book_html(html: &str) -> (res: String)
    ensures
        res@ == ammonia_cleaned(html@, book_extra_tags(), book_url_schemes()),
{
    let tags = vec!["main", "section"];
    let schemes = vec!["data"];
    proof {
        reveal_strlit("main");
        reveal_strlit("section");
        reveal_strlit("script");
        reveal_strlit("style");
        assert(tags@[0]@.len() != "script"@.len() && tags@[0]@.len() != "style"@.len());
        assert(tags@[1]@.len() != "script"@.len() && tags@[1]@.len() != "style"@.len());
    }
    assert(str_views(tags@) =~= book_extra_tags());
    assert(str_views(schemes@) =~= book_url_schemes());
    ammonia_clean(html, &tags, &schemes)
}

} // verus!
