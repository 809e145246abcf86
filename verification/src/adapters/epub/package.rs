//! The package document (OPF) of an EPUB: where it is, the book's metadata,
//! the manifest of files, the cover, the navigation files and the spine.
use vstd::prelude::*;

use super::path::{decode_url_path, resolve_path, resolved_path, url_path_decoded};
use super::xml::{
    attr_of, attribute, find_element, first_element, lemma_first_element, node_text, node_views,
    XmlNode, XmlNodeView,
};
use crate::text::{
    chars_eq, find_chars, find_first, starts_with_chars, str_chars, str_lowercase, to_chars,
    to_lowercase,
};

verus! {

/// The `full-path` of the container's first `rootfile` element, decoded.
pub open spec fn rootfile_path(nodes: Seq<XmlNodeView>) -> Option<Seq<char>> {
    match first_element(nodes, 0, nodes.len() as int, "rootfile"@) {
        Some(r) => match attr_of(nodes[r].attributes, "full-path"@) {
            Some(p) => Some(url_path_decoded(p)),
            None => None,
        },
        None => None,
    }
}

/// Where the package document is, per the container document.
pub fn find_rootfile_path(nodes: &Vec<XmlNode>) -> (res: Option<String>)
    ensures
        match res {
            Some(p) => rootfile_path(node_views(nodes@)) == Some(p@),
            None => rootfile_path(node_views(nodes@)) is None,
        },
{
    let ghost nv = node_views(nodes@);
    let tag = str_chars("rootfile");
    let r = find_element(nodes, 0, nodes.len(), tag.as_slice())?;
    proof {
        lemma_first_element(nv, 0, nv.len() as int, tag@);
    }
    assert(nv[r as int] == nodes@[r as int]@);
    let name = str_chars("full-path");
    let p = attribute(&nodes[r], name.as_slice())?;
    Some(decode_url_path(p.as_str()))
}

/// The text of the first element named `tag`, if it has text.
pub open spec fn element_text(nodes: Seq<XmlNodeView>, tag: Seq<char>) -> Option<Seq<char>> {
    match first_element(nodes, 0, nodes.len() as int, tag) {
        Some(t) => nodes[t].text,
        None => None,
    }
}

/// The text of the document's first element named `tag`.
pub fn first_element_text(nodes: &Vec<XmlNode>, tag: &[char]) -> (res: Option<String>)
    ensures
        match res {
            Some(t) => element_text(node_views(nodes@), tag@) == Some(t@),
            None => element_text(node_views(nodes@), tag@) is None,
        },
{
    let ghost nv = node_views(nodes@);
    let t = find_element(nodes, 0, nodes.len(), tag)?;
    proof {
        lemma_first_element(nv, 0, nv.len() as int, tag@);
    }
    assert(nv[t as int] == nodes@[t as int]@);
    node_text(&nodes[t])
}

// ---------------------------------------------------------------------------
// Manifest and cover
// ---------------------------------------------------------------------------

/// The value of the last entry for `key` (later entries replace earlier ones).
pub open spec fn last_value(m: Seq<(Seq<char>, Seq<char>)>, key: Seq<char>) -> Option<Seq<char>>
    decreases m.len(),
{
    if m.len() == 0 {
        None
    } else if m.last().0 == key {
        Some(m.last().1)
    } else {
        last_value(m.drop_last(), key)
    }
}

/// The paths and ids of a manifest list.
pub open spec fn pair_views(m: Seq<(String, String)>) -> Seq<(Seq<char>, Seq<char>)> {
    m.map_values(|e: (String, String)| (e.0@, e.1@))
}

/// The value of the last entry for `key`.
pub fn lookup_last(m: &Vec<(String, String)>, key: &[char]) -> (res: Option<String>)
    ensures
        match res {
            Some(v) => last_value(pair_views(m@), key@) == Some(v@),
            None => last_value(pair_views(m@), key@) is None,
        },
{
    let ghost mv = pair_views(m@);
    let mut k = m.len();
    assert(mv.take(k as int) =~= mv);
    while k > 0
        invariant
            k <= m@.len(),
            mv == pair_views(m@),
            last_value(mv.take(k as int), key@) == last_value(mv, key@),
        decreases k,
    {
        assert(mv.take(k as int).drop_last() =~= mv.take(k - 1));
        assert(mv[k - 1] == (m@[k - 1].0@, m@[k - 1].1@));
        if chars_eq(to_chars(m[k - 1].0.as_str()).as_slice(), key) {
            return Some(m[k - 1].1.clone());
        }
        k = k - 1;
    }
    None
}

/// The manifest (id and resolved path of each `item`) and the id of the cover
/// image after the nodes `0..k` of the package document. An `item` with both
/// `id` and `href` is listed; it names the cover when its `properties`
/// contain "cover-image", or when no cover is known yet, its id contains
/// "cover" in lower case and its `media-type` starts with "image/". A `meta`
/// named "cover" names the cover by its `content`.
pub open spec fn manifest_upto(nodes: Seq<XmlNodeView>, opf_path: Seq<char>, k: int) -> (
    Seq<(Seq<char>, Seq<char>)>,
    Option<Seq<char>>,
)
    decreases k,
{
    if k <= 0 {
        (Seq::empty(), None)
    } else {
        let (m, cover) = manifest_upto(nodes, opf_path, k - 1);
        let n = nodes[k - 1];
        let (m2, cover2) = if n.is_element && n.name == "item"@ && attr_of(n.attributes, "id"@) is Some
            && attr_of(n.attributes, "href"@) is Some {
            let id = attr_of(n.attributes, "id"@)->0;
            let href = attr_of(n.attributes, "href"@)->0;
            let c1 = match attr_of(n.attributes, "properties"@) {
                Some(p) => if find_first(p, "cover-image"@) is Some {
                    Some(id)
                } else {
                    cover
                },
                None => cover,
            };
            let c2 = if c1 is None && find_first(str_lowercase(id), "cover"@) is Some && (match attr_of(
                n.attributes,
                "media-type"@,
            ) {
                Some(mt) => "image/"@.is_prefix_of(mt),
                None => false,
            }) {
                Some(id)
            } else {
                c1
            };
            (m.push((id, resolved_path(opf_path, href))), c2)
        } else {
            (m, cover)
        };
        if n.is_element && n.name == "meta"@ && attr_of(n.attributes, "name"@) == Some("cover"@)
            && attr_of(n.attributes, "content"@) is Some {
            (m2, attr_of(n.attributes, "content"@))
        } else {
            (m2, cover2)
        }
    }
}

/// Whether the node is an element named `tag`.
fn is_element_named(node: &XmlNode, tag: &[char]) -> (res: bool)
    ensures
        res == (node@.is_element && node@.name == tag@),
{
    node.is_element && chars_eq(to_chars(node.name.as_str()).as_slice(), tag)
}

/// Whether `s` contains `p`.
fn contains_chars(s: &str, p: &str) -> (res: bool)
    ensures
        res == (find_first(s@, p@) is Some),
{
    find_chars(to_chars(s).as_slice(), to_chars(p).as_slice()).is_some()
}

/// Reads the manifest and the cover id from the package document.
pub fn read_manifest(nodes: &Vec<XmlNode>, opf_path: &str) -> (res: (Vec<(String, String)>, Option<String>))
    ensures
        (pair_views(res.0@), match res.1 {
            Some(c) => Some(c@),
            None => None,
        }) == manifest_upto(node_views(nodes@), opf_path@, nodes@.len() as int),
{
    let ghost nv = node_views(nodes@);
    let item = str_chars("item");
    let meta = str_chars("meta");
    let id_name = str_chars("id");
    let href_name = str_chars("href");
    let properties_name = str_chars("properties");
    let media_type_name = str_chars("media-type");
    let name_name = str_chars("name");
    let content_name = str_chars("content");
    let cover_word = str_chars("cover");
    let image_prefix = str_chars("image/");
    let mut manifest: Vec<(String, String)> = Vec::new();
    let mut cover_id: Option<String> = None;
    let mut k: usize = 0;
    while k < nodes.len()
        invariant
            k <= nodes@.len(),
            nv == node_views(nodes@),
            item@ == "item"@,
            meta@ == "meta"@,
            id_name@ == "id"@,
            href_name@ == "href"@,
            properties_name@ == "properties"@,
            media_type_name@ == "media-type"@,
            name_name@ == "name"@,
            content_name@ == "content"@,
            cover_word@ == "cover"@,
            image_prefix@ == "image/"@,
            (pair_views(manifest@), match cover_id {
                Some(c) => Some(c@),
                None => None,
            }) == manifest_upto(nv, opf_path@, k as int),
        decreases nodes@.len() - k,
    {
        let node = &nodes[k];
        assert(nv[k as int] == node@);
        let ghost before = manifest@;
        if is_element_named(node, item.as_slice()) {
            match (attribute(node, id_name.as_slice()), attribute(node, href_name.as_slice())) {
                (Some(id), Some(href)) => {
                    let full_path = resolve_path(opf_path, href.as_str());
                    manifest.push((id.clone(), full_path));
                    assert(pair_views(manifest@) =~= pair_views(before).push(
                        (id@, resolved_path(opf_path@, href@)),
                    ));
                    match attribute(node, properties_name.as_slice()) {
                        Some(p) => {
                            if contains_chars(p.as_str(), "cover-image") {
                                cover_id = Some(id.clone());
                            }
                        },
                        None => {},
                    }
                    if cover_id.is_none() {
                        let lower = to_lowercase(id.as_str());
                        let is_image = match attribute(node, media_type_name.as_slice()) {
                            Some(mt) => starts_with_chars(to_chars(mt.as_str()).as_slice(), image_prefix.as_slice()),
                            None => false,
                        };
                        if find_chars(to_chars(lower.as_str()).as_slice(), cover_word.as_slice()).is_some() && is_image {
                            cover_id = Some(id.clone());
                        }
                    }
                },
                _ => {},
            }
        }
        if is_element_named(node, meta.as_slice()) {
            let is_cover_meta = match attribute(node, name_name.as_slice()) {
                Some(nm) => chars_eq(to_chars(nm.as_str()).as_slice(), cover_word.as_slice()),
                None => false,
            };
            if is_cover_meta {
                match attribute(node, content_name.as_slice()) {
                    Some(content) => {
                        cover_id = Some(content);
                    },
                    None => {},
                }
            }
        }
        k = k + 1;
    }
    (manifest, cover_id)
}

// ---------------------------------------------------------------------------
// Navigation files and spine
// ---------------------------------------------------------------------------

/// The first `item` element at or after node `k` whose `properties` contain "nav".
pub open spec fn first_nav_item(nodes: Seq<XmlNodeView>, k: int) -> Option<int>
    decreases nodes.len() - k,
{
    if k < 0 || k >= nodes.len() {
        None
    } else if nodes[k].is_element && nodes[k].name == "item"@ && (match attr_of(
        nodes[k].attributes,
        "properties"@,
    ) {
        Some(p) => find_first(p, "nav"@) is Some,
        None => false,
    }) {
        Some(k)
    } else {
        first_nav_item(nodes, k + 1)
    }
}

/// The first `item` element at or after node `k` of the NCX media type.
pub open spec fn first_ncx_item(nodes: Seq<XmlNodeView>, k: int) -> Option<int>
    decreases nodes.len() - k,
{
    if k < 0 || k >= nodes.len() {
        None
    } else if nodes[k].is_element && nodes[k].name == "item"@ && attr_of(
        nodes[k].attributes,
        "media-type"@,
    ) == Some("application/x-dtbncx+xml"@) {
        Some(k)
    } else {
        first_ncx_item(nodes, k + 1)
    }
}

/// The resolved `href` of the item at `found`, if it has one.
pub open spec fn item_href(nodes: Seq<XmlNodeView>, opf_path: Seq<char>, found: Option<int>) -> Option<
    Seq<char>,
> {
    match found {
        Some(i) => match attr_of(nodes[i].attributes, "href"@) {
            Some(h) => Some(resolved_path(opf_path, h)),
            None => None,
        },
        None => None,
    }
}

/// The path of the EPUB 3 navigation document.
pub open spec fn nav_doc_path(nodes: Seq<XmlNodeView>, opf_path: Seq<char>) -> Option<Seq<char>> {
    item_href(nodes, opf_path, first_nav_item(nodes, 0))
}

/// The path of the EPUB 2 NCX file.
pub open spec fn ncx_doc_path(nodes: Seq<XmlNodeView>, opf_path: Seq<char>) -> Option<Seq<char>> {
    item_href(nodes, opf_path, first_ncx_item(nodes, 0))
}

/// The path of the navigation file that the package names, EPUB 3 style
/// (`ncx == false`) or EPUB 2 style (`ncx == true`).
pub fn find_nav_path(nodes: &Vec<XmlNode>, opf_path: &str, ncx: bool) -> (res: Option<String>)
    ensures
        match res {
            Some(p) => (if ncx {
                ncx_doc_path(node_views(nodes@), opf_path@)
            } else {
                nav_doc_path(node_views(nodes@), opf_path@)
            }) == Some(p@),
            None => (if ncx {
                ncx_doc_path(node_views(nodes@), opf_path@)
            } else {
                nav_doc_path(node_views(nodes@), opf_path@)
            }) is None,
        },
{
    let ghost nv = node_views(nodes@);
    let ghost target = if ncx {
        first_ncx_item(nv, 0)
    } else {
        first_nav_item(nv, 0)
    };
    let item = str_chars("item");
    let properties_name = str_chars("properties");
    let media_type_name = str_chars("media-type");
    let href_name = str_chars("href");
    let mut k: usize = 0;
    while k < nodes.len()
        invariant
            k <= nodes@.len(),
            nv == node_views(nodes@),
            item@ == "item"@,
            properties_name@ == "properties"@,
            media_type_name@ == "media-type"@,
            href_name@ == "href"@,
            target == (if ncx {
                first_ncx_item(nv, 0)
            } else {
                first_nav_item(nv, 0)
            }),
            target == (if ncx {
                first_ncx_item(nv, k as int)
            } else {
                first_nav_item(nv, k as int)
            }),
        decreases nodes@.len() - k,
    {
        let node = &nodes[k];
        assert(nv[k as int] == node@);
        if is_element_named(node, item.as_slice()) {
            let hit = if ncx {
                match attribute(node, media_type_name.as_slice()) {
                    Some(mt) => chars_eq(to_chars(mt.as_str()).as_slice(), str_chars("application/x-dtbncx+xml").as_slice()),
                    None => false,
                }
            } else {
                match attribute(node, properties_name.as_slice()) {
                    Some(p) => contains_chars(p.as_str(), "nav"),
                    None => false,
                }
            };
            if hit {
                assert(target == Some(k as int));
                return match attribute(node, href_name.as_slice()) {
                    Some(h) => Some(resolve_path(opf_path, h.as_str())),
                    None => None,
                };
            }
        }
        k = k + 1;
    }
    None
}

/// The chapter paths of the spine after the nodes `0..k`: each `itemref`'s
/// `idref` looked up in the manifest, in document order, skipping unknown ids.
pub open spec fn spine_upto(nodes: Seq<XmlNodeView>, manifest: Seq<(Seq<char>, Seq<char>)>, k: int) -> Seq<
    Seq<char>,
>
    decreases k,
{
    if k <= 0 {
        Seq::empty()
    } else {
        let s = spine_upto(nodes, manifest, k - 1);
        let n = nodes[k - 1];
        if n.is_element && n.name == "itemref"@ {
            match attr_of(n.attributes, "idref"@) {
                Some(idref) => match last_value(manifest, idref) {
                    Some(href) => s.push(href),
                    None => s,
                },
                None => s,
            }
        } else {
            s
        }
    }
}

/// The views of a list of strings.
pub open spec fn string_views(v: Seq<String>) -> Seq<Seq<char>> {
    v.map_values(|s: String| s@)
}

/// Reads the spine: the ordered chapter paths.
pub fn read_spine(nodes: &Vec<XmlNode>, manifest: &Vec<(String, String)>) -> (res: Vec<String>)
    ensures
        string_views(res@) == spine_upto(node_views(nodes@), pair_views(manifest@), nodes@.len() as int),
{
    let ghost nv = node_views(nodes@);
    let itemref = str_chars("itemref");
    let idref_name = str_chars("idref");
    let mut spine: Vec<String> = Vec::new();
    let mut k: usize = 0;
    while k < nodes.len()
        invariant
            k <= nodes@.len(),
            nv == node_views(nodes@),
            itemref@ == "itemref"@,
            idref_name@ == "idref"@,
            string_views(spine@) == spine_upto(nv, pair_views(manifest@), k as int),
        decreases nodes@.len() - k,
    {
        let node = &nodes[k];
        assert(nv[k as int] == node@);
        let ghost before = spine@;
        if is_element_named(node, itemref.as_slice()) {
            match attribute(node, idref_name.as_slice()) {
                Some(idref) => match lookup_last(manifest, to_chars(idref.as_str()).as_slice()) {
                    Some(href) => {
                        spine.push(href);
                        assert(string_views(spine@) =~= string_views(before).push(spine@.last()@));
                    },
                    None => {},
                },
                None => {},
            }
        }
        k = k + 1;
    }
    spine
}

} // verus!
