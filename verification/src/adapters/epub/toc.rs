//! The table of contents of an EPUB: chapter labels by archive path, from the
//! EPUB 3 navigation document or the EPUB 2 NCX file.
use vstd::prelude::*;
use vstd::utf8::{decode_utf8, valid_utf8};

use super::path::{resolve_path, resolved_path};
use super::xml::{
    attr_of, attribute, find_element, first_element, lemma_first_element, node_text, node_views,
    parse_xml, subtree_end, subtree_end_of, xml_document, XmlNode, XmlNodeView,
};
use crate::text::{
    chars_eq, find_chars, find_first, join_chars, joined, normalize_whitespace, normalized_ws,
    str_chars, string_from_chars, to_chars, trim, trim_chars, utf8_to_string,
};

verus! {

/// Chapter labels by archive path, in the order they were found.
pub type TocLabels = Vec<(String, String)>;

/// The paths and labels of a label list.
pub open spec fn toc_views(m: Seq<(String, String)>) -> Seq<(Seq<char>, Seq<char>)> {
    m.map_values(|e: (String, String)| (e.0@, e.1@))
}

/// Where the first entry for `key` stands.
pub open spec fn key_pos(m: Seq<(Seq<char>, Seq<char>)>, key: Seq<char>) -> Option<int>
    decreases m.len(),
{
    if m.len() == 0 {
        None
    } else {
        match key_pos(m.drop_last(), key) {
            Some(i) => Some(i),
            None => if m.last().0 == key {
                Some(m.len() - 1)
            } else {
                None
            },
        }
    }
}

/// The label for `key`.
pub open spec fn toc_lookup(m: Seq<(Seq<char>, Seq<char>)>, key: Seq<char>) -> Option<Seq<char>> {
    match key_pos(m, key) {
        Some(i) => Some(m[i].1),
        None => None,
    }
}

/// `m` with `(key, value)` added unless `key` already has a label.
pub open spec fn insert_new(m: Seq<(Seq<char>, Seq<char>)>, key: Seq<char>, value: Seq<char>) -> Seq<
    (Seq<char>, Seq<char>),
> {
    if key_pos(m, key) is Some {
        m
    } else {
        m.push((key, value))
    }
}

proof fn lemma_key_pos(m: Seq<(Seq<char>, Seq<char>)>, key: Seq<char>)
    ensures
        key_pos(m, key) matches Some(i) ==> 0 <= i < m.len() && m[i].0 == key,
    decreases m.len(),
{
    if m.len() > 0 {
        lemma_key_pos(m.drop_last(), key);
    }
}

/// Where the first entry for `key` stands.
fn find_key(m: &TocLabels, key: &[char]) -> (res: Option<usize>)
    ensures
        match res {
            Some(i) => key_pos(toc_views(m@), key@) == Some(i as int),
            None => key_pos(toc_views(m@), key@) is None,
        },
        res matches Some(i) ==> i < m@.len(),
{
    let ghost mv = toc_views(m@);
    let mut i: usize = 0;
    assert(mv.take(0) =~= Seq::<(Seq<char>, Seq<char>)>::empty());
    while i < m.len()
        invariant
            i <= m@.len(),
            mv == toc_views(m@),
            key_pos(mv.take(i as int), key@) is None,
        decreases m@.len() - i,
    {
        assert(mv.take(i + 1).drop_last() =~= mv.take(i as int));
        assert(mv[i as int] == (m@[i as int].0@, m@[i as int].1@));
        if chars_eq(to_chars(m[i].0.as_str()).as_slice(), key) {
            proof {
                lemma_key_pos_prefix(mv, key@, (i + 1) as int);
            }
            return Some(i);
        }
        i = i + 1;
    }
    assert(mv.take(i as int) =~= mv);
    None
}

/// A first entry found in a prefix is the first entry of the whole list.
proof fn lemma_key_pos_prefix(m: Seq<(Seq<char>, Seq<char>)>, key: Seq<char>, k: int)
    requires
        0 <= k <= m.len(),
        key_pos(m.take(k), key) is Some,
    ensures
        key_pos(m, key) == key_pos(m.take(k), key),
    decreases m.len() - k,
{
    if k < m.len() {
        assert(m.take(k + 1).drop_last() =~= m.take(k));
        lemma_key_pos_prefix(m, key, k + 1);
    } else {
        assert(m.take(k) =~= m);
    }
}

/// The label recorded for `path`.
pub fn toc_get(m: &TocLabels, path: &str) -> (res: Option<String>)
    ensures
        match res {
            Some(l) => toc_lookup(toc_views(m@), path@) == Some(l@),
            None => toc_lookup(toc_views(m@), path@) is None,
        },
{
    let p = to_chars(path);
    match find_key(m, p.as_slice()) {
        Some(i) => {
            assert(toc_views(m@)[i as int] == (m@[i as int].0@, m@[i as int].1@));
            Some(m[i].1.clone())
        },
        None => None,
    }
}

/// Adds a label for `key` unless it already has one.
fn insert_if_absent(m: &mut TocLabels, key: String, value: String)
    ensures
        toc_views(final(m)@) == insert_new(toc_views(old(m)@), key@, value@),
{
    let k = to_chars(key.as_str());
    if find_key(m, k.as_slice()).is_none() {
        let ghost before = m@;
        m.push((key, value));
        assert(toc_views(m@) =~= toc_views(before).push((k@, value@)));
    }
}

// ---------------------------------------------------------------------------
// EPUB 2 NCX
// ---------------------------------------------------------------------------

/// The entry that the `navPoint` element `k` contributes: the path its first
/// `content` descendant's `src` resolves to, labelled by the trimmed text of
/// its first `text` descendant, when both are present and the label is not
/// blank.
pub open spec fn ncx_entry(nodes: Seq<XmlNodeView>, ncx_path: Seq<char>, k: int) -> Option<
    (Seq<char>, Seq<char>),
> {
    if 0 <= k < nodes.len() && nodes[k].is_element && nodes[k].name == "navPoint"@ {
        let end = subtree_end(nodes, k);
        let label = match first_element(nodes, k, end, "text"@) {
            Some(t) => match nodes[t].text {
                Some(x) => if trim(x).len() > 0 {
                    Some(trim(x))
                } else {
                    None
                },
                None => None,
            },
            None => None,
        };
        let src = match first_element(nodes, k, end, "content"@) {
            Some(c) => attr_of(nodes[c].attributes, "src"@),
            None => None,
        };
        match (label, src) {
            (Some(l), Some(s)) => Some((resolved_path(ncx_path, s), l)),
            _ => None,
        }
    } else {
        None
    }
}

/// The labels found in the nodes `0..k` of an NCX document.
pub open spec fn ncx_labels_upto(nodes: Seq<XmlNodeView>, ncx_path: Seq<char>, k: int) -> Seq<
    (Seq<char>, Seq<char>),
>
    decreases k,
{
    if k <= 0 {
        Seq::empty()
    } else {
        let m = ncx_labels_upto(nodes, ncx_path, k - 1);
        match ncx_entry(nodes, ncx_path, k - 1) {
            Some((p, l)) => insert_new(m, p, l),
            None => m,
        }
    }
}

/// The labels of an NCX file, or none when it is not UTF-8 or not XML.
pub open spec fn ncx_labels(ncx_path: Seq<char>, bytes: Seq<u8>) -> Seq<(Seq<char>, Seq<char>)> {
    if valid_utf8(bytes) {
        match xml_document(decode_utf8(bytes)) {
            Ok(nodes) => ncx_labels_upto(nodes, ncx_path, nodes.len() as int),
            Err(_) => Seq::empty(),
        }
    } else {
        Seq::empty()
    }
}

/// The entry of the `navPoint` element `k`.
fn ncx_entry_at(nodes: &Vec<XmlNode>, ncx_path: &str, k: usize) -> (res: Option<(String, String)>)
    requires
        k < nodes@.len(),
    ensures
        match res {
            Some((p, l)) => ncx_entry(node_views(nodes@), ncx_path@, k as int) == Some((p@, l@)),
            None => ncx_entry(node_views(nodes@), ncx_path@, k as int) is None,
        },
{
    let ghost nv = node_views(nodes@);
    assert(nv[k as int] == nodes@[k as int]@);
    let nav_point = str_chars("navPoint");
    if !(nodes[k].is_element && chars_eq(to_chars(nodes[k].name.as_str()).as_slice(), nav_point.as_slice())) {
        return None;
    }
    let end = subtree_end_of(nodes, k);
    let text_tag = str_chars("text");
    let label = match find_element(nodes, k, end, text_tag.as_slice()) {
        Some(t) => {
            proof {
                lemma_first_element(nv, k as int, end as int, text_tag@);
            }
            assert(nv[t as int] == nodes@[t as int]@);
            match node_text(&nodes[t]) {
                Some(x) => {
                    let tx = trim_chars(to_chars(x.as_str()).as_slice());
                    if tx.len() > 0 {
                        Some(string_from_chars(tx.as_slice()))
                    } else {
                        None
                    }
                },
                None => None,
            }
        },
        None => None,
    };
    let content_tag = str_chars("content");
    let src_name = str_chars("src");
    let src = match find_element(nodes, k, end, content_tag.as_slice()) {
        Some(c) => {
            proof {
                lemma_first_element(nv, k as int, end as int, content_tag@);
            }
            assert(nv[c as int] == nodes@[c as int]@);
            attribute(&nodes[c], src_name.as_slice())
        },
        None => None,
    };
    match (label, src) {
        (Some(l), Some(s)) => Some((resolve_path(ncx_path, s.as_str()), l)),
        _ => None,
    }
}

/// Build a zip-path → label map from an EPUB2 NCX file.
pub fn parse_ncx_toc(ncx_path: &str, ncx_bytes: &[u8]) -> (res: TocLabels)
    ensures
        toc_views(res@) == ncx_labels(ncx_path@, ncx_bytes@),
{
    let mut map: TocLabels = Vec::new();
    assert(toc_views(map@) =~= Seq::<(Seq<char>, Seq<char>)>::empty());
    let s = match utf8_to_string(ncx_bytes) {
        Some(s) => s,
        None => return map,
    };
    let nodes = match parse_xml(s.as_str()) {
        Ok(nodes) => nodes,
        Err(_) => return map,
    };
    let ghost nv = node_views(nodes@);
    let mut k: usize = 0;
    while k < nodes.len()
        invariant
            k <= nodes@.len(),
            nv == node_views(nodes@),
            toc_views(map@) == ncx_labels_upto(nv, ncx_path@, k as int),
        decreases nodes@.len() - k,
    {
        match ncx_entry_at(&nodes, ncx_path, k) {
            Some((p, l)) => insert_if_absent(&mut map, p, l),
            None => {},
        }
        k = k + 1;
    }
    map
}

// ---------------------------------------------------------------------------
// EPUB 3 navigation document
// ---------------------------------------------------------------------------

/// Some attribute value contains "toc".
pub open spec fn has_toc_attribute(attrs: Seq<(Seq<char>, Seq<char>)>) -> bool {
    exists|i: int| 0 <= i < attrs.len() && (#[trigger] find_first(attrs[i].1, "toc"@)) is Some
}

/// A `nav` element marked as a table of contents.
pub open spec fn is_toc_nav(n: XmlNodeView) -> bool {
    n.is_element && n.name == "nav"@ && has_toc_attribute(n.attributes)
}

/// The first table-of-contents `nav` element at or after node `k`.
pub open spec fn first_toc_nav(nodes: Seq<XmlNodeView>, k: int) -> Option<int>
    decreases nodes.len() - k,
{
    if k < 0 || k >= nodes.len() {
        None
    } else if is_toc_nav(nodes[k]) {
        Some(k)
    } else {
        first_toc_nav(nodes, k + 1)
    }
}

/// The texts of the text nodes among `from..to`, in order.
pub open spec fn texts_in(nodes: Seq<XmlNodeView>, from: int, to: int) -> Seq<Seq<char>>
    decreases to - from,
{
    if to <= from || to > nodes.len() || from < 0 {
        Seq::empty()
    } else {
        let rest = texts_in(nodes, from, to - 1);
        let n = nodes[to - 1];
        if n.is_text && n.text is Some {
            rest.push(n.text->0)
        } else {
            rest
        }
    }
}

/// The entry that the anchor `a` contributes: its `href` resolved, labelled
/// by its text with whitespace collapsed, unless that label is empty.
pub open spec fn anchor_entry(nodes: Seq<XmlNodeView>, nav_path: Seq<char>, a: int) -> Option<
    (Seq<char>, Seq<char>),
> {
    if 0 <= a < nodes.len() && nodes[a].is_element && nodes[a].name == "a"@ {
        match attr_of(nodes[a].attributes, "href"@) {
            Some(href) => {
                let label = normalized_ws(joined(texts_in(nodes, a, subtree_end(nodes, a)), ' '));
                if label.len() > 0 {
                    Some((resolved_path(nav_path, href), label))
                } else {
                    None
                }
            },
            None => None,
        }
    } else {
        None
    }
}

/// The labels of the anchors among the nodes `from..j`.
pub open spec fn anchor_labels_upto(nodes: Seq<XmlNodeView>, nav_path: Seq<char>, from: int, j: int) -> Seq<
    (Seq<char>, Seq<char>),
>
    decreases j - from,
{
    if j <= from {
        Seq::empty()
    } else {
        let m = anchor_labels_upto(nodes, nav_path, from, j - 1);
        match anchor_entry(nodes, nav_path, j - 1) {
            Some((p, l)) => insert_new(m, p, l),
            None => m,
        }
    }
}

/// The labels of a navigation document: those of the anchors inside its
/// first table-of-contents `nav`, or none when it is not UTF-8, not XML or
/// has no such `nav`.
pub open spec fn nav_labels(nav_path: Seq<char>, bytes: Seq<u8>) -> Seq<(Seq<char>, Seq<char>)> {
    if valid_utf8(bytes) {
        match xml_document(decode_utf8(bytes)) {
            Ok(nodes) => match first_toc_nav(nodes, 0) {
                Some(k) => anchor_labels_upto(nodes, nav_path, k, subtree_end(nodes, k)),
                None => Seq::empty(),
            },
            Err(_) => Seq::empty(),
        }
    } else {
        Seq::empty()
    }
}

/// Whether some attribute value of the node contains "toc".
fn has_toc_attr(node: &XmlNode) -> (res: bool)
    ensures
        res == has_toc_attribute(node@.attributes),
{
    let toc = str_chars("toc");
    let ghost av = node@.attributes;
    let mut i: usize = 0;
    while i < node.attributes.len()
        invariant
            i <= node.attributes@.len(),
            av == node@.attributes,
            av.len() == node.attributes@.len(),
            toc@ == "toc"@,
            forall|j: int| 0 <= j < i ==> (#[trigger] find_first(av[j].1, "toc"@)) is None,
        decreases node.attributes@.len() - i,
    {
        assert(av[i as int] == (node.attributes@[i as int].name@, node.attributes@[i as int].value@));
        if find_chars(to_chars(node.attributes[i].value.as_str()).as_slice(), toc.as_slice()).is_some() {
            assert(find_first(av[i as int].1, "toc"@) is Some);
            return true;
        }
        i = i + 1;
    }
    false
}

/// The texts of the text nodes among `from..to`.
fn collect_texts(nodes: &Vec<XmlNode>, from: usize, to: usize) -> (res: Vec<Vec<char>>)
    requires
        from <= to <= nodes@.len(),
    ensures
        res@.map_values(|v: Vec<char>| v@) == texts_in(node_views(nodes@), from as int, to as int),
{
    let ghost nv = node_views(nodes@);
    let mut out: Vec<Vec<char>> = Vec::new();
    let mut j = from;
    assert(out@.map_values(|v: Vec<char>| v@) =~= texts_in(nv, from as int, from as int));
    while j < to
        invariant
            from <= j <= to <= nodes@.len(),
            nv == node_views(nodes@),
            out@.map_values(|v: Vec<char>| v@) == texts_in(nv, from as int, j as int),
        decreases to - j,
    {
        assert(nv[j as int] == nodes@[j as int]@);
        let ghost before = out@;
        if nodes[j].is_text {
            match &nodes[j].text {
                Some(t) => {
                    out.push(to_chars(t.as_str()));
                    assert(out@.map_values(|v: Vec<char>| v@) =~= before.map_values(|v: Vec<char>| v@).push(t@));
                },
                None => {},
            }
        }
        j = j + 1;
    }
    out
}

/// The entry of the anchor `a`.
fn anchor_entry_at(nodes: &Vec<XmlNode>, nav_path: &str, a: usize) -> (res: Option<(String, String)>)
    requires
        a < nodes@.len(),
    ensures
        match res {
            Some((p, l)) => anchor_entry(node_views(nodes@), nav_path@, a as int) == Some((p@, l@)),
            None => anchor_entry(node_views(nodes@), nav_path@, a as int) is None,
        },
{
    let ghost nv = node_views(nodes@);
    assert(nv[a as int] == nodes@[a as int]@);
    let a_tag = str_chars("a");
    if !(nodes[a].is_element && chars_eq(to_chars(nodes[a].name.as_str()).as_slice(), a_tag.as_slice())) {
        return None;
    }
    let href_name = str_chars("href");
    let href = match attribute(&nodes[a], href_name.as_slice()) {
        Some(h) => h,
        None => return None,
    };
    let end = subtree_end_of(nodes, a);
    let texts = collect_texts(nodes, a, end);
    let joined_text = join_chars(&texts, ' ');
    let label = normalize_whitespace(joined_text.as_slice());
    if label.len() == 0 {
        return None;
    }
    Some((resolve_path(nav_path, href.as_str()), string_from_chars(label.as_slice())))
}

/// Build a zip-path → label map from an EPUB3 Nav document.
pub fn parse_nav_toc(nav_path: &str, nav_bytes: &[u8]) -> (res: TocLabels)
    ensures
        toc_views(res@) == nav_labels(nav_path@, nav_bytes@),
{
    let mut map: TocLabels = Vec::new();
    assert(toc_views(map@) =~= Seq::<(Seq<char>, Seq<char>)>::empty());
    let s = match utf8_to_string(nav_bytes) {
        Some(s) => s,
        None => return map,
    };
    let nodes = match parse_xml(s.as_str()) {
        Ok(nodes) => nodes,
        Err(_) => return map,
    };
    let ghost nv = node_views(nodes@);
    let nav_tag = str_chars("nav");
    let mut k: usize = 0;
    while k < nodes.len()
        invariant
            k <= nodes@.len(),
            nv == node_views(nodes@),
            nav_tag@ == "nav"@,
            valid_utf8(nav_bytes@),
            s@ == decode_utf8(nav_bytes@),
            xml_document(s@) == Ok::<Seq<XmlNodeView>, Seq<char>>(nv),
            first_toc_nav(nv, k as int) == first_toc_nav(nv, 0),
            toc_views(map@) == Seq::<(Seq<char>, Seq<char>)>::empty(),
        decreases nodes@.len() - k,
    {
        assert(nv[k as int] == nodes@[k as int]@);
        if nodes[k].is_element && chars_eq(to_chars(nodes[k].name.as_str()).as_slice(), nav_tag.as_slice())
            && has_toc_attr(&nodes[k]) {
            assert(is_toc_nav(nv[k as int]));
            assert(first_toc_nav(nv, k as int) == Some(k as int));
            let end = subtree_end_of(&nodes, k);
            let mut j = k;
            while j < end
                invariant
                    k <= j <= end <= nodes@.len(),
                    nv == node_views(nodes@),
                    end == subtree_end(nv, k as int),
                    toc_views(map@) == anchor_labels_upto(nv, nav_path@, k as int, j as int),
                decreases end - j,
            {
                match anchor_entry_at(&nodes, nav_path, j) {
                    Some((p, l)) => insert_if_absent(&mut map, p, l),
                    None => {},
                }
                j = j + 1;
            }
            return map;
        }
        k = k + 1;
    }
    map
}

// ---------------------------------------------------------------------------
// Laws
// ---------------------------------------------------------------------------

/// Adding an entry leaves the lookup of every key that already had a label,
/// and of every other key, as it was; a new key gets the added label.
proof fn lemma_lookup_after_insert(m: Seq<(Seq<char>, Seq<char>)>, p: Seq<char>, l: Seq<char>, k: Seq<char>)
    ensures
        toc_lookup(m, k) is Some ==> toc_lookup(insert_new(m, p, l), k) == toc_lookup(m, k),
        toc_lookup(m, k) is None && k != p ==> toc_lookup(insert_new(m, p, l), k) is None,
        toc_lookup(m, k) is None && k == p ==> toc_lookup(insert_new(m, p, l), k) == Some(l),
{
    lemma_key_pos(m, k);
    if key_pos(m, p) is None {
        let m2 = m.push((p, l));
        assert(m2.drop_last() =~= m);
        if let Some(i) = key_pos(m, k) {
            assert(m2[i] == m[i]);
        }
    }
}

/// The table-of-contents label of a path is the label of the first anchor,
/// among the nodes `from..j`, whose reference resolves to that path; a path
/// no anchor there resolves to has no label.
pub proof fn law_nav_first_anchor_wins(nodes: Seq<XmlNodeView>, nav_path: Seq<char>, from: int, j: int, path: Seq<char>)
    ensures
        (forall|b: int| from <= b < j ==> !(#[trigger] anchor_entry(nodes, nav_path, b) matches Some((q, _)) && q == path))
            ==> toc_lookup(anchor_labels_upto(nodes, nav_path, from, j), path) is None,
        forall|a: int|
            from <= a < j && (#[trigger] anchor_entry(nodes, nav_path, a)) is Some && (anchor_entry(nodes, nav_path, a)->0).0 == path && (forall|b: int|
                from <= b < a ==> !(#[trigger] anchor_entry(nodes, nav_path, b) matches Some((r, _)) && r == path))
                ==> toc_lookup(anchor_labels_upto(nodes, nav_path, from, j), path) == Some((anchor_entry(nodes, nav_path, a)->0).1),
    decreases j - from,
{
    if j > from {
        law_nav_first_anchor_wins(nodes, nav_path, from, j - 1, path);
        let m = anchor_labels_upto(nodes, nav_path, from, j - 1);
        match anchor_entry(nodes, nav_path, j - 1) {
            Some((p, l)) => lemma_lookup_after_insert(m, p, l, path),
            None => {},
        }
        assert forall|a: int|
            from <= a < j && (#[trigger] anchor_entry(nodes, nav_path, a)) is Some && (anchor_entry(nodes, nav_path, a)->0).0 == path && (forall|b: int|
                from <= b < a ==> !(#[trigger] anchor_entry(nodes, nav_path, b) matches Some((r, _)) && r == path))
            implies toc_lookup(anchor_labels_upto(nodes, nav_path, from, j), path) == Some((anchor_entry(nodes, nav_path, a)->0).1) by {
            if a == j - 1 {
                assert(toc_lookup(m, path) is None);
            } else {
                assert(toc_lookup(m, path) == Some((anchor_entry(nodes, nav_path, a)->0).1));
            }
        }
    }
}

/// In an NCX file, the label of a path is that of the first `navPoint`,
/// among the nodes `0..k`, whose content resolves to that path; a path no
/// `navPoint` there resolves to has no label.
pub proof fn law_ncx_first_point_wins(nodes: Seq<XmlNodeView>, ncx_path: Seq<char>, k: int, path: Seq<char>)
    ensures
        (forall|b: int| 0 <= b < k ==> !(#[trigger] ncx_entry(nodes, ncx_path, b) matches Some((q, _)) && q == path))
            ==> toc_lookup(ncx_labels_upto(nodes, ncx_path, k), path) is None,
        forall|a: int|
            0 <= a < k && (#[trigger] ncx_entry(nodes, ncx_path, a)) is Some && (ncx_entry(nodes, ncx_path, a)->0).0 == path && (forall|b: int|
                0 <= b < a ==> !(#[trigger] ncx_entry(nodes, ncx_path, b) matches Some((r, _)) && r == path))
                ==> toc_lookup(ncx_labels_upto(nodes, ncx_path, k), path) == Some((ncx_entry(nodes, ncx_path, a)->0).1),
    decreases k,
{
    if k > 0 {
        law_ncx_first_point_wins(nodes, ncx_path, k - 1, path);
        let m = ncx_labels_upto(nodes, ncx_path, k - 1);
        match ncx_entry(nodes, ncx_path, k - 1) {
            Some((p, l)) => lemma_lookup_after_insert(m, p, l, path),
            None => {},
        }
        assert forall|a: int|
            0 <= a < k && (#[trigger] ncx_entry(nodes, ncx_path, a)) is Some && (ncx_entry(nodes, ncx_path, a)->0).0 == path && (forall|b: int|
                0 <= b < a ==> !(#[trigger] ncx_entry(nodes, ncx_path, b) matches Some((r, _)) && r == path))
            implies toc_lookup(ncx_labels_upto(nodes, ncx_path, k), path) == Some((ncx_entry(nodes, ncx_path, a)->0).1) by {
            if a == k - 1 {
                assert(toc_lookup(m, path) is None);
            } else {
                assert(toc_lookup(m, path) == Some((ncx_entry(nodes, ncx_path, a)->0).1));
            }
        }
    }
}

} // verus!
