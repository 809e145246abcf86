//! The XML documents of an EPUB (container, package, navigation) as a flat
//! list of nodes in document order.
//!
//! Node 0 is the document root; every other node records the position of its
//! parent. The descendants of a node are the node itself and the nodes after
//! it up to the first one whose parent lies before it.
use vstd::prelude::*;

use crate::text::{chars_eq, to_chars};

verus! {

/// An attribute: its local name and its value.
pub struct XmlAttribute {
    pub name: String,
    pub value: String,
}

/// A node of an XML document.
pub struct XmlNode {
    pub is_element: bool,
    pub is_text: bool,
    /// The local name of an element; empty for other nodes.
    pub name: String,
    pub attributes: Vec<XmlAttribute>,
    /// `roxmltree::Node::text`: the text of a text node, or of an element's
    /// first child when that is a text node.
    pub text: Option<String>,
    pub parent: Option<usize>,
}

/// The contents of a node.
pub struct XmlNodeView {
    pub is_element: bool,
    pub is_text: bool,
    pub name: Seq<char>,
    pub attributes: Seq<(Seq<char>, Seq<char>)>,
    pub text: Option<Seq<char>>,
    pub parent: Option<usize>,
}

impl View for XmlNode {
    type V = XmlNodeView;

    open spec fn view(&self) -> XmlNodeView {
        XmlNodeView {
            is_element: self.is_element,
            is_text: self.is_text,
            name: self.name@,
            attributes: self.attributes@.map_values(|a: XmlAttribute| (a.name@, a.value@)),
            text: match self.text {
                Some(t) => Some(t@),
                None => None,
            },
            parent: self.parent,
        }
    }
}

/// The views of a node list.
pub open spec fn node_views(nodes: Seq<XmlNode>) -> Seq<XmlNodeView> {
    nodes.map_values(|n: XmlNode| n@)
}

/// What `roxmltree::Document::parse` makes of `text`: the document's nodes
/// in document order, or the parse error's message.
pub uninterp spec fn xml_document(text: Seq<char>) -> Result<Seq<XmlNodeView>, Seq<char>>;

/// Parses `text` with `roxmltree::Document::parse` and lists the document's
/// nodes (`Document::descendants`) with what the adapter reads of them. The
/// result is named `xml_document`; nothing else is claimed of it.
#[verifier::external_body]
pub(crate) fn parse_xml(text: &str) -> (res: Result<Vec<XmlNode>, String>)
    ensures
        match res {
            Ok(nodes) => xml_document(text@) == Ok::<Seq<XmlNodeView>, Seq<char>>(node_views(nodes@)),
            Err(e) => xml_document(text@) == Err::<Seq<XmlNodeView>, Seq<char>>(e@),
        },
{
    match roxmltree::Document::parse(text) {
        Ok(doc) => Ok(doc.descendants().map(|n| XmlNode {
            is_element: n.is_element(),
            is_text: n.is_text(),
            name: n.tag_name().name().to_string(),
            attributes: n.attributes().map(|a| XmlAttribute {
                name: a.name().to_string(),
                value: a.value().to_string(),
            }).collect(),
            text: n.text().map(|t| t.to_string()),
            parent: n.parent().map(|p| p.id().get_usize()),
        }).collect()),
        Err(e) => Err(e.to_string()),
    }
}

// ---------------------------------------------------------------------------
// Queries
// ---------------------------------------------------------------------------

/// Node `j` lies outside the subtree of the earlier node `k`.
pub open spec fn leaves_subtree(n: XmlNodeView, k: int) -> bool {
    match n.parent {
        Some(p) => p < k,
        None => true,
    }
}

/// The first node at or after `j` that is past the subtree of `k`.
pub open spec fn subtree_end_from(nodes: Seq<XmlNodeView>, k: int, j: int) -> int
    decreases nodes.len() - j,
{
    if j >= nodes.len() {
        nodes.len() as int
    } else if leaves_subtree(nodes[j], k) {
        j
    } else {
        subtree_end_from(nodes, k, j + 1)
    }
}

/// The end of the subtree of node `k`: its descendants are `k..subtree_end`.
pub open spec fn subtree_end(nodes: Seq<XmlNodeView>, k: int) -> int {
    subtree_end_from(nodes, k, k + 1)
}

proof fn lemma_subtree_end_from(nodes: Seq<XmlNodeView>, k: int, j: int)
    requires
        0 <= j <= nodes.len(),
    ensures
        j <= subtree_end_from(nodes, k, j) <= nodes.len(),
    decreases nodes.len() - j,
{
    if j < nodes.len() && !leaves_subtree(nodes[j], k) {
        lemma_subtree_end_from(nodes, k, j + 1);
    }
}

/// The end of the subtree of node `k`.
pub fn subtree_end_of(nodes: &Vec<XmlNode>, k: usize) -> (res: usize)
    requires
        k < nodes@.len(),
    ensures
        res == subtree_end(node_views(nodes@), k as int),
        k < res <= nodes@.len(),
{
    let ghost nv = node_views(nodes@);
    let n = nodes.len();
    assert(k < n);
    let mut j = k + 1;
    while j < nodes.len()
        invariant
            k < j <= nodes@.len(),
            nv == node_views(nodes@),
            subtree_end_from(nv, k as int, j as int) == subtree_end(nv, k as int),
        decreases nodes@.len() - j,
    {
        assert(nv[j as int] == nodes@[j as int]@);
        let leaves = match nodes[j].parent {
            Some(p) => p < k,
            None => true,
        };
        if leaves {
            return j;
        }
        j = j + 1;
    }
    j
}

/// The first element named `tag` among the nodes `from..to`.
pub open spec fn first_element(nodes: Seq<XmlNodeView>, from: int, to: int, tag: Seq<char>) -> Option<int>
    decreases to - from,
{
    if from >= to || from < 0 || from >= nodes.len() {
        None
    } else if nodes[from].is_element && nodes[from].name == tag {
        Some(from)
    } else {
        first_element(nodes, from + 1, to, tag)
    }
}

/// A found element lies in the range and has the name.
pub proof fn lemma_first_element(nodes: Seq<XmlNodeView>, from: int, to: int, tag: Seq<char>)
    ensures
        first_element(nodes, from, to, tag) matches Some(i) ==> from <= i < to && 0 <= i
            < nodes.len() && nodes[i].is_element && nodes[i].name == tag,
    decreases to - from,
{
    if !(from >= to || from < 0 || from >= nodes.len()) && !(nodes[from].is_element
        && nodes[from].name == tag) {
        lemma_first_element(nodes, from + 1, to, tag);
    }
}

/// The first element named `tag` among the nodes `from..to`.
pub fn find_element(nodes: &Vec<XmlNode>, from: usize, to: usize, tag: &[char]) -> (res: Option<usize>)
    ensures
        match res {
            Some(i) => first_element(node_views(nodes@), from as int, to as int, tag@) == Some(i as int),
            None => first_element(node_views(nodes@), from as int, to as int, tag@) is None,
        },
{
    let ghost nv = node_views(nodes@);
    let mut i = from;
    while i < to && i < nodes.len()
        invariant
            from <= i,
            nv == node_views(nodes@),
            first_element(nv, i as int, to as int, tag@) == first_element(nv, from as int, to as int, tag@),
        decreases to - i,
    {
        assert(nv[i as int] == nodes@[i as int]@);
        if nodes[i].is_element && chars_eq(to_chars(nodes[i].name.as_str()).as_slice(), tag) {
            return Some(i);
        }
        i = i + 1;
    }
    None
}

/// The value of the first attribute named `name`.
pub open spec fn attr_of(attrs: Seq<(Seq<char>, Seq<char>)>, name: Seq<char>) -> Option<Seq<char>>
    decreases attrs.len(),
{
    if attrs.len() == 0 {
        None
    } else if attrs[0].0 == name {
        Some(attrs[0].1)
    } else {
        attr_of(attrs.drop_first(), name)
    }
}

/// The value of the node's first attribute named `name` (`Node::attribute`).
pub fn attribute(node: &XmlNode, name: &[char]) -> (res: Option<String>)
    ensures
        match res {
            Some(v) => attr_of(node@.attributes, name@) == Some(v@),
            None => attr_of(node@.attributes, name@) is None,
        },
{
    let ghost av = node@.attributes;
    let mut i: usize = 0;
    assert(av.skip(0) =~= av);
    while i < node.attributes.len()
        invariant
            i <= node.attributes@.len(),
            av == node@.attributes,
            av.len() == node.attributes@.len(),
            attr_of(av.skip(i as int), name@) == attr_of(av, name@),
        decreases node.attributes@.len() - i,
    {
        let a = &node.attributes[i];
        assert(av[i as int] == (a.name@, a.value@));
        assert(av.skip(i as int)[0] == av[i as int]);
        assert(av.skip(i as int).drop_first() =~= av.skip(i + 1));
        if chars_eq(to_chars(a.name.as_str()).as_slice(), name) {
            return Some(a.value.clone());
        }
        i = i + 1;
    }
    assert(av.skip(i as int) =~= Seq::<(Seq<char>, Seq<char>)>::empty());
    None
}

/// A copy of a node's text.
pub fn node_text(node: &XmlNode) -> (res: Option<String>)
    ensures
        match res {
            Some(t) => node@.text == Some(t@),
            None => node@.text is None,
        },
{
    match &node.text {
        Some(t) => Some(t.clone()),
        None => None,
    }
}

} // verus!
