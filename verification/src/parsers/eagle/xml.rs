//! An XML document as the list of its nodes in document order, each with its
//! level (how many nodes, itself included, lie on its path from the root),
//! its local tag name (empty for anything but an element) and its
//! attributes. The children of a node are the nodes one level deeper before
//! the first node at or above its level.
use vstd::prelude::*;

use crate::text::{chars_of, eq_str};

verus! {

/// One node of a document.
#[derive(Debug, Clone)]
pub struct XmlNode {
    /// The number of nodes from the root down to this one, both included.
    pub level: usize,
    /// The local tag name of an element; empty for other nodes.
    pub name: String,
    /// Local name and value of each attribute, in document order.
    pub attributes: Vec<(String, String)>,
}

pub struct XmlNodeView {
    pub level: nat,
    pub name: Seq<char>,
    pub attributes: Seq<(Seq<char>, Seq<char>)>,
}

impl View for XmlNode {
    type V = XmlNodeView;

    open spec fn view(&self) -> XmlNodeView {
        XmlNodeView {
            level: self.level as nat,
            name: self.name@,
            attributes: Seq::new(self.attributes@.len(), |i: int| (self.attributes@[i].0@, self.attributes@[i].1@)),
        }
    }
}

pub open spec fn nodes_view(v: Seq<XmlNode>) -> Seq<XmlNodeView> {
    Seq::new(v.len(), |i: int| v[i]@)
}

/// The nodes of the document that `text` holds (DTDs allowed), or the
/// reader's error text.
pub uninterp spec fn xml_nodes(text: Seq<char>) -> Result<Seq<XmlNodeView>, Seq<char>>;

pub open spec fn xml_result_view(r: Result<Vec<XmlNode>, String>) -> Result<Seq<XmlNodeView>, Seq<char>> {
    match r {
        Ok(v) => Ok(nodes_view(v@)),
        Err(e) => Err(e@),
    }
}

/// Calls `roxmltree::Document::parse_with_options` with DTDs allowed and
/// lists the document's nodes (`descendants` of the document, in document
/// order) with `ancestors().count()`, `tag_name().name()` and the local
/// names and values of `attributes()`; an error becomes its text. The
/// result is named [`xml_nodes`]; what a document holds is not written out.
#[verifier::external_body]
pub(crate) fn read_xml(text: &str) -> (res: Result<Vec<XmlNode>, String>)
    ensures
        xml_result_view(res) == xml_nodes(text@),
{
    let opts = roxmltree::ParsingOptions { allow_dtd: true, ..roxmltree::ParsingOptions::default() };
    match roxmltree::Document::parse_with_options(text, opts) {
        Ok(doc) => Ok(doc
            .descendants()
            .map(|n| XmlNode {
                level: n.ancestors().count(),
                name: n.tag_name().name().to_string(),
                attributes: n.attributes().map(|a| (a.name().to_string(), a.value().to_string())).collect(),
            })
            .collect()),
        Err(e) => Err(e.to_string()),
    }
}

// ───────────────────────────── navigation ─────────────────────────────

/// The children of a node at level `lvl`, scanning from node `k` on.
pub open spec fn kids_from(nodes: Seq<XmlNodeView>, lvl: nat, k: int) -> Seq<int>
    decreases nodes.len() - k,
{
    if k < 0 || k >= nodes.len() || nodes[k].level <= lvl {
        seq![]
    } else if nodes[k].level == lvl + 1 {
        seq![k] + kids_from(nodes, lvl, k + 1)
    } else {
        kids_from(nodes, lvl, k + 1)
    }
}

/// The children of node `i`, in order.
pub open spec fn children_of(nodes: Seq<XmlNodeView>, i: int) -> Seq<int> {
    kids_from(nodes, nodes[i].level, i + 1)
}

/// The children of node `i` whose tag name is `tag`, in order.
pub open spec fn children_named(nodes: Seq<XmlNodeView>, i: int, tag: Seq<char>) -> Seq<int> {
    children_of(nodes, i).filter(|k: int| nodes[k].name == tag)
}

/// The first attribute called `name`.
pub open spec fn attr_of(attrs: Seq<(Seq<char>, Seq<char>)>, name: Seq<char>) -> Option<Seq<char>>
    decreases attrs.len(),
{
    if attrs.len() == 0 {
        None
    } else if attrs[0].0 == name {
        Some(attrs[0].1)
    } else {
        attr_of(attrs.drop_first(), name)
    }
}

/// The first node whose tag name is `tag`, from node `k` on.
pub open spec fn first_named_from(nodes: Seq<XmlNodeView>, tag: Seq<char>, k: int) -> Option<int>
    decreases nodes.len() - k,
{
    if k < 0 || k >= nodes.len() {
        None
    } else if nodes[k].name == tag {
        Some(k)
    } else {
        first_named_from(nodes, tag, k + 1)
    }
}

proof fn lemma_kids_in_range(nodes: Seq<XmlNodeView>, lvl: nat, k: int)
    requires
        k >= 0,
    ensures
        forall|j: int| 0 <= j < kids_from(nodes, lvl, k).len() ==> k <= #[trigger] kids_from(nodes, lvl, k)[j] < nodes.len(),
    decreases nodes.len() - k,
{
    if k < nodes.len() && nodes[k].level > lvl {
        lemma_kids_in_range(nodes, lvl, k + 1);
        if nodes[k].level == lvl + 1 {
            assert(kids_from(nodes, lvl, k) == seq![k] + kids_from(nodes, lvl, k + 1));
            assert forall|j: int| 0 <= j < kids_from(nodes, lvl, k).len() implies k <= #[trigger] kids_from(nodes, lvl, k)[j] < nodes.len() by {
                if j > 0 {
                    assert(kids_from(nodes, lvl, k)[j] == kids_from(nodes, lvl, k + 1)[j - 1]);
                } else {
                    assert(kids_from(nodes, lvl, k)[0] == k);
                }
            }
        } else {
            assert(kids_from(nodes, lvl, k) == kids_from(nodes, lvl, k + 1));
        }
    }
}

/// The children of node `i`, in order.
pub fn children(nodes: &[XmlNode], i: usize) -> (res: Vec<usize>)
    requires
        i < nodes@.len(),
    ensures
        res@.map_values(|k: usize| k as int) == children_of(nodes_view(nodes@), i as int),
        forall|j: int| 0 <= j < res@.len() ==> i < #[trigger] res@[j] < nodes@.len(),
{
    let ghost nv = nodes_view(nodes@);
    let lvl = nodes[i].level;
    let mut out: Vec<usize> = Vec::new();
    let mut k = i + 1;
    proof {
        lemma_kids_in_range(nv, lvl as nat, (i + 1) as int);
    }
    assert(out@.map_values(|k: usize| k as int) + kids_from(nv, lvl as nat, k as int) =~= children_of(nv, i as int));
    while k < nodes.len() && nodes[k].level > lvl
        invariant
            i < k <= nodes@.len(),
            nv == nodes_view(nodes@),
            lvl == nodes@[i as int].level,
            out@.map_values(|k: usize| k as int) + kids_from(nv, lvl as nat, k as int) == children_of(nv, i as int),
            forall|j: int| 0 <= j < out@.len() ==> i < #[trigger] out@[j] < k,
        decreases nodes@.len() - k,
    {
        let ghost before = out@.map_values(|k: usize| k as int);
        if nodes[k].level == lvl + 1 {
            out.push(k);
            assert(out@.map_values(|k: usize| k as int) =~= before.push(k as int));
            assert(before.push(k as int) + kids_from(nv, lvl as nat, k + 1) =~= before + kids_from(nv, lvl as nat, k as int));
        }
        k += 1;
    }
    assert(kids_from(nv, lvl as nat, k as int) =~= Seq::<int>::empty());
    assert(out@.map_values(|k: usize| k as int) + Seq::<int>::empty() =~= out@.map_values(|k: usize| k as int));
    out
}

/// The first attribute of a node called `name`.
pub fn attribute<'a>(node: &'a XmlNode, name: &str) -> (res: Option<&'a String>)
    ensures
        match res {
            Some(v) => attr_of(node@.attributes, name@) == Some(v@),
            None => attr_of(node@.attributes, name@) is None,
        },
{
    let ghost av = node@.attributes;
    let mut i: usize = 0;
    assert(av.skip(0) =~= av);
    while i < node.attributes.len()
        invariant
            i <= node.attributes@.len(),
            av == node@.attributes,
            attr_of(av, name@) == attr_of(av.skip(i as int), name@),
        decreases node.attributes@.len() - i,
    {
        assert(av.skip(i as int).drop_first() =~= av.skip(i + 1));
        assert(av.skip(i as int)[0] == av[i as int]);
        if eq_str(&chars_of(node.attributes[i].0.as_str()), name) {
            return Some(&node.attributes[i].1);
        }
        i += 1;
    }
    assert(av.skip(i as int) =~= Seq::<(Seq<char>, Seq<char>)>::empty());
    None
}

/// Whether a node's tag name is `tag`.
pub fn has_name(node: &XmlNode, tag: &str) -> (res: bool)
    ensures
        res == (node@.name == tag@),
{
    eq_str(&chars_of(node.name.as_str()), tag)
}

/// The first node whose tag name is `tag`.
pub fn first_named(nodes: &[XmlNode], tag: &str) -> (res: Option<usize>)
    ensures
        match res {
            Some(k) => first_named_from(nodes_view(nodes@), tag@, 0) == Some(k as int),
            None => first_named_from(nodes_view(nodes@), tag@, 0) is None,
        },
{
    let ghost nv = nodes_view(nodes@);
    let mut k: usize = 0;
    while k < nodes.len()
        invariant
            k <= nodes@.len(),
            nv == nodes_view(nodes@),
            first_named_from(nv, tag@, 0) == first_named_from(nv, tag@, k as int),
        decreases nodes@.len() - k,
    {
        if has_name(&nodes[k], tag) {
            return Some(k);
        }
        k += 1;
    }
    None
}

} // verus!
