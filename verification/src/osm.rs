//! The OpenStreetMap document model: nodes, tags, ways and the
//! document that owns them.
//!
//! A way does not own its nodes; it holds node ids, resolved through
//! the owning document's node table, since many ways may share one
//! node.  A document is built once and then only read.

use vstd::prelude::*;

use crate::geo::Coord;

verus! {

/// A map node: a geographic point with a document-unique id.
#[derive(Clone, Copy, PartialEq, Eq, Structural, Debug)]
pub struct OsmNode {
    pub id: i64,
    pub coord: Coord,
}

/// A key/value tag, owned by the way that declares it.
#[derive(Clone, Debug)]
pub struct OsmTag {
    pub k: String,
    pub v: String,
}

/// A way: an ordered polyline of node references, with its tags.
#[derive(Clone, Debug)]
pub struct OsmWay {
    pub id: i64,
    pub node_refs: Vec<i64>,
    pub tags: Vec<OsmTag>,
}

/// A document: nodes and ways in insertion order.
#[derive(Clone, Debug)]
pub struct OsmDocument {
    pub nodes: Vec<OsmNode>,
    pub ways: Vec<OsmWay>,
}

/// The first node with the given id at or after position `i`.
pub open spec fn spec_node_from(nodes: Seq<OsmNode>, id: i64, i: int) -> Option<OsmNode>
    decreases nodes.len() - i,
{
    if i < 0 || i >= nodes.len() {
        None
    } else if nodes[i].id == id {
        Some(nodes[i])
    } else {
        spec_node_from(nodes, id, i + 1)
    }
}

/// A node produced by `spec_node_from` is one of the sequence's nodes.
proof fn lemma_node_from_member(nodes: Seq<OsmNode>, id: i64, i: int)
    requires
        spec_node_from(nodes, id, i) is Some,
    ensures
        exists|t: int|
            0 <= t < nodes.len() && nodes[t] == spec_node_from(nodes, id, i).unwrap(),
    decreases nodes.len() - i,
{
    if 0 <= i < nodes.len() && nodes[i].id != id {
        lemma_node_from_member(nodes, id, i + 1);
    }
}

impl OsmDocument {
    /// The node the given id resolves to: the first node carrying it.
    pub open spec fn spec_find_node(self, id: i64) -> Option<OsmNode> {
        spec_node_from(self.nodes@, id, 0)
    }

    /// Every node of the document carries a valid coordinate.
    pub open spec fn wf(self) -> bool {
        forall|i: int| 0 <= i < self.nodes@.len() ==> (#[trigger] self.nodes@[i]).coord.valid()
    }

    /// An empty document.
    pub fn new() -> (d: OsmDocument)
        ensures
            d.nodes@.len() == 0,
            d.ways@.len() == 0,
            d.wf(),
    {
        OsmDocument { nodes: Vec::new(), ways: Vec::new() }
    }

    /// Resolve a node id through the document's node table.
    pub fn find_node(&self, id: i64) -> (r: Option<OsmNode>)
        ensures
            r == self.spec_find_node(id),
    {
        let mut i: usize = 0;
        while i < self.nodes.len()
            invariant
                i <= self.nodes@.len(),
                spec_node_from(self.nodes@, id, 0) == spec_node_from(self.nodes@, id, i as int),
            decreases self.nodes@.len() - i,
        {
            if self.nodes[i].id == id {
                return Some(self.nodes[i]);
            }
            i = i + 1;
        }
        None
    }
}

/// In a well-formed document every resolvable id yields a valid
/// coordinate.
pub proof fn lemma_find_node_valid(doc: OsmDocument, id: i64)
    requires
        doc.wf(),
        doc.spec_find_node(id) is Some,
    ensures
        doc.spec_find_node(id).unwrap().coord.valid(),
{
    lemma_node_from_member(doc.nodes@, id, 0);
}

} // verus!
