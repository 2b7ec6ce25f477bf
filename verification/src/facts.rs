//! The relational output of the fact emitter: five append-only relations
//! whose rows name origins and program points.

use vstd::prelude::*;

use crate::ast::Name;

verus! {

/// A program point: the statement at `index` within the block named
/// `block`. An empty block exposes the point `index == 0` purely for
/// control-flow connectivity. The serialized form is `"<block>[<index>]"`.
#[derive(Debug, PartialEq, Eq, Hash)]
pub struct Node {
    pub block: Name,
    pub index: usize,
}

/// Spec-level mirror of `Node`.
pub struct NodeView {
    pub block: Seq<char>,
    pub index: int,
}

impl DeepView for Node {
    type V = NodeView;

    open spec fn deep_view(&self) -> NodeView {
        NodeView { block: self.block@, index: self.index as int }
    }
}

impl Clone for Node {
    fn clone(&self) -> (r: Self)
        ensures
            r.deep_view() == self.deep_view(),
    {
        Node { block: self.block.clone(), index: self.index }
    }
}

/// The program point for the statement at `idx` in the block named `block`.
pub fn node_at(block: &Name, idx: usize) -> (r: Node)
    ensures
        r.deep_view() == (NodeView { block: block@, index: idx as int }),
{
    Node { block: block.clone(), index: idx }
}

/// The five output relations, stored as append-only sequences of tuples in
/// the order the emitter produced them.
#[derive(Debug)]
pub struct Facts {
    pub access_origin: Vec<(Name, Node)>,
    pub cfg_edge: Vec<(Node, Node)>,
    pub clear_origin: Vec<(Name, Node)>,
    pub introduce_subset: Vec<(Name, Name, Node)>,
    pub invalidate_origin: Vec<(Name, Node)>,
}

/// Spec-level mirror of `Facts`.
pub struct FactsView {
    pub access_origin: Seq<(Seq<char>, NodeView)>,
    pub cfg_edge: Seq<(NodeView, NodeView)>,
    pub clear_origin: Seq<(Seq<char>, NodeView)>,
    pub introduce_subset: Seq<(Seq<char>, Seq<char>, NodeView)>,
    pub invalidate_origin: Seq<(Seq<char>, NodeView)>,
}

impl DeepView for Facts {
    type V = FactsView;

    open spec fn deep_view(&self) -> FactsView {
        FactsView {
            access_origin: self.access_origin.deep_view(),
            cfg_edge: self.cfg_edge.deep_view(),
            clear_origin: self.clear_origin.deep_view(),
            introduce_subset: self.introduce_subset.deep_view(),
            invalidate_origin: self.invalidate_origin.deep_view(),
        }
    }
}

impl Default for Facts {
    /// Five empty relations.
    fn default() -> (r: Self)
        ensures
            r.deep_view() == fv_empty(),
    {
        let r = Facts {
            access_origin: Vec::new(),
            cfg_edge: Vec::new(),
            clear_origin: Vec::new(),
            introduce_subset: Vec::new(),
            invalidate_origin: Vec::new(),
        };
        proof {
            assert(r.deep_view().access_origin =~= fv_empty().access_origin);
            assert(r.deep_view().cfg_edge =~= fv_empty().cfg_edge);
            assert(r.deep_view().clear_origin =~= fv_empty().clear_origin);
            assert(r.deep_view().introduce_subset =~= fv_empty().introduce_subset);
            assert(r.deep_view().invalidate_origin =~= fv_empty().invalidate_origin);
        }
        r
    }
}

/// The empty fact bundle.
pub open spec fn fv_empty() -> FactsView {
    FactsView {
        access_origin: Seq::empty(),
        cfg_edge: Seq::empty(),
        clear_origin: Seq::empty(),
        introduce_subset: Seq::empty(),
        invalidate_origin: Seq::empty(),
    }
}

/// Relation-wise concatenation of two fact bundles.
pub open spec fn fv_add(a: FactsView, b: FactsView) -> FactsView {
    FactsView {
        access_origin: a.access_origin + b.access_origin,
        cfg_edge: a.cfg_edge + b.cfg_edge,
        clear_origin: a.clear_origin + b.clear_origin,
        introduce_subset: a.introduce_subset + b.introduce_subset,
        invalidate_origin: a.invalidate_origin + b.invalidate_origin,
    }
}

pub proof fn lemma_fv_add_empty(a: FactsView)
    ensures
        fv_add(a, fv_empty()) == a,
        fv_add(fv_empty(), a) == a,
{
    assert(fv_add(a, fv_empty()).access_origin =~= a.access_origin);
    assert(fv_add(a, fv_empty()).cfg_edge =~= a.cfg_edge);
    assert(fv_add(a, fv_empty()).clear_origin =~= a.clear_origin);
    assert(fv_add(a, fv_empty()).introduce_subset =~= a.introduce_subset);
    assert(fv_add(a, fv_empty()).invalidate_origin =~= a.invalidate_origin);
    assert(fv_add(fv_empty(), a).access_origin =~= a.access_origin);
    assert(fv_add(fv_empty(), a).cfg_edge =~= a.cfg_edge);
    assert(fv_add(fv_empty(), a).clear_origin =~= a.clear_origin);
    assert(fv_add(fv_empty(), a).introduce_subset =~= a.introduce_subset);
    assert(fv_add(fv_empty(), a).invalidate_origin =~= a.invalidate_origin);
}

pub proof fn lemma_fv_add_assoc(a: FactsView, b: FactsView, c: FactsView)
    ensures
        fv_add(fv_add(a, b), c) == fv_add(a, fv_add(b, c)),
{
    assert(fv_add(fv_add(a, b), c).access_origin =~= fv_add(a, fv_add(b, c)).access_origin);
    assert(fv_add(fv_add(a, b), c).cfg_edge =~= fv_add(a, fv_add(b, c)).cfg_edge);
    assert(fv_add(fv_add(a, b), c).clear_origin =~= fv_add(a, fv_add(b, c)).clear_origin);
    assert(fv_add(fv_add(a, b), c).introduce_subset =~= fv_add(a, fv_add(b, c)).introduce_subset);
    assert(fv_add(fv_add(a, b), c).invalidate_origin =~= fv_add(a, fv_add(b, c)).invalidate_origin);
}

} // verus!
