//! The rules about which accesses invalidate which loans: access kind ×
//! loan kind × place disjointness × shallow/deep depth.

use vstd::prelude::*;

use crate::ast::{
    deref_count, place_disjoint, projections_diverge, AccessKind, Place, PlaceView,
};

verus! {

/// Whether an access reads or writes the place it touches.
#[derive(Clone, Copy, Debug, PartialEq, Eq, Structural)]
pub enum AccessRw {
    Read,
    Write,
}

/// How deep an access reaches.
#[derive(Clone, Copy, Debug, PartialEq, Eq, Structural)]
pub enum AccessDepth {
    /// An access that affects only the outermost layer of a place and does
    /// not touch any origins in the type of the accessed place.
    Shallow,
    /// An access to some place `p` that touches all origins in the type of
    /// `p`.
    Deep,
}

/// Whether a loan was created by a shared or a unique borrow.
#[derive(Clone, Copy, Debug, PartialEq, Eq, Structural)]
pub enum BorrowKind {
    /// `&mut`.
    Unique,
    /// `&`.
    Shared,
}

/// One access of a place, as derived from the syntactic position of the
/// place: `copy p` reads deeply, `move p` writes deeply, `&p` reads deeply,
/// `&mut p` writes deeply, and the left-hand side of an assignment writes
/// shallowly.
#[derive(Debug)]
pub struct Access {
    pub place: Place,
    pub rw: AccessRw,
    pub depth: AccessDepth,
}

/// Spec-level mirror of `Access`.
pub struct AccessView {
    pub place: PlaceView,
    pub rw: AccessRw,
    pub depth: AccessDepth,
}

impl DeepView for Access {
    type V = AccessView;

    open spec fn deep_view(&self) -> AccessView {
        AccessView { place: self.place.deep_view(), rw: self.rw, depth: self.depth }
    }
}

/// A loan of a place: the abstract resource created by a borrow expression.
#[derive(Debug)]
pub struct Loan {
    pub place: Place,
    pub kind: BorrowKind,
}

/// Spec-level mirror of `Loan`.
pub struct LoanView {
    pub place: PlaceView,
    pub kind: BorrowKind,
}

impl DeepView for Loan {
    type V = LoanView;

    open spec fn deep_view(&self) -> LoanView {
        LoanView { place: self.place.deep_view(), kind: self.kind }
    }
}

/// The access mode that a given syntactic access kind stands for.
pub open spec fn mode_of_kind(kind: crate::ast::AccessKindView) -> (AccessRw, AccessDepth) {
    match kind {
        crate::ast::AccessKindView::Copy => (AccessRw::Read, AccessDepth::Deep),
        crate::ast::AccessKindView::Move => (AccessRw::Write, AccessDepth::Deep),
        crate::ast::AccessKindView::Borrow(o) => (AccessRw::Read, AccessDepth::Deep),
        crate::ast::AccessKindView::BorrowMut(o) => (AccessRw::Write, AccessDepth::Deep),
    }
}

/// The invalidation predicate: an access invalidates a loan iff the access
/// or the loan allows mutation, the two places are not disjoint (one is a
/// prefix of the other), and — for a shallow access — the two places have
/// the same number of deref steps.
pub open spec fn spec_invalidates(a: AccessView, l: LoanView) -> bool {
    &&& !(a.rw == AccessRw::Read && l.kind == BorrowKind::Shared)
    &&& !place_disjoint(a.place, l.place)
    &&& (a.depth == AccessDepth::Deep || deref_count(a.place.projections) == deref_count(
        l.place.projections,
    ))
}

impl Access {
    /// The `Access` that an access expression of the given kind performs on
    /// the given place.
    pub fn from_expr(kind: &AccessKind, place: &Place) -> (r: Access)
        ensures
            r.deep_view().place == place.deep_view(),
            (r.rw, r.depth) == mode_of_kind(kind.deep_view()),
    {
        let (rw, depth) = match kind {
            AccessKind::Copy => (AccessRw::Read, AccessDepth::Deep),
            AccessKind::Move => (AccessRw::Write, AccessDepth::Deep),
            AccessKind::Borrow(_) => (AccessRw::Read, AccessDepth::Deep),
            AccessKind::BorrowMut(_) => (AccessRw::Write, AccessDepth::Deep),
        };
        Access { place: place.clone(), rw, depth }
    }

    /// The `Access` representing the left-hand side of an assignment
    /// (`lhs = ...`): a shallow write.
    pub fn from_assignment_lhs(lhs: &Place) -> (r: Access)
        ensures
            r.deep_view().place == lhs.deep_view(),
            r.rw == AccessRw::Write,
            r.depth == AccessDepth::Shallow,
    {
        Access { place: lhs.clone(), rw: AccessRw::Write, depth: AccessDepth::Shallow }
    }

    /// Whether this access invalidates the given loan.
    pub fn invalidates(&self, loan: Loan) -> (r: bool)
        ensures
            r == spec_invalidates(self.deep_view(), loan.deep_view()),
    {
        // Either the access or the loan allows mutation: a shared read of a
        // shared-loaned place is permitted.
        if matches!(self.rw, AccessRw::Read) && matches!(loan.kind, BorrowKind::Shared) {
            return false;
        }
        // One of the two places must be a prefix of the other.
        if self.place.is_disjoint(&loan.place) {
            return false;
        }
        // A shallow access only invalidates loans at the same deref depth: a
        // shallow write through the root of `p` does not affect loans of
        // `*p`.
        if matches!(self.depth, AccessDepth::Shallow) && self.place.num_derefs()
            != loan.place.num_derefs() {
            return false;
        }
        true
    }
}

/// Projection paths never diverge from themselves.
pub proof fn lemma_projections_diverge_irreflexive(a: Seq<crate::ast::ProjectionView>)
    ensures
        !projections_diverge(a, a),
    decreases a.len(),
{
    if a.len() > 0 {
        lemma_projections_diverge_irreflexive(a.subrange(1, a.len() as int));
    }
}

/// Divergence of projection paths is symmetric.
pub proof fn lemma_projections_diverge_commutative(
    a: Seq<crate::ast::ProjectionView>,
    b: Seq<crate::ast::ProjectionView>,
)
    ensures
        projections_diverge(a, b) == projections_diverge(b, a),
    decreases a.len(),
{
    if a.len() > 0 && b.len() > 0 {
        lemma_projections_diverge_commutative(
            a.subrange(1, a.len() as int),
            b.subrange(1, b.len() as int),
        );
    }
}

/// Disjointness of places is irreflexive: no place is disjoint from itself.
pub proof fn lemma_disjoint_irreflexive(p: PlaceView)
    ensures
        !place_disjoint(p, p),
{
    lemma_projections_diverge_irreflexive(p.projections);
}

/// Disjointness of places is commutative.
pub proof fn lemma_disjoint_commutative(p: PlaceView, q: PlaceView)
    ensures
        place_disjoint(p, q) == place_disjoint(q, p),
{
    lemma_projections_diverge_commutative(p.projections, q.projections);
}

/// A place is never disjoint from a prefix of itself.
pub proof fn lemma_prefix_not_disjoint(p: PlaceView, q: PlaceView)
    requires
        p.base == q.base,
        q.projections.len() <= p.projections.len(),
        q.projections == p.projections.subrange(0, q.projections.len() as int),
    ensures
        !place_disjoint(p, q),
    decreases q.projections.len(),
{
    let a = p.projections;
    let b = q.projections;
    if b.len() == 0 {
        assert(!projections_diverge(a, b));
    } else {
        assert(b[0] == a[0]);
        let p2 = PlaceView { base: p.base, projections: a.subrange(1, a.len() as int) };
        let q2 = PlaceView { base: q.base, projections: b.subrange(1, b.len() as int) };
        assert(q2.projections =~= p2.projections.subrange(0, q2.projections.len() as int));
        lemma_prefix_not_disjoint(p2, q2);
    }
}

} // verus!
