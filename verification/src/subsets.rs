//! Structural subset introduction between the two sides of an assignment,
//! with variance: a shared reference position emits one directed pair, a
//! unique reference position makes every descendant origin pair invariant,
//! so both directions are emitted there.

use vstd::prelude::*;

use crate::ast::{
    lemma_param_view_variants, lemma_size_of_param_le, lemma_ty_view_variants, size_of_param,
    size_of_params, size_of_ty, view_params, Name, Parameter, ParameterView, Ty, TyView,
};
use crate::facts::{Node, NodeView};
use crate::resolve::{ErrorKind, ErrorKindView};

verus! {

/// One `introduce_subset` row: source origin, target origin, node.
pub type SubsetRowView = (Seq<char>, Seq<char>, NodeView);

/// The pair(s) emitted for one origin position: `(src, tgt)` in covariant
/// mode, both `(src, tgt)` and `(tgt, src)` in invariant mode.
pub open spec fn subset_pairs(src: Seq<char>, tgt: Seq<char>, invariant_mode: bool, n: NodeView)
    -> Seq<SubsetRowView> {
    if invariant_mode {
        seq![(src, tgt, n), (tgt, src, n)]
    } else {
        seq![(src, tgt, n)]
    }
}

/// Prefixes already-emitted rows onto the outcome of matching the rest.
pub open spec fn prepend_rows(
    acc: Seq<SubsetRowView>,
    r: Result<Seq<SubsetRowView>, ErrorKindView>,
) -> Result<Seq<SubsetRowView>, ErrorKindView> {
    match r {
        Ok(rest) => Ok(acc + rest),
        Err(e) => Err(e),
    }
}

pub proof fn lemma_prepend_assoc(
    a: Seq<SubsetRowView>,
    b: Seq<SubsetRowView>,
    r: Result<Seq<SubsetRowView>, ErrorKindView>,
)
    ensures
        prepend_rows(a, prepend_rows(b, r)) == prepend_rows(a + b, r),
{
    match r {
        Ok(rest) => {
            assert(a + (b + rest) =~= (a + b) + rest);
        },
        Err(e) => {},
    }
}

/// Structural matching of the target (left-hand) type against the source
/// (right-hand) type. Both must have the same shape; each corresponding
/// origin position contributes its pair(s); descending through a unique
/// reference switches to invariant mode for everything beneath it.
pub open spec fn match_subsets(lhs: TyView, rhs: TyView, invariant_mode: bool, n: NodeView)
    -> Result<Seq<SubsetRowView>, ErrorKindView>
    decreases size_of_ty(lhs), 0int,
{
    match (lhs, rhs) {
        (TyView::Ref { origin: to, ty: tt }, TyView::Ref { origin: so, ty: st }) => match
            match_subsets(*tt, *st, invariant_mode, n) {
            Ok(rows) => Ok(subset_pairs(so, to, invariant_mode, n) + rows),
            Err(e) => Err(e),
        },
        (TyView::RefMut { origin: to, ty: tt }, TyView::RefMut { origin: so, ty: st }) => match
            match_subsets(*tt, *st, true, n) {
            Ok(rows) => Ok(subset_pairs(so, to, invariant_mode, n) + rows),
            Err(e) => Err(e),
        },
        (TyView::I32, TyView::I32) => Ok(Seq::empty()),
        (TyView::Unit, TyView::Unit) => Ok(Seq::empty()),
        (
            TyView::Struct { name: n1, parameters: ps1 },
            TyView::Struct { name: n2, parameters: ps2 },
        ) => {
            if n1 == n2 {
                match_params_from(ps1, ps2, invariant_mode, n, 0)
            } else {
                Err(ErrorKindView::ShapeMismatch)
            }
        },
        _ => Err(ErrorKindView::ShapeMismatch),
    }
}

/// Pairwise matching of two parameter lists from position `i` on. Origin
/// positions contribute their pair(s); type positions are matched
/// structurally; lists of different lengths or positions of different
/// kinds are shape mismatches.
pub open spec fn match_params_from(
    ps1: Seq<ParameterView>,
    ps2: Seq<ParameterView>,
    invariant_mode: bool,
    n: NodeView,
    i: int,
) -> Result<Seq<SubsetRowView>, ErrorKindView>
    decreases size_of_params(ps1), ps1.len() - i,
{
    if 0 <= i < ps1.len() && i < ps2.len() {
        match (ps1[i], ps2[i]) {
            (ParameterView::Origin(t), ParameterView::Origin(s)) => match match_params_from(
                ps1,
                ps2,
                invariant_mode,
                n,
                i + 1,
            ) {
                Ok(rest) => Ok(subset_pairs(s, t, invariant_mode, n) + rest),
                Err(e) => Err(e),
            },
            (ParameterView::Ty(t1), ParameterView::Ty(t2)) => {
                proof {
                    lemma_size_of_param_le(ps1, i);
                }
                match match_subsets(t1, t2, invariant_mode, n) {
                    Ok(rows) => match match_params_from(ps1, ps2, invariant_mode, n, i + 1) {
                        Ok(rest) => Ok(rows + rest),
                        Err(e) => Err(e),
                    },
                    Err(e) => Err(e),
                }
            },
            _ => Err(ErrorKindView::ShapeMismatch),
        }
    } else if (i >= ps1.len() || i < 0) && i >= ps2.len() {
        Ok(Seq::empty())
    } else {
        Err(ErrorKindView::ShapeMismatch)
    }
}

/// Appends the subset rows for matching `lhs` (the assignment target's
/// type) against `rhs` (the source's type) to `out`; fails exactly when the
/// specification-level matching fails, with the same error, in which case
/// nothing is promised about `out`.
#[verifier::loop_isolation(false)]
pub fn emit_subsets_into(
    lhs: &Ty,
    rhs: &Ty,
    invariant_mode: bool,
    node: &Node,
    out: &mut Vec<(Name, Name, Node)>,
) -> (r: Result<(), ErrorKind>)
    ensures
        match r {
            Ok(u) => match_subsets(
                lhs.deep_view(),
                rhs.deep_view(),
                invariant_mode,
                node.deep_view(),
            ) matches Ok(rows) && final(out).deep_view() == old(out).deep_view() + rows,
            Err(e) => match_subsets(
                lhs.deep_view(),
                rhs.deep_view(),
                invariant_mode,
                node.deep_view(),
            ) == Err::<Seq<SubsetRowView>, ErrorKindView>(e.deep_view()),
        },
    decreases size_of_ty(lhs.deep_view()), 0int,
{
    broadcast use crate::ast::lemma_view_params_len, crate::ast::lemma_view_params_index_at;

    let ghost nv = node.deep_view();
    match lhs {
        Ty::Ref { origin: to, ty: tt } => {
            match rhs {
                Ty::Ref { origin: so, ty: st } => {
                    let ghost prev = out.deep_view();
                    out.push((so.clone(), to.clone(), node.clone()));
                    if invariant_mode {
                        out.push((to.clone(), so.clone(), node.clone()));
                    }
                    proof {
                        assert(out.deep_view() =~= prev + subset_pairs(
                            so@,
                            to@,
                            invariant_mode,
                            nv,
                        ));
                    }
                    let rec = emit_subsets_into(tt, st, invariant_mode, node, out);
                    match rec {
                        Ok(_) => {
                            proof {
                                assert(out.deep_view() =~= old(out).deep_view() + (subset_pairs(
                                    so@,
                                    to@,
                                    invariant_mode,
                                    nv,
                                ) + match_subsets(
                                    tt.deep_view(),
                                    st.deep_view(),
                                    invariant_mode,
                                    nv,
                                )->Ok_0));
                            }
                            Ok(())
                        },
                        Err(e) => Err(e),
                    }
                },
                _ => {
                    proof {
                        lemma_ty_view_variants(*rhs);
                    }
                    Err(ErrorKind::ShapeMismatch)
                },
            }
        },
        Ty::RefMut { origin: to, ty: tt } => {
            match rhs {
                Ty::RefMut { origin: so, ty: st } => {
                    let ghost prev = out.deep_view();
                    out.push((so.clone(), to.clone(), node.clone()));
                    if invariant_mode {
                        out.push((to.clone(), so.clone(), node.clone()));
                    }
                    proof {
                        assert(out.deep_view() =~= prev + subset_pairs(
                            so@,
                            to@,
                            invariant_mode,
                            nv,
                        ));
                    }
                    let rec = emit_subsets_into(tt, st, true, node, out);
                    match rec {
                        Ok(_) => {
                            proof {
                                assert(out.deep_view() =~= old(out).deep_view() + (subset_pairs(
                                    so@,
                                    to@,
                                    invariant_mode,
                                    nv,
                                ) + match_subsets(tt.deep_view(), st.deep_view(), true, nv)->Ok_0));
                            }
                            Ok(())
                        },
                        Err(e) => Err(e),
                    }
                },
                _ => {
                    proof {
                        lemma_ty_view_variants(*rhs);
                    }
                    Err(ErrorKind::ShapeMismatch)
                },
            }
        },
        Ty::I32 => {
            match rhs {
                Ty::I32 => {
                    proof {
                        assert(out.deep_view() =~= old(out).deep_view() + Seq::<
                            SubsetRowView,
                        >::empty());
                    }
                    Ok(())
                },
                _ => {
                    proof {
                        lemma_ty_view_variants(*rhs);
                    }
                    Err(ErrorKind::ShapeMismatch)
                },
            }
        },
        Ty::Unit => {
            match rhs {
                Ty::Unit => {
                    proof {
                        assert(out.deep_view() =~= old(out).deep_view() + Seq::<
                            SubsetRowView,
                        >::empty());
                    }
                    Ok(())
                },
                _ => {
                    proof {
                        lemma_ty_view_variants(*rhs);
                    }
                    Err(ErrorKind::ShapeMismatch)
                },
            }
        },
        Ty::Struct { name: n1, parameters: ps1 } => {
            match rhs {
                Ty::Struct { name: n2, parameters: ps2 } => {
                    let ghost ps1v = view_params(ps1@);
                    let ghost ps2v = view_params(ps2@);
                    if !(*n1 == *n2) {
                        return Err(ErrorKind::ShapeMismatch);
                    }
                    let len1 = ps1.len();
                    let len2 = ps2.len();
                    let mut i: usize = 0;
                    let ghost mut acc: Seq<SubsetRowView> = Seq::empty();
                    proof {
                        assert(out.deep_view() =~= old(out).deep_view() + acc);
                    }
                    while i < len1 && i < len2
                        invariant
                            i <= len1,
                            i <= len2,
                            len1 == ps1@.len(),
                            len2 == ps2@.len(),
                            out.deep_view() == old(out).deep_view() + acc,
                            match_params_from(ps1v, ps2v, invariant_mode, nv, 0) == prepend_rows(
                                acc,
                                match_params_from(ps1v, ps2v, invariant_mode, nv, i as int),
                            ),
                        decreases len1 - i,
                    {
                        proof {
                            lemma_size_of_param_le(ps1v, i as int);
                            lemma_param_view_variants(ps1@[i as int]);
                            lemma_param_view_variants(ps2@[i as int]);
                        }
                        match (&ps1[i], &ps2[i]) {
                            (Parameter::Origin(t), Parameter::Origin(s)) => {
                                let ghost prev = out.deep_view();
                                out.push((s.clone(), t.clone(), node.clone()));
                                if invariant_mode {
                                    out.push((t.clone(), s.clone(), node.clone()));
                                }
                                proof {
                                    assert(out.deep_view() =~= prev + subset_pairs(
                                        s@,
                                        t@,
                                        invariant_mode,
                                        nv,
                                    ));
                                    let pairs = subset_pairs(s@, t@, invariant_mode, nv);
                                    assert(match_params_from(ps1v, ps2v, invariant_mode, nv, i as int)
                                        == prepend_rows(
                                        pairs,
                                        match_params_from(ps1v, ps2v, invariant_mode, nv, i as int + 1),
                                    ));
                                    lemma_prepend_assoc(
                                        acc,
                                        pairs,
                                        match_params_from(ps1v, ps2v, invariant_mode, nv, i as int + 1),
                                    );
                                    acc = acc + pairs;
                                }
                            },
                            (Parameter::Ty(t1), Parameter::Ty(t2)) => {
                                let rec = emit_subsets_into(t1, t2, invariant_mode, node, out);
                                match rec {
                                    Ok(_) => {
                                        proof {
                                            let rows = match_subsets(
                                                t1.deep_view(),
                                                t2.deep_view(),
                                                invariant_mode,
                                                nv,
                                            )->Ok_0;
                                            assert(match_params_from(
                                                ps1v,
                                                ps2v,
                                                invariant_mode,
                                                nv,
                                                i as int,
                                            ) == prepend_rows(
                                                rows,
                                                match_params_from(ps1v, ps2v, invariant_mode, nv, i as int + 1),
                                            ));
                                            lemma_prepend_assoc(
                                                acc,
                                                rows,
                                                match_params_from(ps1v, ps2v, invariant_mode, nv, i as int + 1),
                                            );
                                            acc = acc + rows;
                                        }
                                    },
                                    Err(e) => {
                                        return Err(e);
                                    },
                                }
                            },
                            _ => {
                                return Err(ErrorKind::ShapeMismatch);
                            },
                        }
                        proof {
                            assert(out.deep_view() =~= old(out).deep_view() + acc);
                        }
                        i = i + 1;
                    }
                    if len1 == len2 {
                        proof {
                            assert(match_params_from(ps1v, ps2v, invariant_mode, nv, i as int)
                                == Ok::<Seq<SubsetRowView>, ErrorKindView>(Seq::empty()));
                            assert(acc + Seq::<SubsetRowView>::empty() =~= acc);
                        }
                        Ok(())
                    } else {
                        proof {
                            assert(match_params_from(ps1v, ps2v, invariant_mode, nv, i as int)
                                == Err::<Seq<SubsetRowView>, ErrorKindView>(
                                ErrorKindView::ShapeMismatch,
                            ));
                        }
                        Err(ErrorKind::ShapeMismatch)
                    }
                },
                _ => {
                    proof {
                        lemma_ty_view_variants(*rhs);
                    }
                    Err(ErrorKind::ShapeMismatch)
                },
            }
        },
    }
}

/// Whether a type contains no unique reference anywhere.
pub open spec fn ty_no_refmut(t: TyView) -> bool
    decreases t,
{
    match t {
        TyView::Ref { origin, ty } => ty_no_refmut(*ty),
        TyView::RefMut { origin, ty } => false,
        TyView::I32 => true,
        TyView::Unit => true,
        TyView::Struct { name, parameters } => params_no_refmut(parameters),
    }
}

pub open spec fn params_no_refmut(ps: Seq<ParameterView>) -> bool
    decreases ps,
{
    if ps.len() == 0 {
        true
    } else {
        param_no_refmut(ps[0]) && params_no_refmut(ps.subrange(1, ps.len() as int))
    }
}

pub open spec fn param_no_refmut(p: ParameterView) -> bool
    decreases p,
{
    match p {
        ParameterView::Origin(o) => true,
        ParameterView::Ty(t) => ty_no_refmut(t),
    }
}

pub proof fn lemma_params_no_refmut_index(ps: Seq<ParameterView>)
    requires
        params_no_refmut(ps),
    ensures
        forall|j: int| 0 <= j < ps.len() ==> param_no_refmut(#[trigger] ps[j]),
    decreases ps,
{
    if ps.len() > 0 {
        let tail = ps.subrange(1, ps.len() as int);
        lemma_params_no_refmut_index(tail);
        assert forall|j: int| 0 <= j < ps.len() implies param_no_refmut(#[trigger] ps[j]) by {
            if j > 0 {
                assert(tail[j - 1] == ps[j]);
            }
        }
    }
}

/// Law (invariant positions are symmetric): every subset row produced in
/// invariant mode is accompanied by its mirror image.
pub proof fn lemma_invariant_mode_symmetric(lhs: TyView, rhs: TyView, n: NodeView)
    requires
        match_subsets(lhs, rhs, true, n) matches Ok(_),
    ensures
        forall|src: Seq<char>, tgt: Seq<char>, m: NodeView|
            #[trigger] match_subsets(lhs, rhs, true, n)->Ok_0.contains((src, tgt, m))
                ==> match_subsets(lhs, rhs, true, n)->Ok_0.contains((tgt, src, m)),
    decreases size_of_ty(lhs), 0int,
{
    let rows = match_subsets(lhs, rhs, true, n)->Ok_0;
    match (lhs, rhs) {
        (TyView::Ref { origin: to, ty: tt }, TyView::Ref { origin: so, ty: st }) => {
            lemma_invariant_mode_symmetric(*tt, *st, n);
            let pairs = subset_pairs(so, to, true, n);
            let rest = match_subsets(*tt, *st, true, n)->Ok_0;
            assert forall|src: Seq<char>, tgt: Seq<char>, m: NodeView|
                #[trigger] rows.contains((src, tgt, m)) implies rows.contains((tgt, src, m)) by {
                crate::laws::lemma_concat_contains_iff(pairs, rest, (src, tgt, m));
                crate::laws::lemma_concat_contains_iff(pairs, rest, (tgt, src, m));
                if pairs.contains((src, tgt, m)) {
                    assert(pairs[0] == (so, to, n) && pairs[1] == (to, so, n));
                    assert(pairs.contains((tgt, src, m)));
                }
            }
        },
        (TyView::RefMut { origin: to, ty: tt }, TyView::RefMut { origin: so, ty: st }) => {
            lemma_invariant_mode_symmetric(*tt, *st, n);
            let pairs = subset_pairs(so, to, true, n);
            let rest = match_subsets(*tt, *st, true, n)->Ok_0;
            assert forall|src: Seq<char>, tgt: Seq<char>, m: NodeView|
                #[trigger] rows.contains((src, tgt, m)) implies rows.contains((tgt, src, m)) by {
                crate::laws::lemma_concat_contains_iff(pairs, rest, (src, tgt, m));
                crate::laws::lemma_concat_contains_iff(pairs, rest, (tgt, src, m));
                if pairs.contains((src, tgt, m)) {
                    assert(pairs[0] == (so, to, n) && pairs[1] == (to, so, n));
                    assert(pairs.contains((tgt, src, m)));
                }
            }
        },
        (
            TyView::Struct { name: n1, parameters: ps1 },
            TyView::Struct { name: n2, parameters: ps2 },
        ) => {
            lemma_params_invariant_symmetric(ps1, ps2, n, 0);
        },
        _ => {},
    }
}

pub proof fn lemma_params_invariant_symmetric(
    ps1: Seq<ParameterView>,
    ps2: Seq<ParameterView>,
    n: NodeView,
    i: int,
)
    requires
        match_params_from(ps1, ps2, true, n, i) matches Ok(_),
    ensures
        forall|src: Seq<char>, tgt: Seq<char>, m: NodeView|
            #[trigger] match_params_from(ps1, ps2, true, n, i)->Ok_0.contains((src, tgt, m))
                ==> match_params_from(ps1, ps2, true, n, i)->Ok_0.contains((tgt, src, m)),
    decreases size_of_params(ps1), ps1.len() - i,
{
    let rows = match_params_from(ps1, ps2, true, n, i)->Ok_0;
    if 0 <= i < ps1.len() && i < ps2.len() {
        match (ps1[i], ps2[i]) {
            (ParameterView::Origin(t), ParameterView::Origin(s)) => {
                lemma_params_invariant_symmetric(ps1, ps2, n, i + 1);
                let pairs = subset_pairs(s, t, true, n);
                let rest = match_params_from(ps1, ps2, true, n, i + 1)->Ok_0;
                assert forall|src: Seq<char>, tgt: Seq<char>, m: NodeView|
                    #[trigger] rows.contains((src, tgt, m)) implies rows.contains(
                    (tgt, src, m),
                ) by {
                    crate::laws::lemma_concat_contains_iff(pairs, rest, (src, tgt, m));
                    crate::laws::lemma_concat_contains_iff(pairs, rest, (tgt, src, m));
                    if pairs.contains((src, tgt, m)) {
                        assert(pairs[0] == (s, t, n) && pairs[1] == (t, s, n));
                        assert(pairs.contains((tgt, src, m)));
                    }
                }
            },
            (ParameterView::Ty(t1), ParameterView::Ty(t2)) => {
                lemma_size_of_param_le(ps1, i);
                lemma_invariant_mode_symmetric(t1, t2, n);
                lemma_params_invariant_symmetric(ps1, ps2, n, i + 1);
                let first = match_subsets(t1, t2, true, n)->Ok_0;
                let rest = match_params_from(ps1, ps2, true, n, i + 1)->Ok_0;
                assert forall|src: Seq<char>, tgt: Seq<char>, m: NodeView|
                    #[trigger] rows.contains((src, tgt, m)) implies rows.contains(
                    (tgt, src, m),
                ) by {
                    crate::laws::lemma_concat_contains_iff(first, rest, (src, tgt, m));
                    crate::laws::lemma_concat_contains_iff(first, rest, (tgt, src, m));
                }
            },
            _ => {},
        }
    }
}

/// Law (everything underneath a unique reference is symmetric): when the
/// two sides of a matching are unique references, the rows are the pair at
/// the reference itself followed by the rows of the pointees in invariant
/// mode, and those are symmetric.
pub proof fn lemma_refmut_descendants_symmetric(
    to: Seq<char>,
    tt: TyView,
    so: Seq<char>,
    st: TyView,
    invariant_mode: bool,
    n: NodeView,
)
    requires
        match_subsets(
            TyView::RefMut { origin: to, ty: Box::new(tt) },
            TyView::RefMut { origin: so, ty: Box::new(st) },
            invariant_mode,
            n,
        ) matches Ok(_),
    ensures
        match_subsets(tt, st, true, n) matches Ok(inner) && {
            &&& match_subsets(
                TyView::RefMut { origin: to, ty: Box::new(tt) },
                TyView::RefMut { origin: so, ty: Box::new(st) },
                invariant_mode,
                n,
            ) == Ok::<Seq<SubsetRowView>, ErrorKindView>(
                subset_pairs(so, to, invariant_mode, n) + inner,
            )
            &&& forall|src: Seq<char>, tgt: Seq<char>, m: NodeView|
                #[trigger] inner.contains((src, tgt, m)) ==> inner.contains((tgt, src, m))
        },
{
    lemma_invariant_mode_symmetric(tt, st, n);
}

/// Law (covariant chains are positional): matching a type that contains no
/// unique reference, in covariant mode, yields exactly one row per origin
/// position — the source's origin flowing into the target's origin at the
/// same position — and nothing else.
pub proof fn lemma_covariant_rows_positional(lhs: TyView, rhs: TyView, n: NodeView)
    requires
        ty_no_refmut(lhs),
        match_subsets(lhs, rhs, false, n) matches Ok(_),
    ensures
        match_subsets(lhs, rhs, false, n) matches Ok(rows) && {
            &&& rows.len() == crate::ast::origins_of_ty(lhs).len()
            &&& rows.len() == crate::ast::origins_of_ty(rhs).len()
            &&& forall|j: int|
                0 <= j < rows.len() ==> #[trigger] rows[j] == (
                    crate::ast::origins_of_ty(rhs)[j],
                    crate::ast::origins_of_ty(lhs)[j],
                    n,
                )
        },
    decreases size_of_ty(lhs), 0int,
{
    let rows = match_subsets(lhs, rhs, false, n)->Ok_0;
    match (lhs, rhs) {
        (TyView::Ref { origin: to, ty: tt }, TyView::Ref { origin: so, ty: st }) => {
            lemma_covariant_rows_positional(*tt, *st, n);
            let rest = match_subsets(*tt, *st, false, n)->Ok_0;
            assert(rows =~= seq![(so, to, n)] + rest);
            assert(crate::ast::origins_of_ty(lhs) =~= seq![to] + crate::ast::origins_of_ty(*tt));
            assert(crate::ast::origins_of_ty(rhs) =~= seq![so] + crate::ast::origins_of_ty(*st));
        },
        (
            TyView::Struct { name: n1, parameters: ps1 },
            TyView::Struct { name: n2, parameters: ps2 },
        ) => {
            lemma_params_no_refmut_index(ps1);
            lemma_params_covariant_positional(ps1, ps2, n, 0);
            assert(ps1.subrange(0, ps1.len() as int) =~= ps1);
            assert(ps2.subrange(0, ps2.len() as int) =~= ps2);
        },
        _ => {},
    }
}

/// As `lemma_covariant_rows_positional`, for the tails of two parameter
/// lists from position `i` on.
pub proof fn lemma_params_covariant_positional(
    ps1: Seq<ParameterView>,
    ps2: Seq<ParameterView>,
    n: NodeView,
    i: int,
)
    requires
        0 <= i <= ps1.len(),
        i <= ps2.len(),
        forall|j: int| i <= j < ps1.len() ==> param_no_refmut(#[trigger] ps1[j]),
        match_params_from(ps1, ps2, false, n, i) matches Ok(_),
    ensures
        match_params_from(ps1, ps2, false, n, i) matches Ok(rows) && {
            let os1 = crate::ast::origins_of_params(ps1.subrange(i, ps1.len() as int));
            let os2 = crate::ast::origins_of_params(ps2.subrange(i, ps2.len() as int));
            &&& rows.len() == os1.len()
            &&& rows.len() == os2.len()
            &&& forall|j: int| 0 <= j < rows.len() ==> #[trigger] rows[j] == (os2[j], os1[j], n)
        },
    decreases size_of_params(ps1), ps1.len() - i,
{
    let rows = match_params_from(ps1, ps2, false, n, i)->Ok_0;
    let suf1 = ps1.subrange(i, ps1.len() as int);
    let suf2 = ps2.subrange(i, ps2.len() as int);
    let os1 = crate::ast::origins_of_params(suf1);
    let os2 = crate::ast::origins_of_params(suf2);
    if i < ps1.len() && i < ps2.len() {
        assert(suf1[0] == ps1[i]);
        assert(suf2[0] == ps2[i]);
        assert(suf1.subrange(1, suf1.len() as int) =~= ps1.subrange(i + 1, ps1.len() as int));
        assert(suf2.subrange(1, suf2.len() as int) =~= ps2.subrange(i + 1, ps2.len() as int));
        match (ps1[i], ps2[i]) {
            (ParameterView::Origin(t), ParameterView::Origin(s)) => {
                lemma_params_covariant_positional(ps1, ps2, n, i + 1);
                let rest = match_params_from(ps1, ps2, false, n, i + 1)->Ok_0;
                assert(rows =~= seq![(s, t, n)] + rest);
                assert(crate::ast::origins_of_param(suf1[0]) == seq![t]);
                assert(crate::ast::origins_of_param(suf2[0]) == seq![s]);
                assert(os1 == crate::ast::origins_of_param(suf1[0])
                    + crate::ast::origins_of_params(suf1.subrange(1, suf1.len() as int)));
                assert(os1 =~= seq![t] + crate::ast::origins_of_params(
                    ps1.subrange(i + 1, ps1.len() as int),
                ));
                assert(os2 =~= seq![s] + crate::ast::origins_of_params(
                    ps2.subrange(i + 1, ps2.len() as int),
                ));
            },
            (ParameterView::Ty(t1), ParameterView::Ty(t2)) => {
                lemma_size_of_param_le(ps1, i);
                lemma_covariant_rows_positional(t1, t2, n);
                lemma_params_covariant_positional(ps1, ps2, n, i + 1);
                let first = match_subsets(t1, t2, false, n)->Ok_0;
                let rest = match_params_from(ps1, ps2, false, n, i + 1)->Ok_0;
                assert(rows =~= first + rest);
                assert(crate::ast::origins_of_param(suf1[0]) == crate::ast::origins_of_ty(t1));
                assert(crate::ast::origins_of_param(suf2[0]) == crate::ast::origins_of_ty(t2));
                assert(os1 == crate::ast::origins_of_param(suf1[0])
                    + crate::ast::origins_of_params(suf1.subrange(1, suf1.len() as int)));
                assert(os1 =~= crate::ast::origins_of_ty(t1) + crate::ast::origins_of_params(
                    ps1.subrange(i + 1, ps1.len() as int),
                ));
                assert(os2 =~= crate::ast::origins_of_ty(t2) + crate::ast::origins_of_params(
                    ps2.subrange(i + 1, ps2.len() as int),
                ));
            },
            _ => {},
        }
    } else {
        assert(suf1.len() == 0 || suf2.len() == 0);
        if suf1.len() == 0 {
            assert(os1 =~= Seq::<Seq<char>>::empty());
        }
        if suf2.len() == 0 {
            assert(os2 =~= Seq::<Seq<char>>::empty());
        }
        assert(suf1.len() == 0 && suf2.len() == 0);
    }
}

} // verus!
