//! The IR data model: types, places with projections, expressions,
//! statements, basic blocks and whole programs, together with the
//! mathematical views that contracts are stated over.
//!
//! Each executable datatype `X` has a spec-level mirror `XView` whose names
//! are character sequences and whose collections are `Seq`s; `deep_view`
//! maps one onto the other.

use vstd::prelude::*;

use crate::span::{SpannedView, Spanned};

verus! {

/// Names of variables, structs, fields, functions, blocks and origins.
/// Origin names keep their leading apostrophe.
pub type Name = String;

/// A type of the IR.
#[derive(Debug, PartialEq, Eq)]
pub enum Ty {
    /// A shared reference `&'origin target`.
    Ref { origin: Name, ty: Box<Ty> },
    /// A unique mutable reference `&'origin mut target`.
    RefMut { origin: Name, ty: Box<Ty> },
    /// The primitive integer type `i32`.
    I32,
    /// The empty product `()`.
    Unit,
    /// A nominal struct type with its generic parameters.
    Struct { name: Name, parameters: Vec<Parameter> },
}

/// A generic argument of a struct type: either an origin or a type.
#[derive(Debug, PartialEq, Eq)]
pub enum Parameter {
    Origin(Name),
    Ty(Ty),
}

/// Spec-level mirror of `Ty`.
pub enum TyView {
    Ref { origin: Seq<char>, ty: Box<TyView> },
    RefMut { origin: Seq<char>, ty: Box<TyView> },
    I32,
    Unit,
    Struct { name: Seq<char>, parameters: Seq<ParameterView> },
}

/// Spec-level mirror of `Parameter`.
pub enum ParameterView {
    Origin(Seq<char>),
    Ty(TyView),
}

pub open spec fn view_ty(t: Ty) -> TyView
    decreases t,
{
    match t {
        Ty::Ref { origin, ty } => TyView::Ref { origin: origin@, ty: Box::new(view_ty(*ty)) },
        Ty::RefMut { origin, ty } => TyView::RefMut {
            origin: origin@,
            ty: Box::new(view_ty(*ty)),
        },
        Ty::I32 => TyView::I32,
        Ty::Unit => TyView::Unit,
        Ty::Struct { name, parameters } => TyView::Struct {
            name: name@,
            parameters: view_params(parameters@),
        },
    }
}

pub open spec fn view_params(ps: Seq<Parameter>) -> Seq<ParameterView>
    decreases ps,
{
    if ps.len() == 0 {
        Seq::empty()
    } else {
        seq![view_param(ps[0])] + view_params(ps.subrange(1, ps.len() as int))
    }
}

pub open spec fn view_param(p: Parameter) -> ParameterView
    decreases p,
{
    match p {
        Parameter::Origin(o) => ParameterView::Origin(o@),
        Parameter::Ty(t) => ParameterView::Ty(view_ty(t)),
    }
}

impl DeepView for Ty {
    type V = TyView;

    open spec fn deep_view(&self) -> TyView {
        view_ty(*self)
    }
}

impl DeepView for Parameter {
    type V = ParameterView;

    open spec fn deep_view(&self) -> ParameterView {
        view_param(*self)
    }
}

pub proof fn lemma_view_params_index(ps: Seq<Parameter>)
    ensures
        view_params(ps).len() == ps.len(),
        forall|i: int| 0 <= i < ps.len() ==> view_params(ps)[i] == view_param(ps[i]),
    decreases ps,
{
    if ps.len() > 0 {
        lemma_view_params_index(ps.subrange(1, ps.len() as int));
    }
}


/// The view of a type has the same variant as the type.
pub proof fn lemma_ty_view_variants(t: Ty)
    ensures
        (view_ty(t) is Ref) == (t is Ref),
        (view_ty(t) is RefMut) == (t is RefMut),
        (view_ty(t) is I32) == (t is I32),
        (view_ty(t) is Unit) == (t is Unit),
        (view_ty(t) is Struct) == (t is Struct),
{
    match t {
        Ty::Ref { origin, ty } => {},
        Ty::RefMut { origin, ty } => {},
        Ty::I32 => {},
        Ty::Unit => {},
        Ty::Struct { name, parameters } => {},
    }
}

/// The view of a generic parameter has the same variant as the parameter.
pub proof fn lemma_param_view_variants(p: Parameter)
    ensures
        (view_param(p) is Origin) == (p is Origin),
        (view_param(p) is Ty) == (p is Ty),
{
    match p {
        Parameter::Origin(o) => {},
        Parameter::Ty(t) => {},
    }
}

/// A structural size measure for types, used to show that walks over a
/// type's parameter list terminate.
pub open spec fn size_of_ty(t: TyView) -> nat
    decreases t,
{
    match t {
        TyView::Ref { origin, ty } => 1 + size_of_ty(*ty),
        TyView::RefMut { origin, ty } => 1 + size_of_ty(*ty),
        TyView::I32 => 1,
        TyView::Unit => 1,
        TyView::Struct { name, parameters } => 1 + size_of_params(parameters),
    }
}

pub open spec fn size_of_params(ps: Seq<ParameterView>) -> nat
    decreases ps,
{
    if ps.len() == 0 {
        0
    } else {
        size_of_param(ps[0]) + size_of_params(ps.subrange(1, ps.len() as int))
    }
}

pub open spec fn size_of_param(p: ParameterView) -> nat
    decreases p,
{
    match p {
        ParameterView::Origin(o) => 1,
        ParameterView::Ty(t) => 1 + size_of_ty(t),
    }
}

pub proof fn lemma_size_of_param_le(ps: Seq<ParameterView>, i: int)
    requires
        0 <= i < ps.len(),
    ensures
        size_of_param(ps[i]) <= size_of_params(ps),
    decreases ps,
{
    if i > 0 {
        let tail = ps.subrange(1, ps.len() as int);
        lemma_size_of_param_le(tail, i - 1);
        assert(tail[i - 1] == ps[i]);
    }
}

pub broadcast proof fn lemma_view_params_len(ps: Seq<Parameter>)
    ensures
        (#[trigger] view_params(ps)).len() == ps.len(),
    decreases ps,
{
    if ps.len() > 0 {
        lemma_view_params_len(ps.subrange(1, ps.len() as int));
    }
}

pub broadcast proof fn lemma_view_params_index_at(ps: Seq<Parameter>, i: int)
    requires
        0 <= i < ps.len(),
    ensures
        #[trigger] view_params(ps)[i] == view_param(ps[i]),
{
    lemma_view_params_index(ps);
}

impl Ty {
    /// Whether the type is a (shared or unique) reference at its root.
    pub fn is_ref(&self) -> (r: bool)
        ensures
            r == (self.deep_view() is Ref || self.deep_view() is RefMut),
    {
        match self {
            Ty::Ref { .. } | Ty::RefMut { .. } => true,
            _ => false,
        }
    }
}

/// All origins present in a type, in pre-order: a reference contributes its
/// own origin and then the origins of its target; a struct contributes the
/// origins of its parameters from left to right; `i32` and `()` contribute
/// nothing. Outermost origins come first, and repeats are kept.
pub open spec fn origins_of_ty(t: TyView) -> Seq<Seq<char>>
    decreases t,
{
    match t {
        TyView::Ref { origin, ty } => seq![origin] + origins_of_ty(*ty),
        TyView::RefMut { origin, ty } => seq![origin] + origins_of_ty(*ty),
        TyView::I32 => Seq::empty(),
        TyView::Unit => Seq::empty(),
        TyView::Struct { name, parameters } => origins_of_params(parameters),
    }
}

pub open spec fn origins_of_params(ps: Seq<ParameterView>) -> Seq<Seq<char>>
    decreases ps,
{
    if ps.len() == 0 {
        Seq::empty()
    } else {
        origins_of_param(ps[0]) + origins_of_params(ps.subrange(1, ps.len() as int))
    }
}

pub open spec fn origins_of_param(p: ParameterView) -> Seq<Seq<char>>
    decreases p,
{
    match p {
        ParameterView::Origin(o) => seq![o],
        ParameterView::Ty(t) => origins_of_ty(t),
    }
}

pub proof fn lemma_origins_of_params_append(a: Seq<ParameterView>, b: Seq<ParameterView>)
    ensures
        origins_of_params(a + b) == origins_of_params(a) + origins_of_params(b),
    decreases a,
{
    if a.len() == 0 {
        assert(a + b =~= b);
        assert(origins_of_params(a) + origins_of_params(b) =~= origins_of_params(b));
    } else {
        let tail = a.subrange(1, a.len() as int);
        lemma_origins_of_params_append(tail, b);
        assert((a + b).subrange(1, (a + b).len() as int) =~= tail + b);
        assert((a + b)[0] == a[0]);
        assert(origins_of_param(a[0]) + (origins_of_params(tail) + origins_of_params(b))
            =~= (origins_of_param(a[0]) + origins_of_params(tail)) + origins_of_params(b));
    }
}

pub proof fn lemma_origins_of_params_single(p: ParameterView)
    ensures
        origins_of_params(seq![p]) == origins_of_param(p),
{
    assert(seq![p].subrange(1, 1) =~= Seq::<ParameterView>::empty());
    assert(origins_of_params(Seq::<ParameterView>::empty()) =~= Seq::<Seq<char>>::empty());
    assert(origins_of_params(seq![p]) =~= origins_of_param(p));
}

impl Ty {
    /// Appends every origin present in this type, recursively and in
    /// pre-order, to `origins`.
    #[verifier::loop_isolation(false)]
    pub fn collect_origins_into(&self, origins: &mut Vec<Name>)
        ensures
            final(origins).deep_view() == old(origins).deep_view() + origins_of_ty(
                self.deep_view(),
            ),
        decreases size_of_ty(self.deep_view()),
    {
        match self {
            Ty::Ref { origin, ty } | Ty::RefMut { origin, ty } => {
                origins.push(origin.clone());
                assert(origins.deep_view() =~= old(origins).deep_view() + seq![origin@]);
                ty.collect_origins_into(origins);
                assert(origins.deep_view() =~= old(origins).deep_view() + origins_of_ty(
                    self.deep_view(),
                ));
            },
            Ty::Struct { name, parameters } => {
                let n = parameters.len();
                let mut i: usize = 0;
                proof {
                    lemma_view_params_index(parameters@);
                    assert(origins.deep_view() =~= old(origins).deep_view() + origins_of_params(
                        view_params(parameters@).subrange(0, 0),
                    ));
                }
                while i < n
                    invariant
                        i <= n,
                        n == parameters@.len(),
                        origins.deep_view() == old(origins).deep_view() + origins_of_params(
                            view_params(parameters@).subrange(0, i as int),
                        ),
                    decreases n - i,
                {
                    let ghost pvs = view_params(parameters@);
                    let ghost before = origins.deep_view();
                    proof {
                        lemma_view_params_index(parameters@);
                        lemma_size_of_param_le(pvs, i as int);
                    }
                    collect_param_origins_into(&parameters[i], origins);
                    proof {
                        lemma_view_params_index(parameters@);
                        let prefix = pvs.subrange(0, i as int);
                        assert(pvs.subrange(0, i as int + 1) =~= prefix + seq![pvs[i as int]]);
                        lemma_origins_of_params_append(prefix, seq![pvs[i as int]]);
                        lemma_origins_of_params_single(pvs[i as int]);
                        assert(origins.deep_view() =~= old(origins).deep_view() + origins_of_params(
                            pvs.subrange(0, i as int + 1),
                        ));
                    }
                    i = i + 1;
                }
                proof {
                    let pvs = view_params(parameters@);
                    assert(pvs.subrange(0, n as int) =~= pvs);
                }
            },
            Ty::I32 | Ty::Unit => {
                assert(origins.deep_view() =~= old(origins).deep_view() + origins_of_ty(
                    self.deep_view(),
                ));
            },
        }
    }
}

/// Appends every origin present in one generic parameter to `origins`.
fn collect_param_origins_into(p: &Parameter, origins: &mut Vec<Name>)
    ensures
        final(origins).deep_view() == old(origins).deep_view() + origins_of_param(p.deep_view()),
    decreases size_of_param(p.deep_view()),
{
    match p {
        Parameter::Origin(o) => {
            origins.push(o.clone());
            assert(origins.deep_view() =~= old(origins).deep_view() + seq![o@]);
        },
        Parameter::Ty(t) => {
            t.collect_origins_into(origins);
        },
    }
}

/// Clones a type; the clone has the same view.
#[verifier::loop_isolation(false)]
fn clone_ty(t: &Ty) -> (r: Ty)
    ensures
        r.deep_view() == t.deep_view(),
    decreases size_of_ty(t.deep_view()),
{
    match t {
        Ty::Ref { origin, ty } => Ty::Ref { origin: origin.clone(), ty: Box::new(clone_ty(ty)) },
        Ty::RefMut { origin, ty } => Ty::RefMut {
            origin: origin.clone(),
            ty: Box::new(clone_ty(ty)),
        },
        Ty::I32 => Ty::I32,
        Ty::Unit => Ty::Unit,
        Ty::Struct { name, parameters } => {
            let n = parameters.len();
            let mut out: Vec<Parameter> = Vec::new();
            let mut i: usize = 0;
            while i < n
                invariant
                    i <= n,
                    n == parameters@.len(),
                    out@.len() == i,
                    forall|j: int|
                        0 <= j < i ==> out@[j].deep_view() == parameters@[j].deep_view(),
                decreases n - i,
            {
                proof {
                    lemma_view_params_index(parameters@);
                    lemma_size_of_param_le(view_params(parameters@), i as int);
                }
                let c = clone_param(&parameters[i]);
                out.push(c);
                i = i + 1;
            }
            proof {
                lemma_view_params_index(parameters@);
                lemma_view_params_index(out@);
                assert(view_params(out@) =~= view_params(parameters@));
            }
            Ty::Struct { name: name.clone(), parameters: out }
        },
    }
}

fn clone_param(p: &Parameter) -> (r: Parameter)
    ensures
        r.deep_view() == p.deep_view(),
    decreases size_of_param(p.deep_view()),
{
    match p {
        Parameter::Origin(o) => Parameter::Origin(o.clone()),
        Parameter::Ty(t) => Parameter::Ty(clone_ty(t)),
    }
}

impl Clone for Ty {
    fn clone(&self) -> (r: Self)
        ensures
            r.deep_view() == self.deep_view(),
    {
        clone_ty(self)
    }
}

impl Clone for Parameter {
    fn clone(&self) -> (r: Self)
        ensures
            r.deep_view() == self.deep_view(),
    {
        clone_param(self)
    }
}

/// One step of a place's projection path.
#[derive(Debug, PartialEq, Eq, Hash)]
pub enum Projection {
    /// `.field`
    Field(Name),
    /// `*`
    Deref,
}

/// Spec-level mirror of `Projection`.
pub enum ProjectionView {
    Field(Seq<char>),
    Deref,
}

impl DeepView for Projection {
    type V = ProjectionView;

    open spec fn deep_view(&self) -> ProjectionView {
        match self {
            Projection::Field(f) => ProjectionView::Field(f@),
            Projection::Deref => ProjectionView::Deref,
        }
    }
}

/// A syntactic l-value: a variable plus an ordered chain of field and deref
/// projections, innermost first.
#[derive(Debug, PartialEq, Eq, Hash)]
pub struct Place {
    pub base: Name,
    pub projections: Vec<Projection>,
}

/// Spec-level mirror of `Place`.
pub struct PlaceView {
    pub base: Seq<char>,
    pub projections: Seq<ProjectionView>,
}

impl DeepView for Place {
    type V = PlaceView;

    open spec fn deep_view(&self) -> PlaceView {
        PlaceView { base: self.base@, projections: self.projections.deep_view() }
    }
}

fn clone_projection(p: &Projection) -> (r: Projection)
    ensures
        r.deep_view() == p.deep_view(),
{
    match p {
        Projection::Field(f) => Projection::Field(f.clone()),
        Projection::Deref => Projection::Deref,
    }
}

impl Clone for Projection {
    fn clone(&self) -> (r: Self)
        ensures
            r.deep_view() == self.deep_view(),
    {
        clone_projection(self)
    }
}

impl Clone for Place {
    #[verifier::loop_isolation(false)]
    fn clone(&self) -> (r: Self)
        ensures
            r.deep_view() == self.deep_view(),
    {
        let n = self.projections.len();
        let mut out: Vec<Projection> = Vec::new();
        let mut i: usize = 0;
        while i < n
            invariant
                i <= n,
                n == self.projections@.len(),
                out@.len() == i,
                forall|j: int|
                    0 <= j < i ==> out@[j].deep_view() == self.projections@[j].deep_view(),
            decreases n - i,
        {
            let c = clone_projection(&self.projections[i]);
            out.push(c);
            i = i + 1;
        }
        proof {
            assert(out.deep_view() =~= self.projections.deep_view());
        }
        Place { base: self.base.clone(), projections: out }
    }
}

/// Whether two projection paths disagree at some position that both reach.
/// Paths that agree until one ends (one place is a prefix of the other) do
/// not diverge.
pub open spec fn projections_diverge(a: Seq<ProjectionView>, b: Seq<ProjectionView>) -> bool
    decreases a.len(),
{
    if a.len() == 0 || b.len() == 0 {
        false
    } else if a[0] != b[0] {
        true
    } else {
        projections_diverge(a.subrange(1, a.len() as int), b.subrange(1, b.len() as int))
    }
}

/// Two places are disjoint iff their bases differ or their projection paths
/// diverge. A place is never disjoint from a prefix of itself.
pub open spec fn place_disjoint(a: PlaceView, b: PlaceView) -> bool {
    a.base != b.base || projections_diverge(a.projections, b.projections)
}

/// The number of deref steps in a projection path.
pub open spec fn deref_count(ps: Seq<ProjectionView>) -> int
    decreases ps.len(),
{
    if ps.len() == 0 {
        0
    } else {
        (if ps[0] is Deref {
            1int
        } else {
            0int
        }) + deref_count(ps.subrange(1, ps.len() as int))
    }
}

pub proof fn lemma_deref_count_bounds(ps: Seq<ProjectionView>)
    ensures
        0 <= deref_count(ps) <= ps.len(),
    decreases ps.len(),
{
    if ps.len() > 0 {
        lemma_deref_count_bounds(ps.subrange(1, ps.len() as int));
    }
}

/// Whether two projection steps are the same step.
fn projection_eq(a: &Projection, b: &Projection) -> (r: bool)
    ensures
        r == (a.deep_view() == b.deep_view()),
{
    match (a, b) {
        (Projection::Field(f), Projection::Field(g)) => *f == *g,
        (Projection::Deref, Projection::Deref) => true,
        _ => false,
    }
}

impl Place {
    /// Whether this place and `other` are disjoint: neither is a prefix of
    /// the other.
    #[verifier::loop_isolation(false)]
    pub fn is_disjoint(&self, other: &Place) -> (r: bool)
        ensures
            r == place_disjoint(self.deep_view(), other.deep_view()),
    {
        if !(self.base == other.base) {
            return true;
        }
        let a = &self.projections;
        let b = &other.projections;
        let mut i: usize = 0;
        proof {
            assert(a.deep_view().subrange(0, a@.len() as int) =~= a.deep_view());
            assert(b.deep_view().subrange(0, b@.len() as int) =~= b.deep_view());
        }
        while i < a.len() && i < b.len()
            invariant
                i <= a@.len(),
                i <= b@.len(),
                projections_diverge(a.deep_view(), b.deep_view()) == projections_diverge(
                    a.deep_view().subrange(i as int, a@.len() as int),
                    b.deep_view().subrange(i as int, b@.len() as int),
                ),
            decreases a@.len() - i,
        {
            let ghost av = a.deep_view();
            let ghost bv = b.deep_view();
            let ghost asuf = av.subrange(i as int, av.len() as int);
            let ghost bsuf = bv.subrange(i as int, bv.len() as int);
            if !projection_eq(&a[i], &b[i]) {
                proof {
                    assert(asuf[0] == av[i as int]);
                    assert(bsuf[0] == bv[i as int]);
                }
                return true;
            }
            proof {
                assert(asuf[0] == av[i as int]);
                assert(bsuf[0] == bv[i as int]);
                assert(asuf.subrange(1, asuf.len() as int) =~= av.subrange(
                    i as int + 1,
                    av.len() as int,
                ));
                assert(bsuf.subrange(1, bsuf.len() as int) =~= bv.subrange(
                    i as int + 1,
                    bv.len() as int,
                ));
            }
            i = i + 1;
        }
        proof {
            let av = a.deep_view();
            let bv = b.deep_view();
            assert(!projections_diverge(
                av.subrange(i as int, av.len() as int),
                bv.subrange(i as int, bv.len() as int),
            ));
        }
        false
    }

    /// The number of deref steps in this place's projection path.
    #[verifier::loop_isolation(false)]
    pub fn num_derefs(&self) -> (r: usize)
        ensures
            r == deref_count(self.deep_view().projections),
    {
        let ps = &self.projections;
        let mut count: usize = 0;
        let mut i: usize = 0;
        proof {
            lemma_deref_count_bounds(ps.deep_view());
            assert(ps.deep_view().subrange(0, ps@.len() as int) =~= ps.deep_view());
        }
        while i < ps.len()
            invariant
                i <= ps@.len(),
                count <= i,
                deref_count(ps.deep_view()) == count + deref_count(
                    ps.deep_view().subrange(i as int, ps@.len() as int),
                ),
            decreases ps@.len() - i,
        {
            let ghost pv = ps.deep_view();
            let ghost suf = pv.subrange(i as int, pv.len() as int);
            proof {
                assert(suf[0] == pv[i as int]);
                assert(suf.subrange(1, suf.len() as int) =~= pv.subrange(
                    i as int + 1,
                    pv.len() as int,
                ));
                lemma_deref_count_bounds(pv.subrange(i as int + 1, pv.len() as int));
            }
            let is_deref = match &ps[i] {
                Projection::Deref => true,
                _ => false,
            };
            if is_deref {
                count = count + 1;
            }
            i = i + 1;
        }
        proof {
            let pv = ps.deep_view();
            assert(pv.subrange(i as int, pv.len() as int) =~= Seq::<ProjectionView>::empty());
        }
        count
    }
}

/// How an expression touches a place.
#[derive(Debug, PartialEq, Eq)]
pub enum AccessKind {
    Copy,
    Move,
    /// `&'origin place`
    Borrow(Name),
    /// `&'origin mut place`
    BorrowMut(Name),
}

/// Spec-level mirror of `AccessKind`.
pub enum AccessKindView {
    Copy,
    Move,
    Borrow(Seq<char>),
    BorrowMut(Seq<char>),
}

impl DeepView for AccessKind {
    type V = AccessKindView;

    open spec fn deep_view(&self) -> AccessKindView {
        match self {
            AccessKind::Copy => AccessKindView::Copy,
            AccessKind::Move => AccessKindView::Move,
            AccessKind::Borrow(o) => AccessKindView::Borrow(o@),
            AccessKind::BorrowMut(o) => AccessKindView::BorrowMut(o@),
        }
    }
}

/// An expression of the IR.
#[derive(Debug, PartialEq, Eq)]
pub enum Expr {
    Access { kind: AccessKind, place: Place },
    Number { value: i32 },
    Call { name: Name, arguments: Vec<Expr> },
    Unit,
}

/// Spec-level mirror of `Expr`.
pub enum ExprView {
    Access { kind: AccessKindView, place: PlaceView },
    Number { value: i32 },
    Call { name: Seq<char>, arguments: Seq<ExprView> },
    Unit,
}

pub open spec fn view_expr(e: Expr) -> ExprView
    decreases e,
{
    match e {
        Expr::Access { kind, place } => ExprView::Access {
            kind: kind.deep_view(),
            place: place.deep_view(),
        },
        Expr::Number { value } => ExprView::Number { value },
        Expr::Call { name, arguments } => ExprView::Call {
            name: name@,
            arguments: view_exprs(arguments@),
        },
        Expr::Unit => ExprView::Unit,
    }
}

pub open spec fn view_exprs(es: Seq<Expr>) -> Seq<ExprView>
    decreases es,
{
    if es.len() == 0 {
        Seq::empty()
    } else {
        seq![view_expr(es[0])] + view_exprs(es.subrange(1, es.len() as int))
    }
}

impl DeepView for Expr {
    type V = ExprView;

    open spec fn deep_view(&self) -> ExprView {
        view_expr(*self)
    }
}

pub proof fn lemma_view_exprs_index(es: Seq<Expr>)
    ensures
        view_exprs(es).len() == es.len(),
        forall|i: int| 0 <= i < es.len() ==> view_exprs(es)[i] == view_expr(es[i]),
    decreases es,
{
    if es.len() > 0 {
        lemma_view_exprs_index(es.subrange(1, es.len() as int));
    }
}

pub broadcast proof fn lemma_view_exprs_len(es: Seq<Expr>)
    ensures
        (#[trigger] view_exprs(es)).len() == es.len(),
    decreases es,
{
    if es.len() > 0 {
        lemma_view_exprs_len(es.subrange(1, es.len() as int));
    }
}

pub broadcast proof fn lemma_view_exprs_index_at(es: Seq<Expr>, i: int)
    requires
        0 <= i < es.len(),
    ensures
        #[trigger] view_exprs(es)[i] == view_expr(es[i]),
{
    lemma_view_exprs_index(es);
}

/// A structural size measure for expressions, used to show that walks over
/// a call's argument list terminate.
pub open spec fn size_of_expr(e: ExprView) -> nat
    decreases e,
{
    match e {
        ExprView::Access { kind, place } => 1,
        ExprView::Number { value } => 1,
        ExprView::Call { name, arguments } => 1 + size_of_exprs(arguments),
        ExprView::Unit => 1,
    }
}

pub open spec fn size_of_exprs(es: Seq<ExprView>) -> nat
    decreases es,
{
    if es.len() == 0 {
        0
    } else {
        size_of_expr(es[0]) + size_of_exprs(es.subrange(1, es.len() as int))
    }
}

pub proof fn lemma_size_of_expr_le(es: Seq<ExprView>, i: int)
    requires
        0 <= i < es.len(),
    ensures
        size_of_expr(es[i]) <= size_of_exprs(es),
    decreases es,
{
    if i > 0 {
        let tail = es.subrange(1, es.len() as int);
        lemma_size_of_expr_le(tail, i - 1);
        assert(tail[i - 1] == es[i]);
    }
}

/// A statement of a basic block.
#[derive(Debug, PartialEq, Eq)]
pub enum Statement {
    /// An assignment (`place = expr;`).
    Assign(Place, Expr),
    /// A bare expression (`expr;`).
    Expr(Expr),
}

/// Spec-level mirror of `Statement`.
pub enum StatementView {
    Assign(PlaceView, ExprView),
    Expr(ExprView),
}

impl DeepView for Statement {
    type V = StatementView;

    open spec fn deep_view(&self) -> StatementView {
        match self {
            Statement::Assign(p, e) => StatementView::Assign(p.deep_view(), e.deep_view()),
            Statement::Expr(e) => StatementView::Expr(e.deep_view()),
        }
    }
}

/// A generic declaration of a struct or function prototype.
#[derive(Debug, PartialEq, Eq)]
pub enum GenericDecl {
    Origin(Name),
    Ty(Name),
}

/// Spec-level mirror of `GenericDecl`.
pub enum GenericDeclView {
    Origin(Seq<char>),
    Ty(Seq<char>),
}

impl DeepView for GenericDecl {
    type V = GenericDeclView;

    open spec fn deep_view(&self) -> GenericDeclView {
        match self {
            GenericDecl::Origin(o) => GenericDeclView::Origin(o@),
            GenericDecl::Ty(n) => GenericDeclView::Ty(n@),
        }
    }
}

/// A variable or field declaration: a name with its type.
#[derive(Debug, PartialEq, Eq)]
pub struct VariableDecl {
    pub name: Name,
    pub ty: Ty,
}

/// Spec-level mirror of `VariableDecl`.
pub struct VariableDeclView {
    pub name: Seq<char>,
    pub ty: TyView,
}

impl DeepView for VariableDecl {
    type V = VariableDeclView;

    open spec fn deep_view(&self) -> VariableDeclView {
        VariableDeclView { name: self.name@, ty: self.ty.deep_view() }
    }
}

/// A struct declaration.
#[derive(Debug, PartialEq, Eq)]
pub struct StructDecl {
    pub name: Name,
    pub generic_decls: Vec<GenericDecl>,
    pub field_decls: Vec<VariableDecl>,
}

/// Spec-level mirror of `StructDecl`.
pub struct StructDeclView {
    pub name: Seq<char>,
    pub generic_decls: Seq<GenericDeclView>,
    pub field_decls: Seq<VariableDeclView>,
}

impl DeepView for StructDecl {
    type V = StructDeclView;

    open spec fn deep_view(&self) -> StructDeclView {
        StructDeclView {
            name: self.name@,
            generic_decls: self.generic_decls.deep_view(),
            field_decls: self.field_decls.deep_view(),
        }
    }
}

/// A function prototype; prototypes take no part in fact emission but are
/// carried through the IR.
#[derive(Debug, PartialEq, Eq)]
pub struct FnPrototype {
    pub name: Name,
    pub generic_decls: Vec<GenericDecl>,
    pub arg_tys: Vec<Ty>,
    pub ret_ty: Ty,
}

/// Spec-level mirror of `FnPrototype`.
pub struct FnPrototypeView {
    pub name: Seq<char>,
    pub generic_decls: Seq<GenericDeclView>,
    pub arg_tys: Seq<TyView>,
    pub ret_ty: TyView,
}

impl DeepView for FnPrototype {
    type V = FnPrototypeView;

    open spec fn deep_view(&self) -> FnPrototypeView {
        FnPrototypeView {
            name: self.name@,
            generic_decls: self.generic_decls.deep_view(),
            arg_tys: self.arg_tys.deep_view(),
            ret_ty: self.ret_ty.deep_view(),
        }
    }
}

/// A basic block: a name, its statements in order, and the names of its
/// successor blocks.
#[derive(Debug)]
pub struct BasicBlock {
    pub name: Name,
    pub statements: Vec<Spanned<Statement>>,
    pub successors: Vec<Name>,
}

/// Spec-level mirror of `BasicBlock`.
pub struct BasicBlockView {
    pub name: Seq<char>,
    pub statements: Seq<SpannedView<StatementView>>,
    pub successors: Seq<Seq<char>>,
}

impl DeepView for BasicBlock {
    type V = BasicBlockView;

    open spec fn deep_view(&self) -> BasicBlockView {
        BasicBlockView {
            name: self.name@,
            statements: self.statements.deep_view(),
            successors: self.successors.deep_view(),
        }
    }
}

/// A whole program: struct declarations, function prototypes, variable
/// declarations and basic blocks. Names are unique within each collection.
#[derive(Debug)]
pub struct Program {
    pub struct_decls: Vec<StructDecl>,
    pub fn_prototypes: Vec<FnPrototype>,
    pub variables: Vec<VariableDecl>,
    pub basic_blocks: Vec<BasicBlock>,
}

/// Spec-level mirror of `Program`.
pub struct ProgramView {
    pub struct_decls: Seq<StructDeclView>,
    pub fn_prototypes: Seq<FnPrototypeView>,
    pub variables: Seq<VariableDeclView>,
    pub basic_blocks: Seq<BasicBlockView>,
}

impl DeepView for Program {
    type V = ProgramView;

    open spec fn deep_view(&self) -> ProgramView {
        ProgramView {
            struct_decls: self.struct_decls.deep_view(),
            fn_prototypes: self.fn_prototypes.deep_view(),
            variables: self.variables.deep_view(),
            basic_blocks: self.basic_blocks.deep_view(),
        }
    }
}

} // verus!
