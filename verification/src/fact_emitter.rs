//! The fact emitter: walks the control-flow graph once and derives, for
//! every statement, which origins are accessed, cleared and invalidated,
//! which subset relationships are introduced, and the control-flow edges
//! between program points.

use vstd::prelude::*;

use crate::ast::{
    view_exprs, AccessKind, BasicBlock, BasicBlockView, Expr, ExprView, Name, Place, Program,
    ProgramView, Statement, StatementView, Ty, TyView,
};
use crate::facts::{
    fv_add, fv_empty, lemma_fv_add_assoc, lemma_fv_add_empty, node_at, Facts, FactsView, Node,
    NodeView,
};
use crate::invalidates::{spec_invalidates, Access, AccessDepth, AccessRw, AccessView, Loan};
use crate::loans::{collect_loans, program_loans, LoanRecord, LoanRecordView};
use crate::resolve::{resolve_place_in, resolve_place, ErrorKind, ErrorKindView, ResolvedView};
use crate::span::{Span, SpannedView};
use crate::subsets::{emit_subsets_into, match_subsets, SubsetRowView};

verus! {

/// A fatal emission error: what went wrong, and the span of the statement
/// it went wrong in.
#[derive(Debug, PartialEq, Eq)]
pub struct EmitError {
    pub kind: ErrorKind,
    pub span: Span,
}

/// Spec-level mirror of `EmitError`.
pub struct EmitErrorView {
    pub kind: ErrorKindView,
    pub span: Span,
}

impl DeepView for EmitError {
    type V = EmitErrorView;

    open spec fn deep_view(&self) -> EmitErrorView {
        EmitErrorView { kind: self.kind.deep_view(), span: self.span }
    }
}

/// One `clear_origin` or `access_origin` row per origin, in order.
pub open spec fn origin_rows(origins: Seq<Seq<char>>, n: NodeView) -> Seq<(Seq<char>, NodeView)> {
    Seq::new(origins.len(), |i: int| (origins[i], n))
}

/// The `LoanView` that the invalidation predicate judges for a loan record.
pub open spec fn loan_of_record(l: LoanRecordView) -> crate::invalidates::LoanView {
    crate::invalidates::LoanView { place: l.place, kind: l.kind }
}

/// One `invalidate_origin` row for every loan of the index, from position
/// `i` on, that the given access invalidates, in index order.
pub open spec fn invalidation_rows_from(
    loans: Seq<LoanRecordView>,
    a: AccessView,
    n: NodeView,
    i: int,
) -> Seq<(Seq<char>, NodeView)>
    decreases loans.len() - i,
{
    if 0 <= i < loans.len() {
        (if spec_invalidates(a, loan_of_record(loans[i])) {
            seq![(loans[i].origin, n)]
        } else {
            Seq::empty()
        }) + invalidation_rows_from(loans, a, n, i + 1)
    } else {
        Seq::empty()
    }
}

/// A shallow write to the given place, as performed by an assignment's
/// left-hand side.
pub open spec fn write_shallow(place: crate::ast::PlaceView) -> AccessView {
    AccessView { place, rw: AccessRw::Write, depth: AccessDepth::Shallow }
}

/// A deep write to the given place, as performed by a unique borrow of it.
pub open spec fn write_deep(place: crate::ast::PlaceView) -> AccessView {
    AccessView { place, rw: AccessRw::Write, depth: AccessDepth::Deep }
}

/// The facts one expression contributes at node `n`.
///
/// A borrow clears its origin, because it issues a fresh origin of that
/// name. A unique borrow is moreover treated as a deep write to the
/// borrowed place: it reads every origin in the place's type and
/// invalidates every loan of a place it overlaps. A copy or move reads
/// every origin in the place's type. A call evaluates its arguments from
/// left to right; numbers and unit contribute nothing.
pub open spec fn expr_facts(
    p: ProgramView,
    loans: Seq<LoanRecordView>,
    n: NodeView,
    e: ExprView,
) -> Result<FactsView, ErrorKindView>
    decreases crate::ast::size_of_expr(e), 0int,
{
    match e {
        ExprView::Access { kind, place } => match kind {
            crate::ast::AccessKindView::Borrow(o) => Ok(
                FactsView { clear_origin: seq![(o, n)], ..fv_empty() },
            ),
            crate::ast::AccessKindView::BorrowMut(o) => match resolve_place(p, place) {
                Err(k) => Err(k),
                Ok(to) => Ok(
                    FactsView {
                        clear_origin: seq![(o, n)],
                        access_origin: origin_rows(to.1, n),
                        invalidate_origin: invalidation_rows_from(
                            loans,
                            write_deep(place),
                            n,
                            0,
                        ),
                        ..fv_empty()
                    },
                ),
            },
            _ => match resolve_place(p, place) {
                Err(k) => Err(k),
                Ok(to) => Ok(FactsView { access_origin: origin_rows(to.1, n), ..fv_empty() }),
            },
        },
        ExprView::Call { name, arguments } => exprs_facts_from(p, loans, n, arguments, 0),
        _ => Ok(fv_empty()),
    }
}

/// The facts of a call's arguments from position `i` on.
pub open spec fn exprs_facts_from(
    p: ProgramView,
    loans: Seq<LoanRecordView>,
    n: NodeView,
    es: Seq<ExprView>,
    i: int,
) -> Result<FactsView, ErrorKindView>
    decreases crate::ast::size_of_exprs(es), es.len() - i,
{
    if 0 <= i < es.len() {
        proof {
            crate::ast::lemma_size_of_expr_le(es, i);
        }
        match expr_facts(p, loans, n, es[i]) {
            Err(k) => Err(k),
            Ok(f) => match exprs_facts_from(p, loans, n, es, i + 1) {
                Err(k) => Err(k),
                Ok(rest) => Ok(fv_add(f, rest)),
            },
        }
    } else {
        Ok(fv_empty())
    }
}

/// The subset rows an assignment introduces: the source's type — the
/// resolved type of a copied or moved place, or a fresh reference around
/// the borrowed place's type — is matched structurally against the
/// target's type, starting in covariant mode. Other right-hand sides
/// introduce no subsets.
pub open spec fn assign_subset_rows(
    p: ProgramView,
    lhs_ty: TyView,
    e: ExprView,
    n: NodeView,
) -> Result<Seq<SubsetRowView>, ErrorKindView> {
    match e {
        ExprView::Access { kind, place } => match kind {
            crate::ast::AccessKindView::Borrow(src) => match resolve_place(p, place) {
                Err(k) => Err(k),
                Ok(to) => match_subsets(
                    lhs_ty,
                    TyView::Ref { origin: src, ty: Box::new(to.0) },
                    false,
                    n,
                ),
            },
            crate::ast::AccessKindView::BorrowMut(src) => match resolve_place(p, place) {
                Err(k) => Err(k),
                Ok(to) => match_subsets(
                    lhs_ty,
                    TyView::RefMut { origin: src, ty: Box::new(to.0) },
                    false,
                    n,
                ),
            },
            _ => match resolve_place(p, place) {
                Err(k) => Err(k),
                Ok(to) => match_subsets(lhs_ty, to.0, false, n),
            },
        },
        _ => Ok(Seq::empty()),
    }
}

/// The facts one statement contributes at node `n`: the facts of its
/// expression; and, for an assignment, additionally one `clear_origin` row
/// for every origin in the target's resolved type, one `invalidate_origin`
/// row for every loan that the target's shallow write invalidates, and the
/// assignment's subset rows.
pub open spec fn stmt_facts(
    p: ProgramView,
    loans: Seq<LoanRecordView>,
    n: NodeView,
    s: StatementView,
) -> Result<FactsView, ErrorKindView> {
    match s {
        StatementView::Expr(e) => expr_facts(p, loans, n, e),
        StatementView::Assign(place, e) => match expr_facts(p, loans, n, e) {
            Err(k) => Err(k),
            Ok(f1) => match resolve_place(p, place) {
                Err(k) => Err(k),
                Ok(to) => match assign_subset_rows(p, to.0, e, n) {
                    Err(k) => Err(k),
                    Ok(rows) => Ok(
                        fv_add(
                            f1,
                            FactsView {
                                clear_origin: origin_rows(to.1, n),
                                invalidate_origin: invalidation_rows_from(
                                    loans,
                                    write_shallow(place),
                                    n,
                                    0,
                                ),
                                introduce_subset: rows,
                                ..fv_empty()
                            },
                        ),
                    ),
                },
            },
        },
    }
}

/// The facts of a block's statements from position `i` on; the first
/// failing statement aborts emission, with its span.
pub open spec fn stmts_facts_from(
    p: ProgramView,
    loans: Seq<LoanRecordView>,
    name: Seq<char>,
    stmts: Seq<SpannedView<StatementView>>,
    i: int,
) -> Result<FactsView, EmitErrorView>
    decreases stmts.len() - i,
{
    if 0 <= i < stmts.len() {
        match stmt_facts(p, loans, NodeView { block: name, index: i }, stmts[i].inner) {
            Err(k) => Err(EmitErrorView { kind: k, span: stmts[i].span }),
            Ok(f) => match stmts_facts_from(p, loans, name, stmts, i + 1) {
                Err(e) => Err(e),
                Ok(rest) => Ok(fv_add(f, rest)),
            },
        }
    } else {
        Ok(fv_empty())
    }
}

/// The number of the node that a block's outgoing edges leave from: its
/// last statement, or `0` for a block without statements.
pub open spec fn last_index(stmt_count: int) -> int {
    if stmt_count == 0 {
        0
    } else {
        stmt_count - 1
    }
}

/// The control-flow rows of one block: one intra-block edge between each
/// pair of consecutive statements, then one inter-block edge from the
/// block's last node to node `0` of each successor.
pub open spec fn cfg_rows(b: BasicBlockView) -> Seq<(NodeView, NodeView)> {
    let intra = Seq::new(
        if b.statements.len() == 0 {
            0
        } else {
            (b.statements.len() - 1) as nat
        },
        |i: int|
            (
                NodeView { block: b.name, index: i },
                NodeView { block: b.name, index: i + 1 },
            ),
    );
    let inter = Seq::new(
        b.successors.len(),
        |i: int|
            (
                NodeView { block: b.name, index: last_index(b.statements.len() as int) },
                NodeView { block: b.successors[i], index: 0 },
            ),
    );
    intra + inter
}

/// The facts of one block: its control-flow edges, then its statements'
/// facts in order.
pub open spec fn block_facts(
    p: ProgramView,
    loans: Seq<LoanRecordView>,
    b: BasicBlockView,
) -> Result<FactsView, EmitErrorView> {
    match stmts_facts_from(p, loans, b.name, b.statements, 0) {
        Err(e) => Err(e),
        Ok(f) => Ok(fv_add(FactsView { cfg_edge: cfg_rows(b), ..fv_empty() }, f)),
    }
}

/// The facts of the program's blocks from position `i` on.
pub open spec fn blocks_facts_from(
    p: ProgramView,
    loans: Seq<LoanRecordView>,
    blocks: Seq<BasicBlockView>,
    i: int,
) -> Result<FactsView, EmitErrorView>
    decreases blocks.len() - i,
{
    if 0 <= i < blocks.len() {
        match block_facts(p, loans, blocks[i]) {
            Err(e) => Err(e),
            Ok(f) => match blocks_facts_from(p, loans, blocks, i + 1) {
                Err(e) => Err(e),
                Ok(rest) => Ok(fv_add(f, rest)),
            },
        }
    } else {
        Ok(fv_empty())
    }
}

/// Everything the emitter produces for a program: the facts of its blocks
/// in order, against the program's complete loan index; or the first
/// error, with the span of the statement it arose in.
pub open spec fn emit_program(p: ProgramView) -> Result<FactsView, EmitErrorView> {
    blocks_facts_from(p, program_loans(p), p.basic_blocks, 0)
}

/// Prefixes an already-emitted bundle onto the outcome of emitting the
/// rest.
pub open spec fn prepend_facts(acc: FactsView, r: Result<FactsView, EmitErrorView>) -> Result<
    FactsView,
    EmitErrorView,
> {
    match r {
        Ok(rest) => Ok(fv_add(acc, rest)),
        Err(e) => Err(e),
    }
}

pub proof fn lemma_prepend_facts_assoc(
    a: FactsView,
    b: FactsView,
    r: Result<FactsView, EmitErrorView>,
)
    ensures
        prepend_facts(a, prepend_facts(b, r)) == prepend_facts(fv_add(a, b), r),
{
    match r {
        Ok(rest) => {
            lemma_fv_add_assoc(a, b, rest);
        },
        Err(e) => {},
    }
}

/// The fact emitter: a program together with its loan index.
pub struct FactEmitter {
    pub program: Program,
    pub loans: Vec<LoanRecord>,
}

impl FactEmitter {
    /// Builds the emitter for a program, collecting its loan index.
    pub fn new(program: Program) -> (r: Self)
        ensures
            r.program == program,
            r.loans.deep_view() == program_loans(program.deep_view()),
    {
        let loans = collect_loans(&program);
        FactEmitter { program, loans }
    }

    /// Resolves a place against the program: its type after all
    /// projections, and every origin encountered on the way, outermost
    /// first.
    pub fn ty_and_origins_of_place(&self, place: &Place) -> (r: Result<(Ty, Vec<Name>), ErrorKind>)
        ensures
            match r {
                Ok(to) => resolve_place(self.program.deep_view(), place.deep_view()) == Ok::<
                    ResolvedView,
                    ErrorKindView,
                >((to.0.deep_view(), to.1.deep_view())),
                Err(e) => resolve_place(self.program.deep_view(), place.deep_view()) == Err::<
                    ResolvedView,
                    ErrorKindView,
                >(e.deep_view()),
            },
    {
        resolve_place_in(&self.program, place)
    }

    /// Appends one `access_origin` row per origin to `facts`.
    #[verifier::loop_isolation(false)]
    fn push_access_rows(&self, origins: &Vec<Name>, node: &Node, facts: &mut Facts)
        ensures
            final(facts).deep_view() == (FactsView {
                access_origin: old(facts).deep_view().access_origin + origin_rows(
                    origins.deep_view(),
                    node.deep_view(),
                ),
                ..old(facts).deep_view()
            }),
    {
        let n = origins.len();
        let mut i: usize = 0;
        while i < n
            invariant
                i <= n,
                n == origins@.len(),
                facts.deep_view() == (FactsView {
                    access_origin: old(facts).deep_view().access_origin + origin_rows(
                        origins.deep_view().subrange(0, i as int),
                        node.deep_view(),
                    ),
                    ..old(facts).deep_view()
                }),
            decreases n - i,
        {
            let ghost prevrows = facts.deep_view().access_origin;
            facts.access_origin.push((origins[i].clone(), node.clone()));
            proof {
                assert(facts.deep_view().access_origin =~~= prevrows + seq![
                    (origins.deep_view()[i as int], node.deep_view()),
                ]);
                assert(facts.deep_view().access_origin =~~= old(
                    facts,
                ).deep_view().access_origin + origin_rows(
                    origins.deep_view().subrange(0, i as int + 1),
                    node.deep_view(),
                ));
            }
            i = i + 1;
        }
        proof {
            assert(origin_rows(origins.deep_view().subrange(0, n as int), node.deep_view())
                =~= origin_rows(origins.deep_view(), node.deep_view()));
        }
    }

    /// Appends one `clear_origin` row per origin to `facts`.
    #[verifier::loop_isolation(false)]
    fn push_clear_rows(&self, origins: &Vec<Name>, node: &Node, facts: &mut Facts)
        ensures
            final(facts).deep_view() == (FactsView {
                clear_origin: old(facts).deep_view().clear_origin + origin_rows(
                    origins.deep_view(),
                    node.deep_view(),
                ),
                ..old(facts).deep_view()
            }),
    {
        let n = origins.len();
        let mut i: usize = 0;
        while i < n
            invariant
                i <= n,
                n == origins@.len(),
                facts.deep_view() == (FactsView {
                    clear_origin: old(facts).deep_view().clear_origin + origin_rows(
                        origins.deep_view().subrange(0, i as int),
                        node.deep_view(),
                    ),
                    ..old(facts).deep_view()
                }),
            decreases n - i,
        {
            let ghost prevrows = facts.deep_view().clear_origin;
            facts.clear_origin.push((origins[i].clone(), node.clone()));
            proof {
                assert(facts.deep_view().clear_origin =~~= prevrows + seq![
                    (origins.deep_view()[i as int], node.deep_view()),
                ]);
                assert(facts.deep_view().clear_origin =~~= old(
                    facts,
                ).deep_view().clear_origin + origin_rows(
                    origins.deep_view().subrange(0, i as int + 1),
                    node.deep_view(),
                ));
            }
            i = i + 1;
        }
        proof {
            assert(origin_rows(origins.deep_view().subrange(0, n as int), node.deep_view())
                =~= origin_rows(origins.deep_view(), node.deep_view()));
        }
    }

    /// Appends one `invalidate_origin` row for every loan of the index
    /// that the given access invalidates, in index order.
    #[verifier::loop_isolation(false)]
    fn push_invalidation_rows(&self, access: &Access, node: &Node, facts: &mut Facts)
        ensures
            final(facts).deep_view() == (FactsView {
                invalidate_origin: old(facts).deep_view().invalidate_origin
                    + invalidation_rows_from(
                    self.loans.deep_view(),
                    access.deep_view(),
                    node.deep_view(),
                    0,
                ),
                ..old(facts).deep_view()
            }),
    {
        let ghost lv = self.loans.deep_view();
        let ghost av = access.deep_view();
        let ghost nv = node.deep_view();
        let n = self.loans.len();
        let mut i: usize = 0;
        let ghost mut acc: Seq<(Seq<char>, NodeView)> = Seq::empty();
        proof {
            assert(old(facts).deep_view().invalidate_origin + acc =~= old(
                facts,
            ).deep_view().invalidate_origin);
        }
        while i < n
            invariant
                i <= n,
                n == self.loans@.len(),
                facts.deep_view() == (FactsView {
                    invalidate_origin: old(facts).deep_view().invalidate_origin + acc,
                    ..old(facts).deep_view()
                }),
                invalidation_rows_from(lv, av, nv, 0) == acc + invalidation_rows_from(
                    lv,
                    av,
                    nv,
                    i as int,
                ),
            decreases n - i,
        {
            let rec = &self.loans[i];
            let loan = Loan { place: rec.place.clone(), kind: rec.kind };
            if access.invalidates(loan) {
                let ghost prevrows = facts.deep_view().invalidate_origin;
                facts.invalidate_origin.push((rec.origin.clone(), node.clone()));
                proof {
                    assert(facts.deep_view().invalidate_origin =~~= prevrows + seq![
                        (rec.origin@, nv),
                    ]);
                    assert(facts.deep_view().invalidate_origin =~~= old(
                        facts,
                    ).deep_view().invalidate_origin + (acc + seq![(rec.origin@, nv)]));
                    assert((acc + seq![(rec.origin@, nv)]) + invalidation_rows_from(
                        lv,
                        av,
                        nv,
                        i as int + 1,
                    ) =~= acc + (seq![(rec.origin@, nv)] + invalidation_rows_from(
                        lv,
                        av,
                        nv,
                        i as int + 1,
                    )));
                    acc = acc + seq![(rec.origin@, nv)];
                }
            } else {
                proof {
                    assert(Seq::<(Seq<char>, NodeView)>::empty() + invalidation_rows_from(
                        lv,
                        av,
                        nv,
                        i as int + 1,
                    ) =~= invalidation_rows_from(lv, av, nv, i as int + 1));
                }
            }
            i = i + 1;
        }
        proof {
            assert(invalidation_rows_from(lv, av, nv, n as int) =~= Seq::<
                (Seq<char>, NodeView),
            >::empty());
            assert(acc + Seq::<(Seq<char>, NodeView)>::empty() =~= acc);
        }
    }

    /// Emits the facts of one expression evaluated at statement `idx` of
    /// block `bb`.
    #[verifier::loop_isolation(false)]
    fn emit_expr_facts(
        &self,
        bb: &BasicBlock,
        idx: usize,
        expr: &Expr,
        facts: &mut Facts,
    ) -> (r: Result<(), ErrorKind>)
        ensures
            match r {
                Ok(u) => expr_facts(
                    self.program.deep_view(),
                    self.loans.deep_view(),
                    NodeView { block: bb.name@, index: idx as int },
                    expr.deep_view(),
                ) matches Ok(d) && final(facts).deep_view() == fv_add(old(facts).deep_view(), d),
                Err(e) => expr_facts(
                    self.program.deep_view(),
                    self.loans.deep_view(),
                    NodeView { block: bb.name@, index: idx as int },
                    expr.deep_view(),
                ) == Err::<FactsView, ErrorKindView>(e.deep_view()),
            },
        decreases crate::ast::size_of_expr(expr.deep_view()), 0int,
    {
        broadcast use crate::ast::lemma_view_exprs_len, crate::ast::lemma_view_exprs_index_at;

        let ghost pv = self.program.deep_view();
        let ghost lv = self.loans.deep_view();
        let ghost nv = NodeView { block: bb.name@, index: idx as int };
        match expr {
            Expr::Access { kind, place } => {
                match kind {
                    AccessKind::Borrow(o) => {
                        let node = node_at(&bb.name, idx);
                        facts.clear_origin.push((o.clone(), node));
                        proof {
                            let d = expr_facts(pv, lv, nv, expr.deep_view())->Ok_0;
                            assert(facts.deep_view().clear_origin =~= fv_add(
                                old(facts).deep_view(),
                                d,
                            ).clear_origin);
                            assert(facts.deep_view().access_origin =~= fv_add(
                                old(facts).deep_view(),
                                d,
                            ).access_origin);
                            assert(facts.deep_view().cfg_edge =~= fv_add(
                                old(facts).deep_view(),
                                d,
                            ).cfg_edge);
                            assert(facts.deep_view().introduce_subset =~= fv_add(
                                old(facts).deep_view(),
                                d,
                            ).introduce_subset);
                            assert(facts.deep_view().invalidate_origin =~= fv_add(
                                old(facts).deep_view(),
                                d,
                            ).invalidate_origin);
                        }
                        Ok(())
                    },
                    AccessKind::BorrowMut(o) => {
                        let node = node_at(&bb.name, idx);
                        facts.clear_origin.push((o.clone(), node_at(&bb.name, idx)));
                        let to = match resolve_place_in(&self.program, place) {
                            Ok(to) => to,
                            Err(k) => {
                                return Err(k);
                            },
                        };
                        self.push_access_rows(&to.1, &node, facts);
                        let access = Access::from_expr(kind, place);
                        proof {
                            assert(access.deep_view() == write_deep(place.deep_view()));
                        }
                        self.push_invalidation_rows(&access, &node, facts);
                        proof {
                            let d = expr_facts(pv, lv, nv, expr.deep_view())->Ok_0;
                            assert(facts.deep_view().clear_origin =~= fv_add(
                                old(facts).deep_view(),
                                d,
                            ).clear_origin);
                            assert(facts.deep_view().access_origin =~= fv_add(
                                old(facts).deep_view(),
                                d,
                            ).access_origin);
                            assert(facts.deep_view().cfg_edge =~= fv_add(
                                old(facts).deep_view(),
                                d,
                            ).cfg_edge);
                            assert(facts.deep_view().introduce_subset =~= fv_add(
                                old(facts).deep_view(),
                                d,
                            ).introduce_subset);
                            assert(facts.deep_view().invalidate_origin =~= fv_add(
                                old(facts).deep_view(),
                                d,
                            ).invalidate_origin);
                        }
                        Ok(())
                    },
                    _ => {
                        let node = node_at(&bb.name, idx);
                        let to = match resolve_place_in(&self.program, place) {
                            Ok(to) => to,
                            Err(k) => {
                                return Err(k);
                            },
                        };
                        self.push_access_rows(&to.1, &node, facts);
                        proof {
                            let d = expr_facts(pv, lv, nv, expr.deep_view())->Ok_0;
                            assert(facts.deep_view().clear_origin =~= fv_add(
                                old(facts).deep_view(),
                                d,
                            ).clear_origin);
                            assert(facts.deep_view().access_origin =~= fv_add(
                                old(facts).deep_view(),
                                d,
                            ).access_origin);
                            assert(facts.deep_view().cfg_edge =~= fv_add(
                                old(facts).deep_view(),
                                d,
                            ).cfg_edge);
                            assert(facts.deep_view().introduce_subset =~= fv_add(
                                old(facts).deep_view(),
                                d,
                            ).introduce_subset);
                            assert(facts.deep_view().invalidate_origin =~= fv_add(
                                old(facts).deep_view(),
                                d,
                            ).invalidate_origin);
                        }
                        Ok(())
                    },
                }
            },
            Expr::Call { name, arguments } => {
                let ghost esv = view_exprs(arguments@);
                let n = arguments.len();
                let mut i: usize = 0;
                let ghost mut acc: FactsView = fv_empty();
                proof {
                    lemma_fv_add_empty(old(facts).deep_view());
                    let r0 = exprs_facts_from(pv, lv, nv, esv, 0);
                    match r0 {
                        Ok(g) => {
                            lemma_fv_add_empty(g);
                        },
                        Err(k) => {},
                    }
                }
                while i < n
                    invariant
                        i <= n,
                        n == arguments@.len(),
                        facts.deep_view() == fv_add(old(facts).deep_view(), acc),
                        exprs_facts_from(pv, lv, nv, esv, 0) == prepend_expr_facts(
                            acc,
                            exprs_facts_from(pv, lv, nv, esv, i as int),
                        ),
                    decreases n - i,
                {
                    proof {
                        crate::ast::lemma_size_of_expr_le(esv, i as int);
                    }
                    let rec = self.emit_expr_facts(bb, idx, &arguments[i], facts);
                    match rec {
                        Ok(u) => {
                            proof {
                                let f = expr_facts(pv, lv, nv, esv[i as int])->Ok_0;
                                assert(exprs_facts_from(pv, lv, nv, esv, i as int)
                                    == prepend_expr_facts(
                                    f,
                                    exprs_facts_from(pv, lv, nv, esv, i as int + 1),
                                ));
                                lemma_prepend_expr_facts_assoc(
                                    acc,
                                    f,
                                    exprs_facts_from(pv, lv, nv, esv, i as int + 1),
                                );
                                lemma_fv_add_assoc(old(facts).deep_view(), acc, f);
                                acc = fv_add(acc, f);
                            }
                        },
                        Err(e) => {
                            return Err(e);
                        },
                    }
                    i = i + 1;
                }
                proof {
                    lemma_fv_add_empty(acc);
                }
                Ok(())
            },
            _ => {
                proof {
                    lemma_fv_add_empty(old(facts).deep_view());
                }
                Ok(())
            },
        }
    }
}

/// Prefixes an already-emitted bundle onto the outcome of evaluating the
/// remaining expressions.
pub open spec fn prepend_expr_facts(acc: FactsView, r: Result<FactsView, ErrorKindView>) -> Result<
    FactsView,
    ErrorKindView,
> {
    match r {
        Ok(rest) => Ok(fv_add(acc, rest)),
        Err(e) => Err(e),
    }
}

pub proof fn lemma_prepend_expr_facts_assoc(
    a: FactsView,
    b: FactsView,
    r: Result<FactsView, ErrorKindView>,
)
    ensures
        prepend_expr_facts(a, prepend_expr_facts(b, r)) == prepend_expr_facts(fv_add(a, b), r),
{
    match r {
        Ok(rest) => {
            lemma_fv_add_assoc(a, b, rest);
        },
        Err(e) => {},
    }
}

/// Two fact bundles whose relations agree row for row are equal.
pub proof fn lemma_fv_fields(a: FactsView, b: FactsView)
    requires
        a.access_origin =~~= b.access_origin,
        a.cfg_edge =~~= b.cfg_edge,
        a.clear_origin =~~= b.clear_origin,
        a.introduce_subset =~~= b.introduce_subset,
        a.invalidate_origin =~~= b.invalidate_origin,
    ensures
        a == b,
{
}

impl FactEmitter {
    /// Emits the control-flow rows of one block: intra-block edges between
    /// consecutive statements, then one edge to node `0` of each
    /// successor.
    #[verifier::loop_isolation(false)]
    fn emit_cfg_edges(&self, bb: &BasicBlock, facts: &mut Facts)
        ensures
            final(facts).deep_view() == (FactsView {
                cfg_edge: old(facts).deep_view().cfg_edge + cfg_rows(bb.deep_view()),
                ..old(facts).deep_view()
            }),
    {
        let ghost bbv = bb.deep_view();
        let ghost intra = Seq::new(
            if bbv.statements.len() == 0 {
                0
            } else {
                (bbv.statements.len() - 1) as nat
            },
            |i: int|
                (
                    NodeView { block: bbv.name, index: i },
                    NodeView { block: bbv.name, index: i + 1 },
                ),
        );
        let ghost inter = Seq::new(
            bbv.successors.len(),
            |i: int|
                (
                    NodeView { block: bbv.name, index: last_index(bbv.statements.len() as int) },
                    NodeView { block: bbv.successors[i], index: 0 },
                ),
        );
        let statement_count = bb.statements.len();
        let mut idx: usize = 1;
        proof {
            assert(facts.deep_view().cfg_edge =~~= old(facts).deep_view().cfg_edge
                + intra.subrange(0, 0));
        }
        while idx < statement_count
            invariant
                1 <= idx,
                statement_count == bbv.statements.len(),
                statement_count > 0 ==> idx <= statement_count,
                statement_count == 0 ==> idx == 1,
                facts.deep_view() == (FactsView {
                    cfg_edge: old(facts).deep_view().cfg_edge + intra.subrange(0, idx - 1),
                    ..old(facts).deep_view()
                }),
            decreases statement_count - idx,
        {
            let ghost prevrows = facts.deep_view().cfg_edge;
            facts.cfg_edge.push((node_at(&bb.name, idx - 1), node_at(&bb.name, idx)));
            proof {
                assert(facts.deep_view().cfg_edge =~~= prevrows + seq![intra[idx - 1]]);
                assert(facts.deep_view().cfg_edge =~~= old(facts).deep_view().cfg_edge
                    + intra.subrange(0, idx as int));
            }
            idx = idx + 1;
        }
        proof {
            if statement_count == 0 {
                assert(intra.subrange(0, 0) =~~= intra);
            } else {
                assert(intra.subrange(0, idx - 1) =~~= intra);
            }
        }
        let last = if statement_count == 0 {
            0
        } else {
            statement_count - 1
        };
        let succ_count = bb.successors.len();
        let mut si: usize = 0;
        proof {
            assert(facts.deep_view().cfg_edge =~~= old(facts).deep_view().cfg_edge
                + intra.subrange(0, idx - 1));
            assert(intra.subrange(0, idx - 1) =~~= intra);
            assert(facts.deep_view().cfg_edge =~~= old(facts).deep_view().cfg_edge + intra);
            assert((old(facts).deep_view().cfg_edge + intra) + inter.subrange(0, 0) =~~= old(
                facts,
            ).deep_view().cfg_edge + intra);
            lemma_fv_fields(
                facts.deep_view(),
                FactsView {
                    cfg_edge: old(facts).deep_view().cfg_edge + intra + inter.subrange(0, 0),
                    ..old(facts).deep_view()
                },
            );
        }
        while si < succ_count
            invariant
                si <= succ_count,
                succ_count == bbv.successors.len(),
                last == last_index(bbv.statements.len() as int),
                facts.deep_view() == (FactsView {
                    cfg_edge: old(facts).deep_view().cfg_edge + intra + inter.subrange(
                        0,
                        si as int,
                    ),
                    ..old(facts).deep_view()
                }),
            decreases succ_count - si,
        {
            let ghost prevrows = facts.deep_view().cfg_edge;
            facts.cfg_edge.push((node_at(&bb.name, last), node_at(&bb.successors[si], 0)));
            proof {
                assert(facts.deep_view().cfg_edge =~~= prevrows + seq![inter[si as int]]);
                assert(facts.deep_view().cfg_edge =~~= old(facts).deep_view().cfg_edge + intra
                    + inter.subrange(0, si as int + 1));
            }
            si = si + 1;
        }
        proof {
            assert(inter.subrange(0, si as int) =~~= inter);
            assert(old(facts).deep_view().cfg_edge + intra + inter =~~= old(
                facts,
            ).deep_view().cfg_edge + cfg_rows(bbv));
        }
    }

    /// Emits the facts of one block: its control-flow edges, then each
    /// statement's facts in order; the first failing statement aborts
    /// emission, with its span.
    #[verifier::loop_isolation(false)]
    fn emit_block_facts(&self, bb: &BasicBlock, facts: &mut Facts) -> (r: Result<(), EmitError>)
        ensures
            match r {
                Ok(u) => block_facts(
                    self.program.deep_view(),
                    self.loans.deep_view(),
                    bb.deep_view(),
                ) matches Ok(d) && final(facts).deep_view() == fv_add(old(facts).deep_view(), d),
                Err(e) => block_facts(
                    self.program.deep_view(),
                    self.loans.deep_view(),
                    bb.deep_view(),
                ) == Err::<FactsView, EmitErrorView>(e.deep_view()),
            },
    {
        let ghost pv = self.program.deep_view();
        let ghost lv = self.loans.deep_view();
        let ghost bbv = bb.deep_view();
        self.emit_cfg_edges(bb, facts);
        let ghost cfg_bundle = FactsView { cfg_edge: cfg_rows(bbv), ..fv_empty() };
        proof {
            lemma_fv_fields(facts.deep_view(), fv_add(old(facts).deep_view(), cfg_bundle));
        }
        let ns = bb.statements.len();
        let mut si: usize = 0;
        let ghost mut acc: FactsView = cfg_bundle;
        while si < ns
            invariant
                si <= ns,
                ns == bbv.statements.len(),
                facts.deep_view() == fv_add(old(facts).deep_view(), acc),
                block_facts(pv, lv, bbv) == prepend_facts(
                    acc,
                    stmts_facts_from(pv, lv, bbv.name, bbv.statements, si as int),
                ),
            decreases ns - si,
        {
            let ghost nv = NodeView { block: bbv.name, index: si as int };
            let ghost sv = bbv.statements[si as int].inner;
            let ghost stmt_span_v = bbv.statements[si as int].span;
            let stmt_span = bb.statements[si].span;
            let node = node_at(&bb.name, si);
            match &bb.statements[si].inner {
                Statement::Expr(e) => {
                    match self.emit_expr_facts(bb, si, e, facts) {
                        Ok(u) => {
                            proof {
                                let d = stmt_facts(pv, lv, nv, sv)->Ok_0;
                                lemma_prepend_facts_assoc(
                                    acc,
                                    d,
                                    stmts_facts_from(pv, lv, bbv.name, bbv.statements, si as int + 1),
                                );
                                lemma_fv_add_assoc(old(facts).deep_view(), acc, d);
                                acc = fv_add(acc, d);
                            }
                        },
                        Err(k) => {
                            return Err(EmitError { kind: k, span: stmt_span });
                        },
                    }
                },
                Statement::Assign(place, e) => {
                    let ghost plv = place.deep_view();
                    let ghost ev = e.deep_view();
                    match self.emit_expr_facts(bb, si, e, facts) {
                        Ok(u) => {},
                        Err(k) => {
                            return Err(EmitError { kind: k, span: stmt_span });
                        },
                    }
                    let ghost after_rhs = facts.deep_view();
                    let to = match resolve_place_in(&self.program, place) {
                        Ok(to) => to,
                        Err(k) => {
                            return Err(EmitError { kind: k, span: stmt_span });
                        },
                    };
                    self.push_clear_rows(&to.1, &node, facts);
                    let access = Access::from_assignment_lhs(place);
                    proof {
                        assert(access.deep_view() == write_shallow(plv));
                    }
                    self.push_invalidation_rows(&access, &node, facts);
                    let ghost after_inv = facts.deep_view();
                    match e {
                        Expr::Access { kind: AccessKind::Borrow(src), place: rp } => {
                            let rto = match resolve_place_in(&self.program, rp) {
                                Ok(x) => x,
                                Err(k) => {
                                    return Err(EmitError { kind: k, span: stmt_span });
                                },
                            };
                            let rhs_ty = Ty::Ref { origin: src.clone(), ty: Box::new(rto.0) };
                            match emit_subsets_into(
                                &to.0,
                                &rhs_ty,
                                false,
                                &node,
                                &mut facts.introduce_subset,
                            ) {
                                Ok(u) => {},
                                Err(k) => {
                                    return Err(EmitError { kind: k, span: stmt_span });
                                },
                            }
                        },
                        Expr::Access { kind: AccessKind::BorrowMut(src), place: rp } => {
                            let rto = match resolve_place_in(&self.program, rp) {
                                Ok(x) => x,
                                Err(k) => {
                                    return Err(EmitError { kind: k, span: stmt_span });
                                },
                            };
                            let rhs_ty = Ty::RefMut { origin: src.clone(), ty: Box::new(rto.0) };
                            match emit_subsets_into(
                                &to.0,
                                &rhs_ty,
                                false,
                                &node,
                                &mut facts.introduce_subset,
                            ) {
                                Ok(u) => {},
                                Err(k) => {
                                    return Err(EmitError { kind: k, span: stmt_span });
                                },
                            }
                        },
                        Expr::Access { kind: AccessKind::Copy, place: rp } | Expr::Access {
                            kind: AccessKind::Move,
                            place: rp,
                        } => {
                            let rto = match resolve_place_in(&self.program, rp) {
                                Ok(x) => x,
                                Err(k) => {
                                    return Err(EmitError { kind: k, span: stmt_span });
                                },
                            };
                            match emit_subsets_into(
                                &to.0,
                                &rto.0,
                                false,
                                &node,
                                &mut facts.introduce_subset,
                            ) {
                                Ok(u) => {},
                                Err(k) => {
                                    return Err(EmitError { kind: k, span: stmt_span });
                                },
                            }
                        },
                        _ => {
                            proof {
                                match e {
                                    Expr::Number { value } => {
                                        assert(assign_subset_rows(pv, to.0.deep_view(), ev, nv)
                                            == Ok::<Seq<SubsetRowView>, ErrorKindView>(
                                            Seq::empty(),
                                        ));
                                    },
                                    Expr::Call { name, arguments } => {
                                        assert(assign_subset_rows(pv, to.0.deep_view(), ev, nv)
                                            == Ok::<Seq<SubsetRowView>, ErrorKindView>(
                                            Seq::empty(),
                                        ));
                                    },
                                    Expr::Unit => {
                                        assert(assign_subset_rows(pv, to.0.deep_view(), ev, nv)
                                            == Ok::<Seq<SubsetRowView>, ErrorKindView>(
                                            Seq::empty(),
                                        ));
                                    },
                                    Expr::Access { kind, place } => {},
                                }
                                assert(facts.deep_view().introduce_subset
                                    =~~= after_inv.introduce_subset + assign_subset_rows(
                                    pv,
                                    to.0.deep_view(),
                                    ev,
                                    nv,
                                )->Ok_0);
                            }
                        },
                    }
                    proof {
                        let f1 = expr_facts(pv, lv, nv, ev)->Ok_0;
                        let d = stmt_facts(pv, lv, nv, sv)->Ok_0;
                        lemma_fv_fields(facts.deep_view(), fv_add(fv_add(old(facts).deep_view(), acc), d));
                        lemma_prepend_facts_assoc(
                            acc,
                            d,
                            stmts_facts_from(pv, lv, bbv.name, bbv.statements, si as int + 1),
                        );
                        lemma_fv_add_assoc(old(facts).deep_view(), acc, d);
                        acc = fv_add(acc, d);
                    }
                },
            }
            si = si + 1;
        }
        proof {
            lemma_fv_add_empty(acc);
        }
        Ok(())
    }

    /// Emits the facts of the whole program into `facts`: every block's
    /// control-flow edges and statement facts, in order. On the first
    /// error, emission aborts; the accumulator may then hold a partial
    /// bundle, and the caller discards it.
    #[verifier::loop_isolation(false)]
    pub fn emit_facts(&self, facts: &mut Facts) -> (r: Result<(), EmitError>)
        ensures
            match r {
                Ok(u) => blocks_facts_from(
                    self.program.deep_view(),
                    self.loans.deep_view(),
                    self.program.deep_view().basic_blocks,
                    0,
                ) matches Ok(d) && final(facts).deep_view() == fv_add(old(facts).deep_view(), d),
                Err(e) => blocks_facts_from(
                    self.program.deep_view(),
                    self.loans.deep_view(),
                    self.program.deep_view().basic_blocks,
                    0,
                ) == Err::<FactsView, EmitErrorView>(e.deep_view()),
            },
    {
        let ghost pv = self.program.deep_view();
        let ghost lv = self.loans.deep_view();
        let nb = self.program.basic_blocks.len();
        let mut bi: usize = 0;
        let ghost mut acc: FactsView = fv_empty();
        proof {
            lemma_fv_add_empty(old(facts).deep_view());
            let r0 = blocks_facts_from(pv, lv, pv.basic_blocks, 0);
            match r0 {
                Ok(g) => {
                    lemma_fv_add_empty(g);
                },
                Err(k) => {},
            }
        }
        while bi < nb
            invariant
                bi <= nb,
                nb == pv.basic_blocks.len(),
                facts.deep_view() == fv_add(old(facts).deep_view(), acc),
                blocks_facts_from(pv, lv, pv.basic_blocks, 0) == prepend_facts(
                    acc,
                    blocks_facts_from(pv, lv, pv.basic_blocks, bi as int),
                ),
            decreases nb - bi,
        {
            let bb = &self.program.basic_blocks[bi];
            match self.emit_block_facts(bb, facts) {
                Ok(u) => {
                    proof {
                        let d = block_facts(pv, lv, pv.basic_blocks[bi as int])->Ok_0;
                        lemma_prepend_facts_assoc(
                            acc,
                            d,
                            blocks_facts_from(pv, lv, pv.basic_blocks, bi as int + 1),
                        );
                        lemma_fv_add_assoc(old(facts).deep_view(), acc, d);
                        acc = fv_add(acc, d);
                    }
                },
                Err(e) => {
                    return Err(e);
                },
            }
            bi = bi + 1;
        }
        proof {
            lemma_fv_add_empty(acc);
        }
        Ok(())
    }
}

/// Runs the emitter over a program: collects the loan index, walks every
/// block, and yields the five relations; or the first error with the span
/// of the statement it arose in, in which case no facts are returned.
pub fn emit_facts(program: Program) -> (r: Result<Facts, EmitError>)
    ensures
        match r {
            Ok(f) => emit_program(program.deep_view()) == Ok::<FactsView, EmitErrorView>(
                f.deep_view(),
            ),
            Err(e) => emit_program(program.deep_view()) == Err::<FactsView, EmitErrorView>(
                e.deep_view(),
            ),
        },
{
    let emitter = FactEmitter::new(program);
    let mut facts = Facts::default();
    match emitter.emit_facts(&mut facts) {
        Ok(u) => {
            proof {
                let d = emit_program(emitter.program.deep_view())->Ok_0;
                lemma_fv_add_empty(d);
            }
            Ok(facts)
        },
        Err(e) => Err(e),
    }
}

} // verus!
