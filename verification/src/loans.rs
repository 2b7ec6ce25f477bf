//! The loan index: a one-time pass over the program that records every
//! borrow expression, keyed by the place it borrows from, with the origin
//! it was given, the program point of its statement, and whether it is a
//! shared or a unique loan.

use vstd::prelude::*;

use crate::ast::{
    size_of_expr, size_of_exprs, view_exprs, BasicBlockView, Expr, ExprView, Name,
    Place, Program, ProgramView, Statement, StatementView,
};
use crate::facts::{node_at, Node, NodeView};
use crate::invalidates::BorrowKind;
use crate::span::SpannedView;

verus! {

/// One loan of the index.
#[derive(Debug)]
pub struct LoanRecord {
    /// The place the borrow expression borrows from.
    pub place: Place,
    /// The origin named by the borrow expression.
    pub origin: Name,
    /// The program point of the statement holding the borrow.
    pub node: Node,
    /// Shared for `&`, unique for `&mut`.
    pub kind: BorrowKind,
}

/// Spec-level mirror of `LoanRecord`.
pub struct LoanRecordView {
    pub place: crate::ast::PlaceView,
    pub origin: Seq<char>,
    pub node: NodeView,
    pub kind: BorrowKind,
}

impl DeepView for LoanRecord {
    type V = LoanRecordView;

    open spec fn deep_view(&self) -> LoanRecordView {
        LoanRecordView {
            place: self.place.deep_view(),
            origin: self.origin@,
            node: self.node.deep_view(),
            kind: self.kind,
        }
    }
}

/// The loans created by one expression, in pre-order: a borrow access
/// yields one loan; a call yields the loans of its arguments from left to
/// right; everything else yields none.
pub open spec fn expr_loans(e: ExprView, n: NodeView) -> Seq<LoanRecordView>
    decreases e,
{
    match e {
        ExprView::Access { kind, place } => match kind {
            crate::ast::AccessKindView::Borrow(o) => seq![
                LoanRecordView { place, origin: o, node: n, kind: BorrowKind::Shared },
            ],
            crate::ast::AccessKindView::BorrowMut(o) => seq![
                LoanRecordView { place, origin: o, node: n, kind: BorrowKind::Unique },
            ],
            _ => Seq::empty(),
        },
        ExprView::Call { name, arguments } => exprs_loans(arguments, n),
        _ => Seq::empty(),
    }
}

pub open spec fn exprs_loans(es: Seq<ExprView>, n: NodeView) -> Seq<LoanRecordView>
    decreases es,
{
    if es.len() == 0 {
        Seq::empty()
    } else {
        expr_loans(es[0], n) + exprs_loans(es.subrange(1, es.len() as int), n)
    }
}

pub proof fn lemma_exprs_loans_append(a: Seq<ExprView>, b: Seq<ExprView>, n: NodeView)
    ensures
        exprs_loans(a + b, n) == exprs_loans(a, n) + exprs_loans(b, n),
    decreases a,
{
    if a.len() == 0 {
        assert(a + b =~= b);
        assert(exprs_loans(a, n) + exprs_loans(b, n) =~= exprs_loans(b, n));
    } else {
        let tail = a.subrange(1, a.len() as int);
        lemma_exprs_loans_append(tail, b, n);
        assert((a + b).subrange(1, (a + b).len() as int) =~= tail + b);
        assert((a + b)[0] == a[0]);
        assert(expr_loans(a[0], n) + (exprs_loans(tail, n) + exprs_loans(b, n)) =~= (expr_loans(
            a[0],
            n,
        ) + exprs_loans(tail, n)) + exprs_loans(b, n));
    }
}

pub proof fn lemma_exprs_loans_single(e: ExprView, n: NodeView)
    ensures
        exprs_loans(seq![e], n) == expr_loans(e, n),
{
    assert(seq![e].subrange(1, 1) =~= Seq::<ExprView>::empty());
    assert(exprs_loans(Seq::<ExprView>::empty(), n) =~= Seq::<LoanRecordView>::empty());
    assert(exprs_loans(seq![e], n) =~= expr_loans(e, n));
}

/// The loans created by one statement: those of its expression; an
/// assignment's left-hand side creates none.
pub open spec fn stmt_loans(s: StatementView, n: NodeView) -> Seq<LoanRecordView> {
    match s {
        StatementView::Assign(p, e) => expr_loans(e, n),
        StatementView::Expr(e) => expr_loans(e, n),
    }
}

/// The loans of the statements of a block from index `i` on.
pub open spec fn stmts_loans_from(
    name: Seq<char>,
    stmts: Seq<SpannedView<StatementView>>,
    i: int,
) -> Seq<LoanRecordView>
    decreases stmts.len() - i,
{
    if i < 0 || i >= stmts.len() {
        Seq::empty()
    } else {
        stmt_loans(stmts[i].inner, NodeView { block: name, index: i }) + stmts_loans_from(
            name,
            stmts,
            i + 1,
        )
    }
}

/// The loans of one block.
pub open spec fn block_loans(b: BasicBlockView) -> Seq<LoanRecordView> {
    stmts_loans_from(b.name, b.statements, 0)
}

/// The loans of the blocks of a program from index `i` on.
pub open spec fn blocks_loans_from(blocks: Seq<BasicBlockView>, i: int) -> Seq<LoanRecordView>
    decreases blocks.len() - i,
{
    if i < 0 || i >= blocks.len() {
        Seq::empty()
    } else {
        block_loans(blocks[i]) + blocks_loans_from(blocks, i + 1)
    }
}

/// The whole loan index of a program, in block-then-statement-then-
/// expression order. The index is complete: every lexical borrow expression
/// yields one entry at its definition node.
pub open spec fn program_loans(p: ProgramView) -> Seq<LoanRecordView> {
    blocks_loans_from(p.basic_blocks, 0)
}

/// Appends the loans of one expression to `out`.
#[verifier::loop_isolation(false)]
fn push_expr_loans(e: &Expr, node: &Node, out: &mut Vec<LoanRecord>)
    ensures
        final(out).deep_view() == old(out).deep_view() + expr_loans(
            e.deep_view(),
            node.deep_view(),
        ),
    decreases size_of_expr(e.deep_view()),
{
    broadcast use crate::ast::lemma_view_exprs_len, crate::ast::lemma_view_exprs_index_at;

    match e {
        Expr::Access { kind, place } => {
            match kind {
                crate::ast::AccessKind::Borrow(o) => {
                    let ghost prev = out.deep_view();
                    out.push(
                        LoanRecord {
                            place: place.clone(),
                            origin: o.clone(),
                            node: node.clone(),
                            kind: BorrowKind::Shared,
                        },
                    );
                    assert(out.deep_view() =~= prev + expr_loans(
                        e.deep_view(),
                        node.deep_view(),
                    ));
                },
                crate::ast::AccessKind::BorrowMut(o) => {
                    let ghost prev = out.deep_view();
                    out.push(
                        LoanRecord {
                            place: place.clone(),
                            origin: o.clone(),
                            node: node.clone(),
                            kind: BorrowKind::Unique,
                        },
                    );
                    assert(out.deep_view() =~= prev + expr_loans(
                        e.deep_view(),
                        node.deep_view(),
                    ));
                },
                _ => {
                    assert(out.deep_view() =~= old(out).deep_view() + expr_loans(
                        e.deep_view(),
                        node.deep_view(),
                    ));
                },
            }
        },
        Expr::Call { name, arguments } => {
            let ghost ev = view_exprs(arguments@);
            let n = arguments.len();
            let mut i: usize = 0;
            proof {
                assert(ev.subrange(0, 0) =~= Seq::<ExprView>::empty());
                assert(out.deep_view() =~= old(out).deep_view() + exprs_loans(
                    ev.subrange(0, 0),
                    node.deep_view(),
                ));
            }
            while i < n
                invariant
                    i <= n,
                    n == arguments@.len(),
                    out.deep_view() == old(out).deep_view() + exprs_loans(
                        ev.subrange(0, i as int),
                        node.deep_view(),
                    ),
                decreases n - i,
            {
                proof {
                    lemma_size_of_expr_le_here(ev, i as int);
                }
                let ghost before = out.deep_view();
                push_expr_loans(&arguments[i], node, out);
                proof {
                    let prefix = ev.subrange(0, i as int);
                    assert(ev.subrange(0, i as int + 1) =~= prefix + seq![ev[i as int]]);
                    lemma_exprs_loans_append(prefix, seq![ev[i as int]], node.deep_view());
                    lemma_exprs_loans_single(ev[i as int], node.deep_view());
                    assert(out.deep_view() =~= old(out).deep_view() + exprs_loans(
                        ev.subrange(0, i as int + 1),
                        node.deep_view(),
                    ));
                }
                i = i + 1;
            }
            proof {
                assert(ev.subrange(0, n as int) =~= ev);
            }
        },
        _ => {
            assert(out.deep_view() =~= old(out).deep_view() + expr_loans(
                e.deep_view(),
                node.deep_view(),
            ));
        },
    }
}

proof fn lemma_size_of_expr_le_here(es: Seq<ExprView>, i: int)
    requires
        0 <= i < es.len(),
    ensures
        size_of_expr(es[i]) <= size_of_exprs(es),
{
    crate::ast::lemma_size_of_expr_le(es, i);
}

/// Collects the whole loan index of a program: one record per lexical
/// borrow expression, in block-then-statement-then-expression order.
#[verifier::loop_isolation(false)]
pub fn collect_loans(program: &Program) -> (r: Vec<LoanRecord>)
    ensures
        r.deep_view() == program_loans(program.deep_view()),
{
    let ghost pv = program.deep_view();
    let mut out: Vec<LoanRecord> = Vec::new();
    let nb = program.basic_blocks.len();
    let mut bi: usize = 0;
    proof {
        assert(out.deep_view() =~= Seq::<LoanRecordView>::empty());
        assert(out.deep_view() + blocks_loans_from(pv.basic_blocks, 0) =~= program_loans(pv));
    }
    while bi < nb
        invariant
            bi <= nb,
            nb == program.basic_blocks@.len(),
            program_loans(pv) == out.deep_view() + blocks_loans_from(pv.basic_blocks, bi as int),
        decreases nb - bi,
    {
        let bb = &program.basic_blocks[bi];
        let ghost bbv = pv.basic_blocks[bi as int];
        let ns = bb.statements.len();
        let mut si: usize = 0;
        proof {
            assert(bbv == bb.deep_view());
            assert(out.deep_view() + (stmts_loans_from(bbv.name, bbv.statements, 0)
                + blocks_loans_from(pv.basic_blocks, bi as int + 1)) =~= out.deep_view()
                + stmts_loans_from(bbv.name, bbv.statements, 0) + blocks_loans_from(
                pv.basic_blocks,
                bi as int + 1,
            ));
        }
        while si < ns
            invariant
                si <= ns,
                ns == bb.statements@.len(),
                program_loans(pv) == out.deep_view() + stmts_loans_from(
                    bbv.name,
                    bbv.statements,
                    si as int,
                ) + blocks_loans_from(pv.basic_blocks, bi as int + 1),
            decreases ns - si,
        {
            let node = node_at(&bb.name, si);
            let ghost before = out.deep_view();
            match &bb.statements[si].inner {
                Statement::Assign(p, e) => {
                    push_expr_loans(e, &node, &mut out);
                },
                Statement::Expr(e) => {
                    push_expr_loans(e, &node, &mut out);
                },
            }
            proof {
                assert(bbv.statements[si as int] == bb.statements@[si as int].deep_view());
                assert(out.deep_view() =~= before + stmt_loans(
                    bbv.statements[si as int].inner,
                    NodeView { block: bbv.name, index: si as int },
                ));
                assert(out.deep_view() + stmts_loans_from(bbv.name, bbv.statements, si as int + 1)
                    + blocks_loans_from(pv.basic_blocks, bi as int + 1) =~= before + (stmt_loans(
                    bbv.statements[si as int].inner,
                    NodeView { block: bbv.name, index: si as int },
                ) + stmts_loans_from(bbv.name, bbv.statements, si as int + 1)) + blocks_loans_from(
                    pv.basic_blocks,
                    bi as int + 1,
                ));
            }
            si = si + 1;
        }
        proof {
            assert(stmts_loans_from(bbv.name, bbv.statements, si as int) =~= Seq::<
                LoanRecordView,
            >::empty());
            assert(out.deep_view() + Seq::<LoanRecordView>::empty() + blocks_loans_from(
                pv.basic_blocks,
                bi as int + 1,
            ) =~= out.deep_view() + blocks_loans_from(pv.basic_blocks, bi as int + 1));
        }
        bi = bi + 1;
    }
    out
}

/// Whether the expression contains, in any sub-expression, a borrow of
/// `place` naming `origin`, of the given kind.
pub open spec fn expr_has_borrow(
    e: ExprView,
    place: crate::ast::PlaceView,
    origin: Seq<char>,
    kind: BorrowKind,
) -> bool
    decreases e,
{
    match e {
        ExprView::Access { kind: ak, place: pl } => pl == place && (match ak {
            crate::ast::AccessKindView::Borrow(o) => kind == BorrowKind::Shared && o == origin,
            crate::ast::AccessKindView::BorrowMut(o) => kind == BorrowKind::Unique && o == origin,
            _ => false,
        }),
        ExprView::Call { name, arguments } => exprs_have_borrow(arguments, place, origin, kind),
        _ => false,
    }
}

pub open spec fn exprs_have_borrow(
    es: Seq<ExprView>,
    place: crate::ast::PlaceView,
    origin: Seq<char>,
    kind: BorrowKind,
) -> bool
    decreases es,
{
    if es.len() == 0 {
        false
    } else {
        expr_has_borrow(es[0], place, origin, kind) || exprs_have_borrow(
            es.subrange(1, es.len() as int),
            place,
            origin,
            kind,
        )
    }
}

pub proof fn lemma_expr_borrow_recorded(
    e: ExprView,
    n: NodeView,
    place: crate::ast::PlaceView,
    origin: Seq<char>,
    kind: BorrowKind,
)
    requires
        expr_has_borrow(e, place, origin, kind),
    ensures
        expr_loans(e, n).contains(LoanRecordView { place, origin, node: n, kind }),
    decreases e,
{
    match e {
        ExprView::Access { kind: ak, place: pl } => {
            assert(expr_loans(e, n)[0] == LoanRecordView { place, origin, node: n, kind });
        },
        ExprView::Call { name, arguments } => {
            lemma_exprs_borrow_recorded(arguments, n, place, origin, kind);
        },
        _ => {},
    }
}

pub proof fn lemma_exprs_borrow_recorded(
    es: Seq<ExprView>,
    n: NodeView,
    place: crate::ast::PlaceView,
    origin: Seq<char>,
    kind: BorrowKind,
)
    requires
        exprs_have_borrow(es, place, origin, kind),
    ensures
        exprs_loans(es, n).contains(LoanRecordView { place, origin, node: n, kind }),
    decreases es,
{
    let rec = LoanRecordView { place, origin, node: n, kind };
    let head = expr_loans(es[0], n);
    let rest = exprs_loans(es.subrange(1, es.len() as int), n);
    if expr_has_borrow(es[0], place, origin, kind) {
        lemma_expr_borrow_recorded(es[0], n, place, origin, kind);
        let j = choose|j: int| 0 <= j < head.len() && head[j] == rec;
        assert((head + rest)[j] == rec);
    } else {
        lemma_exprs_borrow_recorded(es.subrange(1, es.len() as int), n, place, origin, kind);
        let j = choose|j: int| 0 <= j < rest.len() && rest[j] == rec;
        assert((head + rest)[head.len() + j] == rec);
    }
}

/// Whether a statement contains such a borrow in its expression.
pub open spec fn stmt_has_borrow(
    s: StatementView,
    place: crate::ast::PlaceView,
    origin: Seq<char>,
    kind: BorrowKind,
) -> bool {
    match s {
        StatementView::Assign(lhs, e) => expr_has_borrow(e, place, origin, kind),
        StatementView::Expr(e) => expr_has_borrow(e, place, origin, kind),
    }
}

pub proof fn lemma_stmts_borrow_recorded(
    name: Seq<char>,
    stmts: Seq<SpannedView<StatementView>>,
    i: int,
    si: int,
    place: crate::ast::PlaceView,
    origin: Seq<char>,
    kind: BorrowKind,
)
    requires
        0 <= i <= si < stmts.len(),
        stmt_has_borrow(stmts[si].inner, place, origin, kind),
    ensures
        stmts_loans_from(name, stmts, i).contains(
            LoanRecordView {
                place,
                origin,
                node: NodeView { block: name, index: si },
                kind,
            },
        ),
    decreases si - i,
{
    let n = NodeView { block: name, index: si };
    let rec = LoanRecordView { place, origin, node: n, kind };
    let head = stmt_loans(stmts[i].inner, NodeView { block: name, index: i });
    let rest = stmts_loans_from(name, stmts, i + 1);
    if si == i {
        match stmts[si].inner {
            StatementView::Assign(lhs, e) => {
                lemma_expr_borrow_recorded(e, n, place, origin, kind);
            },
            StatementView::Expr(e) => {
                lemma_expr_borrow_recorded(e, n, place, origin, kind);
            },
        }
        let j = choose|j: int| 0 <= j < head.len() && head[j] == rec;
        assert((head + rest)[j] == rec);
    } else {
        lemma_stmts_borrow_recorded(name, stmts, i + 1, si, place, origin, kind);
        let j = choose|j: int| 0 <= j < rest.len() && rest[j] == rec;
        assert((head + rest)[head.len() + j] == rec);
    }
}

pub proof fn lemma_blocks_borrow_recorded(
    blocks: Seq<BasicBlockView>,
    i: int,
    bi: int,
    si: int,
    place: crate::ast::PlaceView,
    origin: Seq<char>,
    kind: BorrowKind,
)
    requires
        0 <= i <= bi < blocks.len(),
        0 <= si < blocks[bi].statements.len(),
        stmt_has_borrow(blocks[bi].statements[si].inner, place, origin, kind),
    ensures
        blocks_loans_from(blocks, i).contains(
            LoanRecordView {
                place,
                origin,
                node: NodeView { block: blocks[bi].name, index: si },
                kind,
            },
        ),
    decreases bi - i,
{
    let rec = LoanRecordView {
        place,
        origin,
        node: NodeView { block: blocks[bi].name, index: si },
        kind,
    };
    let head = block_loans(blocks[i]);
    let rest = blocks_loans_from(blocks, i + 1);
    if bi == i {
        lemma_stmts_borrow_recorded(
            blocks[bi].name,
            blocks[bi].statements,
            0,
            si,
            place,
            origin,
            kind,
        );
        let j = choose|j: int| 0 <= j < head.len() && head[j] == rec;
        assert((head + rest)[j] == rec);
    } else {
        lemma_blocks_borrow_recorded(blocks, i + 1, bi, si, place, origin, kind);
        let j = choose|j: int| 0 <= j < rest.len() && rest[j] == rec;
        assert((head + rest)[head.len() + j] == rec);
    }
}

/// Law (the index is complete): every lexical borrow expression of the
/// program yields one entry of the loan index, keyed by the borrowed
/// place, with the borrow's origin and kind, at its definition node.
pub proof fn lemma_loan_index_complete(
    p: ProgramView,
    bi: int,
    si: int,
    place: crate::ast::PlaceView,
    origin: Seq<char>,
    kind: BorrowKind,
)
    requires
        0 <= bi < p.basic_blocks.len(),
        0 <= si < p.basic_blocks[bi].statements.len(),
        stmt_has_borrow(p.basic_blocks[bi].statements[si].inner, place, origin, kind),
    ensures
        program_loans(p).contains(
            LoanRecordView {
                place,
                origin,
                node: NodeView { block: p.basic_blocks[bi].name, index: si },
                kind,
            },
        ),
{
    lemma_blocks_borrow_recorded(p.basic_blocks, 0, bi, si, place, origin, kind);
}

} // verus!
