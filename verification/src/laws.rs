//! Program-wide laws of the fact emitter, proved against the emission
//! model: what the relations are guaranteed to contain for every program
//! that emits successfully.

use vstd::prelude::*;

use crate::ast::{BasicBlockView, ExprView, PlaceView, ProgramView, StatementView};
use crate::fact_emitter::{
    assign_subset_rows, block_facts, blocks_facts_from, cfg_rows, emit_program, expr_facts,
    exprs_facts_from, invalidation_rows_from, loan_of_record, origin_rows, stmt_facts,
    stmts_facts_from, write_deep, write_shallow, EmitErrorView,
};
use crate::facts::{fv_add, FactsView, NodeView};
use crate::invalidates::{spec_invalidates, AccessView};
use crate::loans::{program_loans, LoanRecordView};
use crate::resolve::resolve_place;

verus! {

/// A sequence contains every element of both halves of a concatenation.
pub proof fn lemma_concat_contains<A>(a: Seq<A>, b: Seq<A>, x: A)
    requires
        a.contains(x) || b.contains(x),
    ensures
        (a + b).contains(x),
{
    if a.contains(x) {
        let j = choose|j: int| 0 <= j < a.len() && a[j] == x;
        assert((a + b)[j] == x);
    } else {
        let j = choose|j: int| 0 <= j < b.len() && b[j] == x;
        assert((a + b)[a.len() + j] == x);
    }
}

/// Every row of one block's bundle appears in the bundle of the whole walk
/// from block `i` on, and every block of a successful walk emitted
/// successfully.
pub proof fn lemma_blocks_contain_block(
    p: ProgramView,
    loans: Seq<LoanRecordView>,
    blocks: Seq<BasicBlockView>,
    i: int,
    bi: int,
    f: FactsView,
)
    requires
        blocks_facts_from(p, loans, blocks, i) == Ok::<FactsView, EmitErrorView>(f),
        0 <= i <= bi < blocks.len(),
    ensures
        block_facts(p, loans, blocks[bi]) matches Ok(fb) && {
            &&& forall|row: (Seq<char>, NodeView)|
                fb.access_origin.contains(row) ==> #[trigger] f.access_origin.contains(row)
            &&& forall|row: (Seq<char>, NodeView)|
                fb.clear_origin.contains(row) ==> #[trigger] f.clear_origin.contains(row)
            &&& forall|row: (Seq<char>, NodeView)|
                fb.invalidate_origin.contains(row) ==> #[trigger] f.invalidate_origin.contains(
                    row,
                )
        },
    decreases bi - i,
{
    let fb_i = block_facts(p, loans, blocks[i])->Ok_0;
    let rest = blocks_facts_from(p, loans, blocks, i + 1)->Ok_0;
    assert(f == fv_add(fb_i, rest));
    if bi == i {
        assert forall|row: (Seq<char>, NodeView)| fb_i.access_origin.contains(row) implies
            #[trigger] f.access_origin.contains(row) by {
            lemma_concat_contains(fb_i.access_origin, rest.access_origin, row);
        }
        assert forall|row: (Seq<char>, NodeView)| fb_i.clear_origin.contains(row) implies
            #[trigger] f.clear_origin.contains(row) by {
            lemma_concat_contains(fb_i.clear_origin, rest.clear_origin, row);
        }
        assert forall|row: (Seq<char>, NodeView)| fb_i.invalidate_origin.contains(row) implies
            #[trigger] f.invalidate_origin.contains(row) by {
            lemma_concat_contains(fb_i.invalidate_origin, rest.invalidate_origin, row);
        }
    } else {
        lemma_blocks_contain_block(p, loans, blocks, i + 1, bi, rest);
        let fb = block_facts(p, loans, blocks[bi])->Ok_0;
        assert forall|row: (Seq<char>, NodeView)| fb.access_origin.contains(row) implies
            #[trigger] f.access_origin.contains(row) by {
            assert(rest.access_origin.contains(row));
            lemma_concat_contains(fb_i.access_origin, rest.access_origin, row);
        }
        assert forall|row: (Seq<char>, NodeView)| fb.clear_origin.contains(row) implies
            #[trigger] f.clear_origin.contains(row) by {
            assert(rest.clear_origin.contains(row));
            lemma_concat_contains(fb_i.clear_origin, rest.clear_origin, row);
        }
        assert forall|row: (Seq<char>, NodeView)| fb.invalidate_origin.contains(row) implies
            #[trigger] f.invalidate_origin.contains(row) by {
            assert(rest.invalidate_origin.contains(row));
            lemma_concat_contains(fb_i.invalidate_origin, rest.invalidate_origin, row);
        }
    }
}

/// Every row of one statement's bundle appears in the bundle of the walk
/// over the block's statements from `i` on, and every statement of a
/// successful walk emitted successfully.
pub proof fn lemma_stmts_contain_stmt(
    p: ProgramView,
    loans: Seq<LoanRecordView>,
    name: Seq<char>,
    stmts: Seq<crate::span::SpannedView<StatementView>>,
    i: int,
    si: int,
    f: FactsView,
)
    requires
        stmts_facts_from(p, loans, name, stmts, i) == Ok::<FactsView, EmitErrorView>(f),
        0 <= i <= si < stmts.len(),
    ensures
        stmt_facts(p, loans, NodeView { block: name, index: si }, stmts[si].inner) matches Ok(
            fs,
        ) && {
            &&& forall|row: (Seq<char>, NodeView)|
                fs.access_origin.contains(row) ==> #[trigger] f.access_origin.contains(row)
            &&& forall|row: (Seq<char>, NodeView)|
                fs.clear_origin.contains(row) ==> #[trigger] f.clear_origin.contains(row)
            &&& forall|row: (Seq<char>, NodeView)|
                fs.invalidate_origin.contains(row) ==> #[trigger] f.invalidate_origin.contains(
                    row,
                )
        },
    decreases si - i,
{
    let fs_i = stmt_facts(p, loans, NodeView { block: name, index: i }, stmts[i].inner)->Ok_0;
    let rest = stmts_facts_from(p, loans, name, stmts, i + 1)->Ok_0;
    assert(f == fv_add(fs_i, rest));
    if si == i {
        assert forall|row: (Seq<char>, NodeView)| fs_i.access_origin.contains(row) implies
            #[trigger] f.access_origin.contains(row) by {
            lemma_concat_contains(fs_i.access_origin, rest.access_origin, row);
        }
        assert forall|row: (Seq<char>, NodeView)| fs_i.clear_origin.contains(row) implies
            #[trigger] f.clear_origin.contains(row) by {
            lemma_concat_contains(fs_i.clear_origin, rest.clear_origin, row);
        }
        assert forall|row: (Seq<char>, NodeView)| fs_i.invalidate_origin.contains(row) implies
            #[trigger] f.invalidate_origin.contains(row) by {
            lemma_concat_contains(fs_i.invalidate_origin, rest.invalidate_origin, row);
        }
    } else {
        lemma_stmts_contain_stmt(p, loans, name, stmts, i + 1, si, rest);
        let fs = stmt_facts(p, loans, NodeView { block: name, index: si }, stmts[si].inner)->Ok_0;
        assert forall|row: (Seq<char>, NodeView)| fs.access_origin.contains(row) implies
            #[trigger] f.access_origin.contains(row) by {
            assert(rest.access_origin.contains(row));
            lemma_concat_contains(fs_i.access_origin, rest.access_origin, row);
        }
        assert forall|row: (Seq<char>, NodeView)| fs.clear_origin.contains(row) implies
            #[trigger] f.clear_origin.contains(row) by {
            assert(rest.clear_origin.contains(row));
            lemma_concat_contains(fs_i.clear_origin, rest.clear_origin, row);
        }
        assert forall|row: (Seq<char>, NodeView)| fs.invalidate_origin.contains(row) implies
            #[trigger] f.invalidate_origin.contains(row) by {
            assert(rest.invalidate_origin.contains(row));
            lemma_concat_contains(fs_i.invalidate_origin, rest.invalidate_origin, row);
        }
    }
}

/// The bundle of a successfully emitted program contains, for every
/// statement, every row of that statement's own bundle.
pub proof fn lemma_program_contains_stmt(p: ProgramView, bi: int, si: int, f: FactsView)
    requires
        emit_program(p) == Ok::<FactsView, EmitErrorView>(f),
        0 <= bi < p.basic_blocks.len(),
        0 <= si < p.basic_blocks[bi].statements.len(),
    ensures
        stmt_facts(
            p,
            program_loans(p),
            NodeView { block: p.basic_blocks[bi].name, index: si },
            p.basic_blocks[bi].statements[si].inner,
        ) matches Ok(fs) && {
            &&& forall|row: (Seq<char>, NodeView)|
                fs.access_origin.contains(row) ==> #[trigger] f.access_origin.contains(row)
            &&& forall|row: (Seq<char>, NodeView)|
                fs.clear_origin.contains(row) ==> #[trigger] f.clear_origin.contains(row)
            &&& forall|row: (Seq<char>, NodeView)|
                fs.invalidate_origin.contains(row) ==> #[trigger] f.invalidate_origin.contains(
                    row,
                )
        },
{
    let loans = program_loans(p);
    let b = p.basic_blocks[bi];
    lemma_blocks_contain_block(p, loans, p.basic_blocks, 0, bi, f);
    let fb = block_facts(p, loans, b)->Ok_0;
    let fstmts = stmts_facts_from(p, loans, b.name, b.statements, 0)->Ok_0;
    assert(fb == fv_add(FactsView { cfg_edge: crate::fact_emitter::cfg_rows(b), ..crate::facts::fv_empty() }, fstmts));
    lemma_stmts_contain_stmt(p, loans, b.name, b.statements, 0, si, fstmts);
    let fs = stmt_facts(p, loans, NodeView { block: b.name, index: si }, b.statements[si].inner)
        ->Ok_0;
    assert forall|row: (Seq<char>, NodeView)| fs.access_origin.contains(row) implies #[trigger] f
        .access_origin.contains(row) by {
        assert(fstmts.access_origin.contains(row));
        lemma_concat_contains(
            Seq::<(Seq<char>, NodeView)>::empty(),
            fstmts.access_origin,
            row,
        );
        assert(fb.access_origin =~= Seq::<(Seq<char>, NodeView)>::empty() + fstmts.access_origin);
    }
    assert forall|row: (Seq<char>, NodeView)| fs.clear_origin.contains(row) implies #[trigger] f
        .clear_origin.contains(row) by {
        assert(fstmts.clear_origin.contains(row));
        lemma_concat_contains(Seq::<(Seq<char>, NodeView)>::empty(), fstmts.clear_origin, row);
        assert(fb.clear_origin =~= Seq::<(Seq<char>, NodeView)>::empty() + fstmts.clear_origin);
    }
    assert forall|row: (Seq<char>, NodeView)| fs.invalidate_origin.contains(row) implies
        #[trigger] f.invalidate_origin.contains(row) by {
        assert(fstmts.invalidate_origin.contains(row));
        lemma_concat_contains(
            Seq::<(Seq<char>, NodeView)>::empty(),
            fstmts.invalidate_origin,
            row,
        );
        assert(fb.invalidate_origin =~= Seq::<(Seq<char>, NodeView)>::empty()
            + fstmts.invalidate_origin);
    }
}

/// Law: for every assignment `p = …` at node `N` of a successfully emitted
/// program, every origin in the resolved type of `p` appears as
/// `clear_origin(o, N)`.
pub proof fn lemma_assignment_clears_lhs_origins(
    p: ProgramView,
    f: FactsView,
    bi: int,
    si: int,
    pl: PlaceView,
    e: ExprView,
    o: Seq<char>,
)
    requires
        emit_program(p) == Ok::<FactsView, EmitErrorView>(f),
        0 <= bi < p.basic_blocks.len(),
        0 <= si < p.basic_blocks[bi].statements.len(),
        p.basic_blocks[bi].statements[si].inner == StatementView::Assign(pl, e),
        resolve_place(p, pl) matches Ok(to) && to.1.contains(o),
    ensures
        f.clear_origin.contains(
            (o, NodeView { block: p.basic_blocks[bi].name, index: si }),
        ),
{
    let loans = program_loans(p);
    let b = p.basic_blocks[bi];
    let n = NodeView { block: b.name, index: si };
    lemma_program_contains_stmt(p, bi, si, f);
    let fs = stmt_facts(p, loans, n, b.statements[si].inner)->Ok_0;
    let to = resolve_place(p, pl)->Ok_0;
    let f1 = expr_facts(p, loans, n, e)->Ok_0;
    let rows = origin_rows(to.1, n);
    let j = choose|j: int| 0 <= j < to.1.len() && to.1[j] == o;
    assert(rows[j] == (o, n));
    assert(rows.contains((o, n)));
    lemma_concat_contains(f1.clear_origin, rows, (o, n));
    assert(fs.clear_origin == f1.clear_origin + rows);
    assert(fs.clear_origin.contains((o, n)));
}

/// One `invalidate_origin` row is present for every loan of the index that
/// the access invalidates.
pub proof fn lemma_invalidation_rows_contain(
    loans: Seq<LoanRecordView>,
    a: AccessView,
    n: NodeView,
    i: int,
    k: int,
)
    requires
        0 <= i <= k < loans.len(),
        spec_invalidates(a, loan_of_record(loans[k])),
    ensures
        invalidation_rows_from(loans, a, n, i).contains((loans[k].origin, n)),
    decreases k - i,
{
    let head: Seq<(Seq<char>, NodeView)> = if spec_invalidates(a, loan_of_record(loans[i])) {
        seq![(loans[i].origin, n)]
    } else {
        Seq::empty()
    };
    if k == i {
        assert(head[0] == (loans[k].origin, n));
        assert(head.contains((loans[k].origin, n)));
        lemma_concat_contains(head, invalidation_rows_from(loans, a, n, i + 1), (loans[k].origin, n));
    } else {
        lemma_invalidation_rows_contain(loans, a, n, i + 1, k);
        lemma_concat_contains(head, invalidation_rows_from(loans, a, n, i + 1), (loans[k].origin, n));
    }
}

/// Law: for every loan of the index and every assignment whose shallow
/// write invalidates it under the invalidation predicate, the loan's
/// origin is invalidated at the assignment's node.
pub proof fn lemma_assignment_invalidates_loans(
    p: ProgramView,
    f: FactsView,
    bi: int,
    si: int,
    pl: PlaceView,
    e: ExprView,
    k: int,
)
    requires
        emit_program(p) == Ok::<FactsView, EmitErrorView>(f),
        0 <= bi < p.basic_blocks.len(),
        0 <= si < p.basic_blocks[bi].statements.len(),
        p.basic_blocks[bi].statements[si].inner == StatementView::Assign(pl, e),
        0 <= k < program_loans(p).len(),
        spec_invalidates(write_shallow(pl), loan_of_record(program_loans(p)[k])),
    ensures
        f.invalidate_origin.contains(
            (
                program_loans(p)[k].origin,
                NodeView { block: p.basic_blocks[bi].name, index: si },
            ),
        ),
{
    let loans = program_loans(p);
    let b = p.basic_blocks[bi];
    let n = NodeView { block: b.name, index: si };
    lemma_program_contains_stmt(p, bi, si, f);
    let fs = stmt_facts(p, loans, n, b.statements[si].inner)->Ok_0;
    let f1 = expr_facts(p, loans, n, e)->Ok_0;
    let inv = invalidation_rows_from(loans, write_shallow(pl), n, 0);
    lemma_invalidation_rows_contain(loans, write_shallow(pl), n, 0, k);
    lemma_concat_contains(f1.invalidate_origin, inv, (loans[k].origin, n));
    assert(fs.invalidate_origin == f1.invalidate_origin + inv);
}

/// Whether the expression contains a copy or move access of the place, in
/// any sub-expression.
pub open spec fn expr_reads(e: ExprView, pl: PlaceView) -> bool
    decreases e,
{
    match e {
        ExprView::Access { kind, place } => match kind {
            crate::ast::AccessKindView::Copy => place == pl,
            crate::ast::AccessKindView::Move => place == pl,
            _ => false,
        },
        ExprView::Call { name, arguments } => exprs_read(arguments, pl),
        _ => false,
    }
}

pub open spec fn exprs_read(es: Seq<ExprView>, pl: PlaceView) -> bool
    decreases es,
{
    if es.len() == 0 {
        false
    } else {
        expr_reads(es[0], pl) || exprs_read(es.subrange(1, es.len() as int), pl)
    }
}

/// Whether the expression contains a unique borrow of the place, in any
/// sub-expression.
pub open spec fn expr_mut_borrows(e: ExprView, pl: PlaceView) -> bool
    decreases e,
{
    match e {
        ExprView::Access { kind, place } => match kind {
            crate::ast::AccessKindView::BorrowMut(o) => place == pl,
            _ => false,
        },
        ExprView::Call { name, arguments } => exprs_mut_borrow(arguments, pl),
        _ => false,
    }
}

pub open spec fn exprs_mut_borrow(es: Seq<ExprView>, pl: PlaceView) -> bool
    decreases es,
{
    if es.len() == 0 {
        false
    } else {
        expr_mut_borrows(es[0], pl) || exprs_mut_borrow(es.subrange(1, es.len() as int), pl)
    }
}

pub proof fn lemma_concat_contains_iff<A>(a: Seq<A>, b: Seq<A>, x: A)
    ensures
        (a + b).contains(x) <==> (a.contains(x) || b.contains(x)),
{
    if (a + b).contains(x) {
        let j = choose|j: int| 0 <= j < (a + b).len() && (a + b)[j] == x;
        if j < a.len() {
            assert(a[j] == x);
        } else {
            assert(b[j - a.len()] == x);
        }
    }
    if a.contains(x) || b.contains(x) {
        lemma_concat_contains(a, b, x);
    }
}

/// A head-style search over an argument list yields a witness index.
pub proof fn lemma_exprs_read_index(es: Seq<ExprView>, pl: PlaceView)
    requires
        exprs_read(es, pl),
    ensures
        exists|j: int| 0 <= j < es.len() && expr_reads(#[trigger] es[j], pl),
    decreases es,
{
    if expr_reads(es[0], pl) {
    } else {
        let tail = es.subrange(1, es.len() as int);
        lemma_exprs_read_index(tail, pl);
        let j = choose|j: int| 0 <= j < tail.len() && expr_reads(#[trigger] tail[j], pl);
        assert(es[j + 1] == tail[j]);
    }
}

pub proof fn lemma_exprs_mut_borrow_index(es: Seq<ExprView>, pl: PlaceView)
    requires
        exprs_mut_borrow(es, pl),
    ensures
        exists|j: int| 0 <= j < es.len() && expr_mut_borrows(#[trigger] es[j], pl),
    decreases es,
{
    if expr_mut_borrows(es[0], pl) {
    } else {
        let tail = es.subrange(1, es.len() as int);
        lemma_exprs_mut_borrow_index(tail, pl);
        let j = choose|j: int| 0 <= j < tail.len() && expr_mut_borrows(#[trigger] tail[j], pl);
        assert(es[j + 1] == tail[j]);
    }
}

/// A successfully evaluated expression that reads `pl` by copy or move
/// records an access for every origin that `pl` resolves to.
pub proof fn lemma_expr_reads_accessed(
    p: ProgramView,
    loans: Seq<LoanRecordView>,
    n: NodeView,
    e: ExprView,
    pl: PlaceView,
    o: Seq<char>,
)
    requires
        expr_facts(p, loans, n, e) matches Ok(_),
        expr_reads(e, pl),
        resolve_place(p, pl) matches Ok(to) && to.1.contains(o),
    ensures
        expr_facts(p, loans, n, e)->Ok_0.access_origin.contains((o, n)),
    decreases crate::ast::size_of_expr(e), 0int,
{
    let to = resolve_place(p, pl)->Ok_0;
    match e {
        ExprView::Access { kind, place } => {
            let rows = origin_rows(to.1, n);
            let j = choose|j: int| 0 <= j < to.1.len() && to.1[j] == o;
            assert(rows[j] == (o, n));
            assert(rows.contains((o, n)));
        },
        ExprView::Call { name, arguments } => {
            lemma_exprs_read_index(arguments, pl);
            let j = choose|j: int|
                0 <= j < arguments.len() && expr_reads(#[trigger] arguments[j], pl);
            lemma_exprs_arg_accessed(p, loans, n, arguments, 0, j, pl, o);
        },
        _ => {},
    }
}

/// Within a successfully evaluated argument list, the facts of every
/// argument that reads `pl` are carried into the list's bundle.
pub proof fn lemma_exprs_arg_accessed(
    p: ProgramView,
    loans: Seq<LoanRecordView>,
    n: NodeView,
    es: Seq<ExprView>,
    i: int,
    j: int,
    pl: PlaceView,
    o: Seq<char>,
)
    requires
        exprs_facts_from(p, loans, n, es, i) matches Ok(_),
        0 <= i <= j < es.len(),
        expr_reads(es[j], pl),
        resolve_place(p, pl) matches Ok(to) && to.1.contains(o),
    ensures
        exprs_facts_from(p, loans, n, es, i)->Ok_0.access_origin.contains((o, n)),
    decreases crate::ast::size_of_exprs(es), es.len() - i,
{
    crate::ast::lemma_size_of_expr_le(es, i);
    let f = expr_facts(p, loans, n, es[i])->Ok_0;
    let rest = exprs_facts_from(p, loans, n, es, i + 1)->Ok_0;
    if j == i {
        crate::ast::lemma_size_of_expr_le(es, j);
        lemma_expr_reads_accessed(p, loans, n, es[j], pl, o);
        lemma_concat_contains(f.access_origin, rest.access_origin, (o, n));
    } else {
        lemma_exprs_arg_accessed(p, loans, n, es, i + 1, j, pl, o);
        lemma_concat_contains(f.access_origin, rest.access_origin, (o, n));
    }
}

/// Whether a statement reads the place by copy or move anywhere in its
/// expression.
pub open spec fn stmt_reads(s: StatementView, pl: PlaceView) -> bool {
    match s {
        StatementView::Assign(lhs, e) => expr_reads(e, pl),
        StatementView::Expr(e) => expr_reads(e, pl),
    }
}

/// Law: in a successfully emitted program, every origin that the resolver
/// yields for a place `pl` appears in `access_origin` at every node whose
/// statement reads `pl` by copy or move.
pub proof fn lemma_read_accesses_origins(
    p: ProgramView,
    f: FactsView,
    bi: int,
    si: int,
    pl: PlaceView,
    o: Seq<char>,
)
    requires
        emit_program(p) == Ok::<FactsView, EmitErrorView>(f),
        0 <= bi < p.basic_blocks.len(),
        0 <= si < p.basic_blocks[bi].statements.len(),
        stmt_reads(p.basic_blocks[bi].statements[si].inner, pl),
        resolve_place(p, pl) matches Ok(to) && to.1.contains(o),
    ensures
        f.access_origin.contains(
            (o, NodeView { block: p.basic_blocks[bi].name, index: si }),
        ),
{
    let loans = program_loans(p);
    let b = p.basic_blocks[bi];
    let n = NodeView { block: b.name, index: si };
    lemma_program_contains_stmt(p, bi, si, f);
    let s = b.statements[si].inner;
    let fs = stmt_facts(p, loans, n, s)->Ok_0;
    match s {
        StatementView::Assign(lhs, e) => {
            lemma_expr_reads_accessed(p, loans, n, e, pl, o);
            let f1 = expr_facts(p, loans, n, e)->Ok_0;
            let to = resolve_place(p, lhs)->Ok_0;
            let delta = FactsView {
                clear_origin: origin_rows(to.1, n),
                invalidate_origin: invalidation_rows_from(loans, write_shallow(lhs), n, 0),
                introduce_subset: assign_subset_rows(p, to.0, e, n)->Ok_0,
                ..crate::facts::fv_empty()
            };
            assert(fs.access_origin == f1.access_origin + delta.access_origin);
            lemma_concat_contains(f1.access_origin, delta.access_origin, (o, n));
        },
        StatementView::Expr(e) => {
            lemma_expr_reads_accessed(p, loans, n, e, pl, o);
        },
    }
}

/// A successfully evaluated expression that uniquely borrows `q` records
/// an invalidation for every loan of the index that a deep write to `q`
/// invalidates.
pub proof fn lemma_expr_mut_borrow_invalidates(
    p: ProgramView,
    loans: Seq<LoanRecordView>,
    n: NodeView,
    e: ExprView,
    q: PlaceView,
    k: int,
)
    requires
        expr_facts(p, loans, n, e) matches Ok(_),
        expr_mut_borrows(e, q),
        0 <= k < loans.len(),
        spec_invalidates(write_deep(q), loan_of_record(loans[k])),
    ensures
        expr_facts(p, loans, n, e)->Ok_0.invalidate_origin.contains((loans[k].origin, n)),
    decreases crate::ast::size_of_expr(e), 0int,
{
    match e {
        ExprView::Access { kind, place } => {
            lemma_invalidation_rows_contain(loans, write_deep(q), n, 0, k);
        },
        ExprView::Call { name, arguments } => {
            lemma_exprs_mut_borrow_index(arguments, q);
            let j = choose|j: int|
                0 <= j < arguments.len() && expr_mut_borrows(#[trigger] arguments[j], q);
            lemma_exprs_arg_invalidates(p, loans, n, arguments, 0, j, q, k);
        },
        _ => {},
    }
}

pub proof fn lemma_exprs_arg_invalidates(
    p: ProgramView,
    loans: Seq<LoanRecordView>,
    n: NodeView,
    es: Seq<ExprView>,
    i: int,
    j: int,
    q: PlaceView,
    k: int,
)
    requires
        exprs_facts_from(p, loans, n, es, i) matches Ok(_),
        0 <= i <= j < es.len(),
        expr_mut_borrows(es[j], q),
        0 <= k < loans.len(),
        spec_invalidates(write_deep(q), loan_of_record(loans[k])),
    ensures
        exprs_facts_from(p, loans, n, es, i)->Ok_0.invalidate_origin.contains(
            (loans[k].origin, n),
        ),
    decreases crate::ast::size_of_exprs(es), es.len() - i,
{
    crate::ast::lemma_size_of_expr_le(es, i);
    let f = expr_facts(p, loans, n, es[i])->Ok_0;
    let rest = exprs_facts_from(p, loans, n, es, i + 1)->Ok_0;
    if j == i {
        crate::ast::lemma_size_of_expr_le(es, j);
        lemma_expr_mut_borrow_invalidates(p, loans, n, es[j], q, k);
        lemma_concat_contains(f.invalidate_origin, rest.invalidate_origin, (loans[k].origin, n));
    } else {
        lemma_exprs_arg_invalidates(p, loans, n, es, i + 1, j, q, k);
        lemma_concat_contains(f.invalidate_origin, rest.invalidate_origin, (loans[k].origin, n));
    }
}

/// Whether a statement uniquely borrows the place anywhere in its
/// expression.
pub open spec fn stmt_mut_borrows(s: StatementView, pl: PlaceView) -> bool {
    match s {
        StatementView::Assign(lhs, e) => expr_mut_borrows(e, pl),
        StatementView::Expr(e) => expr_mut_borrows(e, pl),
    }
}

/// Law: in a successfully emitted program, for every loan of the index and
/// every unique borrow of a place `q` whose deep write invalidates the
/// loan under the invalidation predicate, the loan's origin is invalidated
/// at the borrowing statement's node.
pub proof fn lemma_mut_borrows_invalidate_loans(
    p: ProgramView,
    f: FactsView,
    bi: int,
    si: int,
    q: PlaceView,
    k: int,
)
    requires
        emit_program(p) == Ok::<FactsView, EmitErrorView>(f),
        0 <= bi < p.basic_blocks.len(),
        0 <= si < p.basic_blocks[bi].statements.len(),
        stmt_mut_borrows(p.basic_blocks[bi].statements[si].inner, q),
        0 <= k < program_loans(p).len(),
        spec_invalidates(write_deep(q), loan_of_record(program_loans(p)[k])),
    ensures
        f.invalidate_origin.contains(
            (
                program_loans(p)[k].origin,
                NodeView { block: p.basic_blocks[bi].name, index: si },
            ),
        ),
{
    let loans = program_loans(p);
    let b = p.basic_blocks[bi];
    let n = NodeView { block: b.name, index: si };
    lemma_program_contains_stmt(p, bi, si, f);
    let s = b.statements[si].inner;
    let fs = stmt_facts(p, loans, n, s)->Ok_0;
    let row = (loans[k].origin, n);
    match s {
        StatementView::Assign(lhs, e) => {
            lemma_expr_mut_borrow_invalidates(p, loans, n, e, q, k);
            let f1 = expr_facts(p, loans, n, e)->Ok_0;
            let inv = invalidation_rows_from(loans, write_shallow(lhs), n, 0);
            assert(fs.invalidate_origin == f1.invalidate_origin + inv);
            lemma_concat_contains(f1.invalidate_origin, inv, row);
        },
        StatementView::Expr(e) => {
            lemma_expr_mut_borrow_invalidates(p, loans, n, e, q, k);
        },
    }
}

/// The intra-block edge of `b` between statements `i` and `i + 1`.
pub open spec fn intra_edge_at(b: BasicBlockView, i: int) -> (NodeView, NodeView) {
    (NodeView { block: b.name, index: i }, NodeView { block: b.name, index: i + 1 })
}

/// The inter-block edge of `b` to its `k`-th successor: from the block's
/// last node to node `0` of the successor.
pub open spec fn inter_edge_at(b: BasicBlockView, k: int) -> (NodeView, NodeView) {
    (
        NodeView {
            block: b.name,
            index: crate::fact_emitter::last_index(b.statements.len() as int),
        },
        NodeView { block: b.successors[k], index: 0 },
    )
}

/// Whether `edge` is an intra-block edge of `b`: consecutive statements.
pub open spec fn is_intra_edge(b: BasicBlockView, edge: (NodeView, NodeView)) -> bool {
    exists|i: int| 0 <= i && i + 1 < b.statements.len() && edge == #[trigger] intra_edge_at(b, i)
}

/// Whether `edge` is an inter-block edge of `b`: from its last node to
/// node `0` of one of its successors.
pub open spec fn is_inter_edge(b: BasicBlockView, edge: (NodeView, NodeView)) -> bool {
    exists|k: int| 0 <= k < b.successors.len() && edge == #[trigger] inter_edge_at(b, k)
}

/// Whether `edge` is a control-flow edge of the program.
pub open spec fn spec_is_cfg_edge(p: ProgramView, edge: (NodeView, NodeView)) -> bool {
    exists|bi: int|
        0 <= bi < p.basic_blocks.len() && (is_intra_edge(#[trigger] p.basic_blocks[bi], edge)
            || is_inter_edge(p.basic_blocks[bi], edge))
}

/// The rows of one block's control-flow relation are exactly its intra-
/// and inter-block edges.
pub proof fn lemma_cfg_rows_iff(b: BasicBlockView, edge: (NodeView, NodeView))
    ensures
        cfg_rows(b).contains(edge) <==> (is_intra_edge(b, edge) || is_inter_edge(b, edge)),
{
    let intra = Seq::new(
        if b.statements.len() == 0 {
            0
        } else {
            (b.statements.len() - 1) as nat
        },
        |i: int|
            (
                NodeView { block: b.name, index: i },
                NodeView { block: b.name, index: i + 1 },
            ),
    );
    let inter = Seq::new(
        b.successors.len(),
        |i: int|
            (
                NodeView {
                    block: b.name,
                    index: crate::fact_emitter::last_index(b.statements.len() as int),
                },
                NodeView { block: b.successors[i], index: 0 },
            ),
    );
    assert(cfg_rows(b) == intra + inter);
    lemma_concat_contains_iff(intra, inter, edge);
    if intra.contains(edge) {
        let i = choose|i: int| 0 <= i < intra.len() && intra[i] == edge;
        assert(edge == intra_edge_at(b, i));
        assert(is_intra_edge(b, edge));
    }
    if inter.contains(edge) {
        let k = choose|k: int| 0 <= k < inter.len() && inter[k] == edge;
        assert(edge == inter_edge_at(b, k));
        assert(is_inter_edge(b, edge));
    }
    if is_intra_edge(b, edge) {
        let i = choose|i: int|
            0 <= i && i + 1 < b.statements.len() && edge == #[trigger] intra_edge_at(b, i);
        assert(intra[i] == edge);
        assert(intra.contains(edge));
    }
    if is_inter_edge(b, edge) {
        let k = choose|k: int|
            0 <= k < b.successors.len() && edge == #[trigger] inter_edge_at(b, k);
        assert(inter[k] == edge);
        assert(inter.contains(edge));
    }
}

/// A successfully evaluated expression contributes no control-flow rows.
pub proof fn lemma_expr_facts_no_cfg(
    p: ProgramView,
    loans: Seq<LoanRecordView>,
    n: NodeView,
    e: ExprView,
)
    requires
        expr_facts(p, loans, n, e) matches Ok(_),
    ensures
        expr_facts(p, loans, n, e)->Ok_0.cfg_edge == Seq::<(NodeView, NodeView)>::empty(),
    decreases crate::ast::size_of_expr(e), 0int,
{
    match e {
        ExprView::Call { name, arguments } => {
            lemma_exprs_facts_no_cfg(p, loans, n, arguments, 0);
        },
        _ => {},
    }
}

pub proof fn lemma_exprs_facts_no_cfg(
    p: ProgramView,
    loans: Seq<LoanRecordView>,
    n: NodeView,
    es: Seq<ExprView>,
    i: int,
)
    requires
        exprs_facts_from(p, loans, n, es, i) matches Ok(_),
    ensures
        exprs_facts_from(p, loans, n, es, i)->Ok_0.cfg_edge == Seq::<(NodeView, NodeView)>::empty(),
    decreases crate::ast::size_of_exprs(es), es.len() - i,
{
    if 0 <= i < es.len() {
        crate::ast::lemma_size_of_expr_le(es, i);
        lemma_expr_facts_no_cfg(p, loans, n, es[i]);
        lemma_exprs_facts_no_cfg(p, loans, n, es, i + 1);
        let f = expr_facts(p, loans, n, es[i])->Ok_0;
        let rest = exprs_facts_from(p, loans, n, es, i + 1)->Ok_0;
        assert(f.cfg_edge + rest.cfg_edge =~= Seq::<(NodeView, NodeView)>::empty());
    }
}

/// A successfully emitted statement contributes no control-flow rows.
pub proof fn lemma_stmt_facts_no_cfg(
    p: ProgramView,
    loans: Seq<LoanRecordView>,
    n: NodeView,
    s: StatementView,
)
    requires
        stmt_facts(p, loans, n, s) matches Ok(_),
    ensures
        stmt_facts(p, loans, n, s)->Ok_0.cfg_edge == Seq::<(NodeView, NodeView)>::empty(),
{
    match s {
        StatementView::Assign(lhs, e) => {
            lemma_expr_facts_no_cfg(p, loans, n, e);
            let f1 = expr_facts(p, loans, n, e)->Ok_0;
            assert(stmt_facts(p, loans, n, s)->Ok_0.cfg_edge =~= Seq::<
                (NodeView, NodeView),
            >::empty());
        },
        StatementView::Expr(e) => {
            lemma_expr_facts_no_cfg(p, loans, n, e);
        },
    }
}

/// A successfully emitted statement walk contributes no control-flow rows.
pub proof fn lemma_stmts_facts_no_cfg(
    p: ProgramView,
    loans: Seq<LoanRecordView>,
    name: Seq<char>,
    stmts: Seq<crate::span::SpannedView<StatementView>>,
    i: int,
)
    requires
        stmts_facts_from(p, loans, name, stmts, i) matches Ok(_),
    ensures
        stmts_facts_from(p, loans, name, stmts, i)->Ok_0.cfg_edge == Seq::<
            (NodeView, NodeView),
        >::empty(),
    decreases stmts.len() - i,
{
    if 0 <= i < stmts.len() {
        lemma_stmt_facts_no_cfg(p, loans, NodeView { block: name, index: i }, stmts[i].inner);
        lemma_stmts_facts_no_cfg(p, loans, name, stmts, i + 1);
        let f = stmt_facts(p, loans, NodeView { block: name, index: i }, stmts[i].inner)->Ok_0;
        let rest = stmts_facts_from(p, loans, name, stmts, i + 1)->Ok_0;
        assert(f.cfg_edge + rest.cfg_edge =~= Seq::<(NodeView, NodeView)>::empty());
    }
}

/// A successfully emitted block's control-flow rows are exactly
/// `cfg_rows`.
pub proof fn lemma_block_facts_cfg(p: ProgramView, loans: Seq<LoanRecordView>, b: BasicBlockView)
    requires
        block_facts(p, loans, b) matches Ok(_),
    ensures
        block_facts(p, loans, b)->Ok_0.cfg_edge == cfg_rows(b),
{
    lemma_stmts_facts_no_cfg(p, loans, b.name, b.statements, 0);
    assert(block_facts(p, loans, b)->Ok_0.cfg_edge =~= cfg_rows(b));
}

/// The control-flow rows of a successful walk from block `i` on are
/// exactly the blocks' own rows.
pub proof fn lemma_blocks_facts_cfg_iff(
    p: ProgramView,
    loans: Seq<LoanRecordView>,
    blocks: Seq<BasicBlockView>,
    i: int,
    f: FactsView,
    edge: (NodeView, NodeView),
)
    requires
        blocks_facts_from(p, loans, blocks, i) == Ok::<FactsView, EmitErrorView>(f),
        0 <= i,
    ensures
        f.cfg_edge.contains(edge) <==> exists|bi: int|
            i <= bi < blocks.len() && cfg_rows(#[trigger] blocks[bi]).contains(edge),
    decreases blocks.len() - i,
{
    if i < blocks.len() {
        let fb = block_facts(p, loans, blocks[i])->Ok_0;
        let rest = blocks_facts_from(p, loans, blocks, i + 1)->Ok_0;
        assert(f == fv_add(fb, rest));
        lemma_block_facts_cfg(p, loans, blocks[i]);
        lemma_blocks_facts_cfg_iff(p, loans, blocks, i + 1, rest, edge);
        lemma_concat_contains_iff(fb.cfg_edge, rest.cfg_edge, edge);
        if cfg_rows(blocks[i]).contains(edge) {
            assert(f.cfg_edge.contains(edge));
        }
        if exists|bi: int| i + 1 <= bi < blocks.len() && cfg_rows(#[trigger] blocks[bi]).contains(
            edge,
        ) {
            assert(f.cfg_edge.contains(edge));
        }
    } else {
        assert(f.cfg_edge.len() == 0);
    }
}

/// Law: in a successfully emitted program, `cfg_edge` holds exactly the
/// intra-block consecutive pairs and the inter-block pairs from each
/// block's last node to node `0` of each successor — including for blocks
/// without statements, which participate at node `0`.
pub proof fn lemma_cfg_edges_exact(p: ProgramView, f: FactsView, edge: (NodeView, NodeView))
    requires
        emit_program(p) == Ok::<FactsView, EmitErrorView>(f),
    ensures
        f.cfg_edge.contains(edge) <==> spec_is_cfg_edge(p, edge),
{
    let loans = program_loans(p);
    lemma_blocks_facts_cfg_iff(p, loans, p.basic_blocks, 0, f, edge);
    if f.cfg_edge.contains(edge) {
        let bi = choose|bi: int|
            0 <= bi < p.basic_blocks.len() && cfg_rows(#[trigger] p.basic_blocks[bi]).contains(
                edge,
            );
        lemma_cfg_rows_iff(p.basic_blocks[bi], edge);
    }
    if spec_is_cfg_edge(p, edge) {
        let bi = choose|bi: int|
            0 <= bi < p.basic_blocks.len() && (is_intra_edge(#[trigger] p.basic_blocks[bi], edge)
                || is_inter_edge(p.basic_blocks[bi], edge));
        lemma_cfg_rows_iff(p.basic_blocks[bi], edge);
        assert(cfg_rows(p.basic_blocks[bi]).contains(edge));
    }
}

} // verus!
