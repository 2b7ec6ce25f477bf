//! The fact-file data model and its tabulation: programs written directly
//! as facts — named statements carrying fact atoms and successor lists —
//! are collected into one row set per relation, ready to be written as
//! tab-separated files for the downstream solver.

use vstd::prelude::*;

use vstd::string::StringExecFns;

verus! {

/// A fact-file program: facts that hold globally, and named statements.
#[derive(Debug)]
pub struct Program {
    pub global_facts: Vec<Fact>,
    pub statements: Vec<Statement>,
}

/// One named statement of a fact file: its display text, the facts that
/// hold at it, and the names of its successors.
#[derive(Debug)]
pub struct Statement {
    pub name: String,
    pub text: String,
    pub facts: Vec<Fact>,
    pub successors: Vec<String>,
}

/// One fact atom: a relation name applied to symbol arguments.
#[derive(Debug)]
pub struct Fact {
    pub name: String,
    pub arguments: Vec<String>,
}

/// Spec-level mirror of `Fact`.
pub struct FactView {
    pub name: Seq<char>,
    pub arguments: Seq<Seq<char>>,
}

impl DeepView for Fact {
    type V = FactView;

    open spec fn deep_view(&self) -> FactView {
        FactView { name: self.name@, arguments: self.arguments.deep_view() }
    }
}

/// Spec-level mirror of `Statement`.
pub struct StatementView {
    pub name: Seq<char>,
    pub text: Seq<char>,
    pub facts: Seq<FactView>,
    pub successors: Seq<Seq<char>>,
}

impl DeepView for Statement {
    type V = StatementView;

    open spec fn deep_view(&self) -> StatementView {
        StatementView {
            name: self.name@,
            text: self.text@,
            facts: self.facts.deep_view(),
            successors: self.successors.deep_view(),
        }
    }
}

/// Spec-level mirror of `Program`.
pub struct ProgramView {
    pub global_facts: Seq<FactView>,
    pub statements: Seq<StatementView>,
}

impl DeepView for Program {
    type V = ProgramView;

    open spec fn deep_view(&self) -> ProgramView {
        ProgramView {
            global_facts: self.global_facts.deep_view(),
            statements: self.statements.deep_view(),
        }
    }
}

/// One row of a relation file: its column values in order.
pub type RowView = Seq<Seq<char>>;

/// The accepted global relation name.
pub open spec fn is_global_fact_name(n: Seq<char>) -> bool {
    n == "mark_as_loan_origin"@
}

/// The accepted per-statement relation names.
pub open spec fn is_local_fact_name(n: Seq<char>) -> bool {
    ||| n == "access_origin"@
    ||| n == "cfg_edge"@
    ||| n == "clear_origin"@
    ||| n == "introduce_subset"@
    ||| n == "invalidate_origin"@
}

/// The first global fact whose name is not accepted, from `i` on.
pub open spec fn first_bad_global(gfs: Seq<FactView>, i: int) -> Option<Seq<char>>
    decreases gfs.len() - i,
{
    if 0 <= i < gfs.len() {
        if !is_global_fact_name(gfs[i].name) {
            Some(gfs[i].name)
        } else {
            first_bad_global(gfs, i + 1)
        }
    } else {
        None
    }
}

/// The first fact of a statement whose name is not accepted, from `i` on.
pub open spec fn first_bad_fact(facts: Seq<FactView>, i: int) -> Option<Seq<char>>
    decreases facts.len() - i,
{
    if 0 <= i < facts.len() {
        if !is_local_fact_name(facts[i].name) {
            Some(facts[i].name)
        } else {
            first_bad_fact(facts, i + 1)
        }
    } else {
        None
    }
}

/// The first statement fact whose name is not accepted, from statement `i`
/// on.
pub open spec fn first_bad_local(stmts: Seq<StatementView>, i: int) -> Option<Seq<char>>
    decreases stmts.len() - i,
{
    if 0 <= i < stmts.len() {
        match first_bad_fact(stmts[i].facts, 0) {
            Some(n) => Some(n),
            None => first_bad_local(stmts, i + 1),
        }
    } else {
        None
    }
}

/// The rows of the global relation: one per global fact, its arguments.
pub open spec fn global_rows(gfs: Seq<FactView>, i: int) -> Seq<RowView>
    decreases gfs.len() - i,
{
    if 0 <= i < gfs.len() {
        seq![gfs[i].arguments] + global_rows(gfs, i + 1)
    } else {
        Seq::empty()
    }
}

/// The rows that one statement's facts named `rel` contribute: the fact's
/// arguments with the statement's name appended.
pub open spec fn stmt_fact_rows(rel: Seq<char>, s: StatementView, i: int) -> Seq<RowView>
    decreases s.facts.len() - i,
{
    if 0 <= i < s.facts.len() {
        (if s.facts[i].name == rel {
            seq![s.facts[i].arguments + seq![s.name]]
        } else {
            Seq::empty()
        }) + stmt_fact_rows(rel, s, i + 1)
    } else {
        Seq::empty()
    }
}

/// The rows that all statements' facts named `rel` contribute, in order.
pub open spec fn stmts_fact_rows(rel: Seq<char>, stmts: Seq<StatementView>, i: int) -> Seq<
    RowView,
>
    decreases stmts.len() - i,
{
    if 0 <= i < stmts.len() {
        stmt_fact_rows(rel, stmts[i], 0) + stmts_fact_rows(rel, stmts, i + 1)
    } else {
        Seq::empty()
    }
}

/// One control-flow row per successor of a statement.
pub open spec fn succ_rows(s: StatementView, i: int) -> Seq<RowView>
    decreases s.successors.len() - i,
{
    if 0 <= i < s.successors.len() {
        seq![seq![s.name, s.successors[i]]] + succ_rows(s, i + 1)
    } else {
        Seq::empty()
    }
}

pub proof fn lemma_empty_prepend_rows(x: Seq<RowView>)
    ensures
        Seq::<RowView>::empty() + x == x,
{
    assert(Seq::<RowView>::empty() + x =~= x);
}

pub proof fn lemma_succ_rows_shape(s: StatementView, i: int)
    requires
        0 <= i <= s.successors.len(),
    ensures
        succ_rows(s, i).len() == s.successors.len() - i,
        forall|m: int|
            0 <= m < succ_rows(s, i).len() ==> #[trigger] succ_rows(s, i)[m] == seq![
                s.name,
                s.successors[m + i],
            ],
    decreases s.successors.len() - i,
{
    if i < s.successors.len() {
        lemma_succ_rows_shape(s, i + 1);
    }
}

/// The control-flow rows of all statements: for each statement its
/// successor edges, then any explicit `cfg_edge` facts it carries.
pub open spec fn stmts_cfg_rows(stmts: Seq<StatementView>, i: int) -> Seq<RowView>
    decreases stmts.len() - i,
{
    if 0 <= i < stmts.len() {
        succ_rows(stmts[i], 0) + stmt_fact_rows("cfg_edge"@, stmts[i], 0) + stmts_cfg_rows(
            stmts,
            i + 1,
        )
    } else {
        Seq::empty()
    }
}

/// One `node_text` row per statement: its display text and its name.
pub open spec fn node_text_rows(stmts: Seq<StatementView>, i: int) -> Seq<RowView>
    decreases stmts.len() - i,
{
    if 0 <= i < stmts.len() {
        seq![seq![stmts[i].text, stmts[i].name]] + node_text_rows(stmts, i + 1)
    } else {
        Seq::empty()
    }
}

/// The tabulated relations of a fact-file program, one row set per
/// relation.
#[derive(Debug)]
pub struct FactTable {
    pub mark_as_loan_origin: Vec<Vec<String>>,
    pub access_origin: Vec<Vec<String>>,
    pub cfg_edge: Vec<Vec<String>>,
    pub clear_origin: Vec<Vec<String>>,
    pub introduce_subset: Vec<Vec<String>>,
    pub invalidate_origin: Vec<Vec<String>>,
    pub node_text: Vec<Vec<String>>,
}

/// A fact whose relation name is not among the accepted ones.
#[derive(Debug, PartialEq, Eq)]
pub struct UnexpectedFact {
    pub name: String,
    /// Whether the offending fact stood among the global facts.
    pub global: bool,
}

/// Clones a list of symbols; the clone has the same view.
fn clone_strings(v: &Vec<String>) -> (r: Vec<String>)
    ensures
        r.deep_view() == v.deep_view(),
{
    let n = v.len();
    let mut r: Vec<String> = Vec::new();
    let mut i: usize = 0;
    #[verifier::loop_isolation(false)]
    while i < n
        invariant
            i <= n,
            n == v@.len(),
            r@.len() == i,
            forall|j: int| 0 <= j < i ==> r@[j].deep_view() == v@[j].deep_view(),
        decreases n - i,
    {
        r.push(v[i].clone());
        i = i + 1;
    }
    proof {
        assert(r.deep_view() =~~= v.deep_view());
    }
    r
}

/// A fact's arguments with the statement's name appended: one row.
fn row_of_fact(fact: &Fact, stmt_name: &String) -> (r: Vec<String>)
    ensures
        r.deep_view() == fact.deep_view().arguments + seq![stmt_name@],
{
    let mut r = clone_strings(&fact.arguments);
    r.push(stmt_name.clone());
    proof {
        assert(r.deep_view() =~~= fact.deep_view().arguments + seq![stmt_name@]);
    }
    r
}

/// Collects the relations of a fact-file program: the accepted global
/// facts' rows, and for each statement a `node_text` row, one control-flow
/// row per successor, and one row per fact, with the statement's name as
/// last column. Fails on the first fact whose relation name is not
/// accepted, naming it.
#[verifier::loop_isolation(false)]
#[verifier::rlimit(100)]
pub fn collect_facts(program: &Program) -> (r: Result<FactTable, UnexpectedFact>)
    ensures
        match r {
            Ok(t) => {
                let pv = program.deep_view();
                &&& first_bad_global(pv.global_facts, 0) is None
                &&& first_bad_local(pv.statements, 0) is None
                &&& t.mark_as_loan_origin.deep_view() == global_rows(pv.global_facts, 0)
                &&& t.access_origin.deep_view() == stmts_fact_rows(
                    "access_origin"@,
                    pv.statements,
                    0,
                )
                &&& t.cfg_edge.deep_view() == stmts_cfg_rows(pv.statements, 0)
                &&& t.clear_origin.deep_view() == stmts_fact_rows(
                    "clear_origin"@,
                    pv.statements,
                    0,
                )
                &&& t.introduce_subset.deep_view() == stmts_fact_rows(
                    "introduce_subset"@,
                    pv.statements,
                    0,
                )
                &&& t.invalidate_origin.deep_view() == stmts_fact_rows(
                    "invalidate_origin"@,
                    pv.statements,
                    0,
                )
                &&& t.node_text.deep_view() == node_text_rows(pv.statements, 0)
            },
            Err(e) => {
                let pv = program.deep_view();
                if e.global {
                    first_bad_global(pv.global_facts, 0) == Some(e.name@)
                } else {
                    first_bad_global(pv.global_facts, 0) is None && first_bad_local(
                        pv.statements,
                        0,
                    ) == Some(e.name@)
                }
            },
        },
{
    let ghost pv = program.deep_view();
    let mut mark: Vec<Vec<String>> = Vec::new();
    let ng = program.global_facts.len();
    let mut gi: usize = 0;
    while gi < ng
        invariant
            gi <= ng,
            ng == program.global_facts@.len(),
            first_bad_global(pv.global_facts, 0) == first_bad_global(pv.global_facts, gi as int),
            global_rows(pv.global_facts, 0) == mark.deep_view() + global_rows(
                pv.global_facts,
                gi as int,
            ),
        decreases ng - gi,
    {
        let gf = &program.global_facts[gi];
        if !(gf.name == String::from_str("mark_as_loan_origin")) {
            return Err(UnexpectedFact { name: gf.name.clone(), global: true });
        }
        let ghost before = mark.deep_view();
        mark.push(clone_strings(&gf.arguments));
        proof {
            assert(mark.deep_view() =~~= before + seq![pv.global_facts[gi as int].arguments]);
            assert(before + seq![pv.global_facts[gi as int].arguments] + global_rows(
                pv.global_facts,
                gi as int + 1,
            ) =~= before + (seq![pv.global_facts[gi as int].arguments] + global_rows(
                pv.global_facts,
                gi as int + 1,
            )));
        }
        gi = gi + 1;
    }
    let mut access: Vec<Vec<String>> = Vec::new();
    let mut cfg: Vec<Vec<String>> = Vec::new();
    let mut clear: Vec<Vec<String>> = Vec::new();
    let mut subset: Vec<Vec<String>> = Vec::new();
    let mut invalidate: Vec<Vec<String>> = Vec::new();
    let mut texts: Vec<Vec<String>> = Vec::new();
    let ns = program.statements.len();
    let mut si: usize = 0;
    while si < ns
        invariant
            si <= ns,
            ns == program.statements@.len(),
            first_bad_global(pv.global_facts, 0) is None,
            mark.deep_view() == global_rows(pv.global_facts, 0),
            first_bad_local(pv.statements, 0) == first_bad_local(pv.statements, si as int),
            stmts_fact_rows("access_origin"@, pv.statements, 0) == access.deep_view()
                + stmts_fact_rows("access_origin"@, pv.statements, si as int),
            stmts_cfg_rows(pv.statements, 0) == cfg.deep_view() + stmts_cfg_rows(
                pv.statements,
                si as int,
            ),
            stmts_fact_rows("clear_origin"@, pv.statements, 0) == clear.deep_view()
                + stmts_fact_rows("clear_origin"@, pv.statements, si as int),
            stmts_fact_rows("introduce_subset"@, pv.statements, 0) == subset.deep_view()
                + stmts_fact_rows("introduce_subset"@, pv.statements, si as int),
            stmts_fact_rows("invalidate_origin"@, pv.statements, 0) == invalidate.deep_view()
                + stmts_fact_rows("invalidate_origin"@, pv.statements, si as int),
            node_text_rows(pv.statements, 0) == texts.deep_view() + node_text_rows(
                pv.statements,
                si as int,
            ),
        decreases ns - si,
    {
        let s = &program.statements[si];
        let ghost sv = pv.statements[si as int];
        let ghost texts_before = texts.deep_view();
        let mut text_row: Vec<String> = Vec::new();
        text_row.push(s.text.clone());
        text_row.push(s.name.clone());
        texts.push(text_row);
        proof {
            assert(texts.deep_view() =~~= texts_before + seq![seq![sv.text, sv.name]]);
        }
        let nsucc = s.successors.len();
        let mut ki: usize = 0;
        let ghost cfg_at_stmt = cfg.deep_view();
        proof {
            lemma_succ_rows_shape(sv, 0);
            assert(cfg_at_stmt + succ_rows(sv, 0).subrange(0, 0) =~= cfg_at_stmt);
        }
        while ki < nsucc
            invariant
                ki <= nsucc,
                nsucc == s.successors@.len(),
                cfg.deep_view() == cfg_at_stmt + succ_rows(sv, 0).subrange(0, ki as int),
                succ_rows(sv, 0).len() == nsucc,
                forall|m: int|
                    0 <= m < nsucc ==> #[trigger] succ_rows(sv, 0)[m] == seq![
                        sv.name,
                        sv.successors[m],
                    ],
            decreases nsucc - ki,
        {
            let mut edge_row: Vec<String> = Vec::new();
            edge_row.push(s.name.clone());
            edge_row.push(s.successors[ki].clone());
            let ghost cfg_before = cfg.deep_view();
            cfg.push(edge_row);
            proof {
                assert(cfg.deep_view() =~~= cfg_before + seq![seq![
                    sv.name,
                    sv.successors[ki as int],
                ]]);
                assert(succ_rows(sv, 0).subrange(0, ki as int + 1) =~= succ_rows(sv, 0).subrange(
                    0,
                    ki as int,
                ) + seq![succ_rows(sv, 0)[ki as int]]);
            }
            ki = ki + 1;
        }
        proof {
            assert(succ_rows(sv, 0).subrange(0, nsucc as int) =~= succ_rows(sv, 0));
        }
        let nf = s.facts.len();
        let mut fi: usize = 0;
        let ghost acc_access = access.deep_view();
        let ghost acc_cfg = cfg.deep_view();
        let ghost acc_clear = clear.deep_view();
        let ghost acc_subset = subset.deep_view();
        let ghost acc_invalidate = invalidate.deep_view();
        proof {
            assert(access.deep_view().skip(acc_access.len() as int) =~= Seq::<RowView>::empty());
            assert(cfg.deep_view().skip(acc_cfg.len() as int) =~= Seq::<RowView>::empty());
            assert(clear.deep_view().skip(acc_clear.len() as int) =~= Seq::<RowView>::empty());
            assert(subset.deep_view().skip(acc_subset.len() as int) =~= Seq::<RowView>::empty());
            assert(invalidate.deep_view().skip(acc_invalidate.len() as int) =~= Seq::<
                RowView,
            >::empty());
            assert(Seq::<RowView>::empty() + stmt_fact_rows("access_origin"@, sv, 0)
                =~= stmt_fact_rows("access_origin"@, sv, 0));
            assert(Seq::<RowView>::empty() + stmt_fact_rows("cfg_edge"@, sv, 0)
                =~= stmt_fact_rows("cfg_edge"@, sv, 0));
            assert(Seq::<RowView>::empty() + stmt_fact_rows("clear_origin"@, sv, 0)
                =~= stmt_fact_rows("clear_origin"@, sv, 0));
            assert(Seq::<RowView>::empty() + stmt_fact_rows("introduce_subset"@, sv, 0)
                =~= stmt_fact_rows("introduce_subset"@, sv, 0));
            assert(Seq::<RowView>::empty() + stmt_fact_rows("invalidate_origin"@, sv, 0)
                =~= stmt_fact_rows("invalidate_origin"@, sv, 0));
            assert(access.deep_view().subrange(0, acc_access.len() as int) =~= acc_access);
            assert(cfg.deep_view().subrange(0, acc_cfg.len() as int) =~= acc_cfg);
            assert(clear.deep_view().subrange(0, acc_clear.len() as int) =~= acc_clear);
            assert(subset.deep_view().subrange(0, acc_subset.len() as int) =~= acc_subset);
            assert(invalidate.deep_view().subrange(0, acc_invalidate.len() as int)
                =~= acc_invalidate);
        }
        while fi < nf
            invariant
                fi <= nf,
                nf == s.facts@.len(),
                first_bad_fact(sv.facts, 0) == first_bad_fact(sv.facts, fi as int),
                stmt_fact_rows("access_origin"@, sv, 0) == access.deep_view().skip(
                    acc_access.len() as int,
                ) + stmt_fact_rows("access_origin"@, sv, fi as int),
                access.deep_view().subrange(0, acc_access.len() as int) == acc_access,
                access.deep_view().len() >= acc_access.len(),
                stmt_fact_rows("cfg_edge"@, sv, 0) == cfg.deep_view().skip(acc_cfg.len() as int)
                    + stmt_fact_rows("cfg_edge"@, sv, fi as int),
                cfg.deep_view().subrange(0, acc_cfg.len() as int) == acc_cfg,
                cfg.deep_view().len() >= acc_cfg.len(),
                stmt_fact_rows("clear_origin"@, sv, 0) == clear.deep_view().skip(
                    acc_clear.len() as int,
                ) + stmt_fact_rows("clear_origin"@, sv, fi as int),
                clear.deep_view().subrange(0, acc_clear.len() as int) == acc_clear,
                clear.deep_view().len() >= acc_clear.len(),
                stmt_fact_rows("introduce_subset"@, sv, 0) == subset.deep_view().skip(
                    acc_subset.len() as int,
                ) + stmt_fact_rows("introduce_subset"@, sv, fi as int),
                subset.deep_view().subrange(0, acc_subset.len() as int) == acc_subset,
                subset.deep_view().len() >= acc_subset.len(),
                stmt_fact_rows("invalidate_origin"@, sv, 0) == invalidate.deep_view().skip(
                    acc_invalidate.len() as int,
                ) + stmt_fact_rows("invalidate_origin"@, sv, fi as int),
                invalidate.deep_view().subrange(0, acc_invalidate.len() as int)
                    == acc_invalidate,
                invalidate.deep_view().len() >= acc_invalidate.len(),
            decreases nf - fi,
        {
            proof {
                reveal_strlit("access_origin");
                reveal_strlit("cfg_edge");
                reveal_strlit("clear_origin");
                reveal_strlit("introduce_subset");
                reveal_strlit("invalidate_origin");
                assert("access_origin"@.len() == 13);
                assert("cfg_edge"@.len() == 8);
                assert("clear_origin"@.len() == 12);
                assert("introduce_subset"@.len() == 16);
                assert("invalidate_origin"@.len() == 17);
                assert("access_origin"@ != "cfg_edge"@);
                assert("access_origin"@ != "clear_origin"@);
                assert("access_origin"@ != "introduce_subset"@);
                assert("access_origin"@ != "invalidate_origin"@);
                assert("cfg_edge"@ != "clear_origin"@);
                assert("cfg_edge"@ != "introduce_subset"@);
                assert("cfg_edge"@ != "invalidate_origin"@);
                assert("clear_origin"@ != "introduce_subset"@);
                assert("clear_origin"@ != "invalidate_origin"@);
                assert("introduce_subset"@ != "invalidate_origin"@);
            }
            let fact = &s.facts[fi];
            let row = row_of_fact(fact, &s.name);
            if fact.name == String::from_str("access_origin") {
                let ghost before = access.deep_view();
                access.push(row);
                proof {
                    assert(access.deep_view() =~~= before + seq![sv.facts[fi as int].arguments
                        + seq![sv.name]]);
                    assert(access.deep_view().subrange(0, acc_access.len() as int) =~= acc_access);
                    assert(access.deep_view().skip(acc_access.len() as int) =~= before.skip(
                        acc_access.len() as int,
                    ) + seq![sv.facts[fi as int].arguments + seq![sv.name]]);
                }
            } else if fact.name == String::from_str("cfg_edge") {
                let ghost before = cfg.deep_view();
                cfg.push(row);
                proof {
                    assert(cfg.deep_view() =~~= before + seq![sv.facts[fi as int].arguments
                        + seq![sv.name]]);
                    assert(cfg.deep_view().subrange(0, acc_cfg.len() as int) =~= acc_cfg);
                    assert(cfg.deep_view().skip(acc_cfg.len() as int) =~= before.skip(
                        acc_cfg.len() as int,
                    ) + seq![sv.facts[fi as int].arguments + seq![sv.name]]);
                }
            } else if fact.name == String::from_str("clear_origin") {
                let ghost before = clear.deep_view();
                clear.push(row);
                proof {
                    assert(clear.deep_view() =~~= before + seq![sv.facts[fi as int].arguments
                        + seq![sv.name]]);
                    assert(clear.deep_view().subrange(0, acc_clear.len() as int) =~= acc_clear);
                    assert(clear.deep_view().skip(acc_clear.len() as int) =~= before.skip(
                        acc_clear.len() as int,
                    ) + seq![sv.facts[fi as int].arguments + seq![sv.name]]);
                }
            } else if fact.name == String::from_str("introduce_subset") {
                let ghost before = subset.deep_view();
                subset.push(row);
                proof {
                    assert(subset.deep_view() =~~= before + seq![sv.facts[fi as int].arguments
                        + seq![sv.name]]);
                    assert(subset.deep_view().subrange(0, acc_subset.len() as int) =~= acc_subset);
                    assert(subset.deep_view().skip(acc_subset.len() as int) =~= before.skip(
                        acc_subset.len() as int,
                    ) + seq![sv.facts[fi as int].arguments + seq![sv.name]]);
                }
            } else if fact.name == String::from_str("invalidate_origin") {
                let ghost before = invalidate.deep_view();
                invalidate.push(row);
                proof {
                    assert(invalidate.deep_view() =~~= before + seq![sv.facts[fi as int].arguments
                        + seq![sv.name]]);
                    assert(invalidate.deep_view().subrange(0, acc_invalidate.len() as int)
                        =~= acc_invalidate);
                    assert(invalidate.deep_view().skip(acc_invalidate.len() as int)
                        =~= before.skip(acc_invalidate.len() as int) + seq![
                        sv.facts[fi as int].arguments + seq![sv.name],
                    ]);
                }
            } else {
                return Err(UnexpectedFact { name: fact.name.clone(), global: false });
            }
            proof {
                lemma_empty_prepend_rows(stmt_fact_rows("access_origin"@, sv, fi as int + 1));
                lemma_empty_prepend_rows(stmt_fact_rows("cfg_edge"@, sv, fi as int + 1));
                lemma_empty_prepend_rows(stmt_fact_rows("clear_origin"@, sv, fi as int + 1));
                lemma_empty_prepend_rows(stmt_fact_rows("introduce_subset"@, sv, fi as int + 1));
                lemma_empty_prepend_rows(stmt_fact_rows("invalidate_origin"@, sv, fi as int + 1));
            }
            fi = fi + 1;
        }
        proof {
            assert(access.deep_view() =~= acc_access + access.deep_view().skip(
                acc_access.len() as int,
            ));
            assert(cfg.deep_view() =~= acc_cfg + cfg.deep_view().skip(acc_cfg.len() as int));
            assert(clear.deep_view() =~= acc_clear + clear.deep_view().skip(
                acc_clear.len() as int,
            ));
            assert(subset.deep_view() =~= acc_subset + subset.deep_view().skip(
                acc_subset.len() as int,
            ));
            assert(invalidate.deep_view() =~= acc_invalidate + invalidate.deep_view().skip(
                acc_invalidate.len() as int,
            ));
            assert(acc_cfg =~= cfg_at_stmt + succ_rows(sv, 0));
        }
        si = si + 1;
    }
    Ok(
        FactTable {
            mark_as_loan_origin: mark,
            access_origin: access,
            cfg_edge: cfg,
            clear_origin: clear,
            introduce_subset: subset,
            invalidate_origin: invalidate,
            node_text: texts,
        },
    )
}

/// One row as text: its columns joined by tabs.
pub open spec fn row_text(row: RowView, i: int) -> Seq<char>
    decreases row.len() - i,
{
    if 0 <= i < row.len() {
        (if i > 0 {
            "\t"@
        } else {
            Seq::<char>::empty()
        }) + row[i] + row_text(row, i + 1)
    } else {
        Seq::empty()
    }
}

/// A row set as text: one line per row.
pub open spec fn rows_text(rows: Seq<RowView>, i: int) -> Seq<char>
    decreases rows.len() - i,
{
    if 0 <= i < rows.len() {
        row_text(rows[i], 0) + "\n"@ + rows_text(rows, i + 1)
    } else {
        Seq::empty()
    }
}

/// Renders a row set as tab-separated lines.
#[verifier::loop_isolation(false)]
pub fn render_rows(rows: &Vec<Vec<String>>) -> (s: String)
    ensures
        s@ == rows_text(rows.deep_view(), 0),
{
    let ghost rv = rows.deep_view();
    let mut s = String::new();
    let n = rows.len();
    let mut i: usize = 0;
    while i < n
        invariant
            i <= n,
            n == rows@.len(),
            rows_text(rv, 0) == s@ + rows_text(rv, i as int),
        decreases n - i,
    {
        let row = &rows[i];
        let ghost rowv = rv[i as int];
        let m = row.len();
        let mut j: usize = 0;
        let ghost line_start = s@;
        while j < m
            invariant
                j <= m,
                m == row@.len(),
                rowv == rv[i as int],
                row_text(rowv, 0) == s@.skip(line_start.len() as int) + row_text(rowv, j as int),
                s@.subrange(0, line_start.len() as int) == line_start,
                s@.len() >= line_start.len(),
            decreases m - j,
        {
            if j > 0 {
                s.append("\t");
            }
            s.append(row[j].as_str());
            proof {
                assert(s@.subrange(0, line_start.len() as int) =~= line_start);
                assert(row_text(rowv, 0) =~= s@.skip(line_start.len() as int) + row_text(
                    rowv,
                    j as int + 1,
                ));
            }
            j = j + 1;
        }
        s.append("\n");
        proof {
            assert(s@ =~= line_start + (row_text(rowv, 0) + "\n"@));
            assert(rows_text(rv, 0) =~= s@ + rows_text(rv, i as int + 1));
        }
        i = i + 1;
    }
    proof {
        assert(rows_text(rv, 0) =~= s@);
    }
    s
}

} // verus!
