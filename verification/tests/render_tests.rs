#![allow(dead_code)]

use polonius::ast::{
    AccessKind, BasicBlock, Expr, Parameter, Place, Program, Projection, Statement, StructDecl,
    Ty, VariableDecl,
};
use polonius::fact_emitter::emit_facts;
use polonius::facts::{Facts, Node};
use polonius::span::{Span, Spanned};

fn name(s: &str) -> String {
    s.to_string()
}

fn ref_ty(o: &str, t: Ty) -> Ty {
    Ty::Ref { origin: name(o), ty: Box::new(t) }
}

fn refmut_ty(o: &str, t: Ty) -> Ty {
    Ty::RefMut { origin: name(o), ty: Box::new(t) }
}

fn struct_ty(n: &str, ps: Vec<Parameter>) -> Ty {
    Ty::Struct { name: name(n), parameters: ps }
}

fn var(n: &str, t: Ty) -> VariableDecl {
    VariableDecl { name: name(n), ty: t }
}

fn base(b: &str) -> Place {
    Place { base: name(b), projections: vec![] }
}

fn field_place(b: &str, fs: &[&str]) -> Place {
    Place { base: name(b), projections: fs.iter().map(|f| Projection::Field(name(f))).collect() }
}

fn assign(p: Place, e: Expr) -> Spanned<Statement> {
    Spanned::new(Statement::Assign(p, e), Span::dummy())
}

fn stmt_expr(e: Expr) -> Spanned<Statement> {
    Spanned::new(Statement::Expr(e), Span::dummy())
}

fn num(v: i32) -> Expr {
    Expr::Number { value: v }
}

fn copy_of(p: Place) -> Expr {
    Expr::Access { kind: AccessKind::Copy, place: p }
}

fn move_of(p: Place) -> Expr {
    Expr::Access { kind: AccessKind::Move, place: p }
}

fn borrow(o: &str, p: Place) -> Expr {
    Expr::Access { kind: AccessKind::Borrow(name(o)), place: p }
}

fn borrow_mut(o: &str, p: Place) -> Expr {
    Expr::Access { kind: AccessKind::BorrowMut(name(o)), place: p }
}

fn call(f: &str, args: Vec<Expr>) -> Expr {
    Expr::Call { name: name(f), arguments: args }
}

fn block(n: &str, stmts: Vec<Spanned<Statement>>, succs: &[&str]) -> BasicBlock {
    BasicBlock {
        name: name(n),
        statements: stmts,
        successors: succs.iter().map(|s| name(s)).collect(),
    }
}

fn program(
    structs: Vec<StructDecl>,
    vars: Vec<VariableDecl>,
    blocks: Vec<BasicBlock>,
) -> Program {
    Program { struct_decls: structs, fn_prototypes: vec![], variables: vars, basic_blocks: blocks }
}

fn expect_facts(p: Program) -> Facts {
    emit_facts(p).expect("emission failed")
}

fn origin_nodes(rows: &[(String, Node)]) -> Vec<(String, String)> {
    rows.iter().map(|(o, n)| (o.clone(), n.to_text())).collect()
}

fn subset_rows(rows: &[(String, String, Node)]) -> Vec<(String, String, String)> {
    rows.iter().map(|(a, b, n)| (a.clone(), b.clone(), n.to_text())).collect()
}

fn edge_rows(rows: &[(Node, Node)]) -> Vec<(String, String)> {
    rows.iter().map(|(a, b)| (a.to_text(), b.to_text())).collect()
}

fn pair(a: &str, b: &str) -> (String, String) {
    (a.to_string(), b.to_string())
}

fn triple(a: &str, b: &str, c: &str) -> (String, String, String) {
    (a.to_string(), b.to_string(), c.to_string())
}

#[test]
fn node_serialization() {
    let n = Node { block: name("bb0"), index: 0 };
    assert_eq!(n.to_text(), "bb0[0]");
    let n = Node { block: name("loop_head"), index: 12 };
    assert_eq!(n.to_text(), "loop_head[12]");
    let n = Node { block: name("b"), index: 1000 };
    assert_eq!(n.to_text(), "b[1000]");
}

fn two_statement_program() -> Program {
    // let i: i32; let ref: &'ref i32; bb0 { i = 0; ref = &'L_i i; }
    program(
        vec![],
        vec![var("i", Ty::I32), var("ref", ref_ty("'ref", Ty::I32))],
        vec![block(
            "bb0",
            vec![assign(base("i"), num(0)), assign(base("ref"), borrow("'L_i", base("i")))],
            &[],
        )],
    )
}

#[test]
fn relation_files_are_tab_separated() {
    let facts = expect_facts(two_statement_program());
    let files = facts.to_relation_files();
    let names: Vec<String> = files.iter().map(|(n, _)| n.clone()).collect();
    assert_eq!(
        names,
        vec![
            name("access_origin"),
            name("cfg_edge"),
            name("clear_origin"),
            name("introduce_subset"),
            name("invalidate_origin"),
        ]
    );
    assert_eq!(files[0].1, "");
    assert_eq!(files[1].1, "bb0[0]\tbb0[1]\n");
    assert_eq!(files[2].1, "'L_i\tbb0[1]\n'ref\tbb0[1]\n");
    assert_eq!(files[3].1, "'L_i\t'ref\tbb0[1]\n");
    assert_eq!(files[4].1, "'L_i\tbb0[0]\n");
}

#[test]
fn grouped_text_sorts_nodes_and_groups_facts() {
    let facts = expect_facts(two_statement_program());
    let expected = "bb0[0]: {\n\
                    \tinvalidate_origin('L_i)\n\
                    \tgoto bb0[1]\n\
                    }\n\
                    \n\
                    bb0[1]: {\n\
                    \tclear_origin('L_i)\n\
                    \tclear_origin('ref)\n\
                    \tintroduce_subset('L_i, 'ref)\n\
                    }\n";
    assert_eq!(facts.to_grouped_text(), expected);
}

#[test]
fn running_the_emitter_twice_is_byte_identical() {
    let once = expect_facts(two_statement_program());
    let twice = expect_facts(two_statement_program());
    let files_once = once.to_relation_files();
    let files_twice = twice.to_relation_files();
    assert_eq!(files_once.len(), files_twice.len());
    let mut i: usize = 0;
    while i < files_once.len() {
        assert_eq!(files_once[i].0, files_twice[i].0);
        assert_eq!(files_once[i].1, files_twice[i].1);
        i += 1;
    }
    assert_eq!(once.to_grouped_text(), twice.to_grouped_text());
}

#[test]
fn empty_facts_render_empty() {
    let facts = Facts::default();
    assert_eq!(facts.to_grouped_text(), "");
    for (_, content) in facts.to_relation_files() {
        assert_eq!(content, "");
    }
}

#[test]
fn grouped_text_includes_goto_only_nodes() {
    // A goto-only block still participates as node block[0], and nodes are
    // printed in sorted order of their serialized names even when blocks
    // are emitted in another order.
    let p = program(
        vec![],
        vec![var("x", Ty::I32)],
        vec![
            block("bb2", vec![assign(base("x"), num(1))], &["bb1"]),
            block("bb1", vec![], &[]),
        ],
    );
    let facts = expect_facts(p);
    let expected = "bb1[0]: {\n\
                    }\n\
                    \n\
                    bb2[0]: {\n\
                    \tgoto bb1[0]\n\
                    }\n";
    assert_eq!(facts.to_grouped_text(), expected);
}
