#![allow(dead_code)]

use polonius::ast::{
    AccessKind, BasicBlock, Expr, Parameter, Place, Program, Projection, Statement, StructDecl,
    Ty, VariableDecl,
};
use polonius::fact_emitter::emit_facts;
use polonius::facts::{Facts, Node};
use polonius::span::{Span, Spanned};

fn name(s: &str) -> String {
    s.to_string()
}

fn ref_ty(o: &str, t: Ty) -> Ty {
    Ty::Ref { origin: name(o), ty: Box::new(t) }
}

fn refmut_ty(o: &str, t: Ty) -> Ty {
    Ty::RefMut { origin: name(o), ty: Box::new(t) }
}

fn struct_ty(n: &str, ps: Vec<Parameter>) -> Ty {
    Ty::Struct { name: name(n), parameters: ps }
}

fn var(n: &str, t: Ty) -> VariableDecl {
    VariableDecl { name: name(n), ty: t }
}

fn base(b: &str) -> Place {
    Place { base: name(b), projections: vec![] }
}

fn field_place(b: &str, fs: &[&str]) -> Place {
    Place { base: name(b), projections: fs.iter().map(|f| Projection::Field(name(f))).collect() }
}

fn assign(p: Place, e: Expr) -> Spanned<Statement> {
    Spanned::new(Statement::Assign(p, e), Span::dummy())
}

fn stmt_expr(e: Expr) -> Spanned<Statement> {
    Spanned::new(Statement::Expr(e), Span::dummy())
}

fn num(v: i32) -> Expr {
    Expr::Number { value: v }
}

fn copy_of(p: Place) -> Expr {
    Expr::Access { kind: AccessKind::Copy, place: p }
}

fn move_of(p: Place) -> Expr {
    Expr::Access { kind: AccessKind::Move, place: p }
}

fn borrow(o: &str, p: Place) -> Expr {
    Expr::Access { kind: AccessKind::Borrow(name(o)), place: p }
}

fn borrow_mut(o: &str, p: Place) -> Expr {
    Expr::Access { kind: AccessKind::BorrowMut(name(o)), place: p }
}

fn call(f: &str, args: Vec<Expr>) -> Expr {
    Expr::Call { name: name(f), arguments: args }
}

fn block(n: &str, stmts: Vec<Spanned<Statement>>, succs: &[&str]) -> BasicBlock {
    BasicBlock {
        name: name(n),
        statements: stmts,
        successors: succs.iter().map(|s| name(s)).collect(),
    }
}

fn program(
    structs: Vec<StructDecl>,
    vars: Vec<VariableDecl>,
    blocks: Vec<BasicBlock>,
) -> Program {
    Program { struct_decls: structs, fn_prototypes: vec![], variables: vars, basic_blocks: blocks }
}

fn expect_facts(p: Program) -> Facts {
    emit_facts(p).expect("emission failed")
}

fn origin_nodes(rows: &[(String, Node)]) -> Vec<(String, String)> {
    rows.iter().map(|(o, n)| (o.clone(), n.to_text())).collect()
}

fn subset_rows(rows: &[(String, String, Node)]) -> Vec<(String, String, String)> {
    rows.iter().map(|(a, b, n)| (a.clone(), b.clone(), n.to_text())).collect()
}

fn edge_rows(rows: &[(Node, Node)]) -> Vec<(String, String)> {
    rows.iter().map(|(a, b)| (a.to_text(), b.to_text())).collect()
}

fn pair(a: &str, b: &str) -> (String, String) {
    (a.to_string(), b.to_string())
}

fn triple(a: &str, b: &str, c: &str) -> (String, String, String) {
    (a.to_string(), b.to_string(), c.to_string())
}

#[test]
fn no_edges() {
    // Empty block
    let p = program(vec![], vec![], vec![block("bb0", vec![], &[])]);
    assert!(expect_facts(p).cfg_edge.is_empty());

    // Single statement
    let p = program(
        vec![],
        vec![var("x", Ty::I32)],
        vec![block("bb0", vec![assign(base("x"), num(1))], &[])],
    );
    assert!(expect_facts(p).cfg_edge.is_empty());
}

#[test]
fn single_block_edges() {
    let p = program(
        vec![],
        vec![var("x", Ty::I32)],
        vec![block("bb0", vec![assign(base("x"), num(1)), assign(base("x"), num(2))], &[])],
    );
    assert_eq!(edge_rows(&expect_facts(p).cfg_edge), vec![pair("bb0[0]", "bb0[1]")]);
}

#[test]
fn single_sucessor_block() {
    let p = program(
        vec![],
        vec![],
        vec![block("bb0", vec![], &["bb1"]), block("bb1", vec![], &[])],
    );
    assert_eq!(edge_rows(&expect_facts(p).cfg_edge), vec![pair("bb0[0]", "bb1[0]")]);
}

#[test]
fn multiple_successor_blocks() {
    let p = program(
        vec![],
        vec![],
        vec![
            block("bb0", vec![], &["bb1", "bb2"]),
            block("bb1", vec![], &[]),
            block("bb2", vec![], &[]),
        ],
    );
    assert_eq!(
        edge_rows(&expect_facts(p).cfg_edge),
        vec![pair("bb0[0]", "bb1[0]"), pair("bb0[0]", "bb2[0]")]
    );
}

#[test]
fn loop_back_edge_appears() {
    let p = program(
        vec![],
        vec![var("x", Ty::I32)],
        vec![
            block("bb1", vec![assign(base("x"), num(1))], &["bb2"]),
            block("bb2", vec![], &["bb3"]),
            block("bb3", vec![], &["bb4"]),
            block("bb4", vec![], &["bb1"]),
        ],
    );
    let edges = edge_rows(&expect_facts(p).cfg_edge);
    assert!(edges.contains(&pair("bb4[0]", "bb1[0]")));
    assert_eq!(
        edges,
        vec![
            pair("bb1[0]", "bb2[0]"),
            pair("bb2[0]", "bb3[0]"),
            pair("bb3[0]", "bb4[0]"),
            pair("bb4[0]", "bb1[0]"),
        ]
    );
}

#[test]
fn multi_statement_block_with_successor() {
    let p = program(
        vec![],
        vec![var("x", Ty::I32)],
        vec![
            block("bb0", vec![assign(base("x"), num(1)), assign(base("x"), num(2))], &["bb1"]),
            block("bb1", vec![], &[]),
        ],
    );
    assert_eq!(
        edge_rows(&expect_facts(p).cfg_edge),
        vec![pair("bb0[0]", "bb0[1]"), pair("bb0[1]", "bb1[0]")]
    );
}
