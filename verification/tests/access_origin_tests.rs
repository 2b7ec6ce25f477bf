#![allow(dead_code)]

use polonius::ast::{
    AccessKind, BasicBlock, Expr, Parameter, Place, Program, Projection, Statement, StructDecl,
    Ty, VariableDecl,
};
use polonius::fact_emitter::emit_facts;
use polonius::facts::{Facts, Node};
use polonius::span::{Span, Spanned};

fn name(s: &str) -> String {
    s.to_string()
}

fn ref_ty(o: &str, t: Ty) -> Ty {
    Ty::Ref { origin: name(o), ty: Box::new(t) }
}

fn refmut_ty(o: &str, t: Ty) -> Ty {
    Ty::RefMut { origin: name(o), ty: Box::new(t) }
}

fn struct_ty(n: &str, ps: Vec<Parameter>) -> Ty {
    Ty::Struct { name: name(n), parameters: ps }
}

fn var(n: &str, t: Ty) -> VariableDecl {
    VariableDecl { name: name(n), ty: t }
}

fn base(b: &str) -> Place {
    Place { base: name(b), projections: vec![] }
}

fn field_place(b: &str, fs: &[&str]) -> Place {
    Place { base: name(b), projections: fs.iter().map(|f| Projection::Field(name(f))).collect() }
}

fn assign(p: Place, e: Expr) -> Spanned<Statement> {
    Spanned::new(Statement::Assign(p, e), Span::dummy())
}

fn stmt_expr(e: Expr) -> Spanned<Statement> {
    Spanned::new(Statement::Expr(e), Span::dummy())
}

fn num(v: i32) -> Expr {
    Expr::Number { value: v }
}

fn copy_of(p: Place) -> Expr {
    Expr::Access { kind: AccessKind::Copy, place: p }
}

fn move_of(p: Place) -> Expr {
    Expr::Access { kind: AccessKind::Move, place: p }
}

fn borrow(o: &str, p: Place) -> Expr {
    Expr::Access { kind: AccessKind::Borrow(name(o)), place: p }
}

fn borrow_mut(o: &str, p: Place) -> Expr {
    Expr::Access { kind: AccessKind::BorrowMut(name(o)), place: p }
}

fn call(f: &str, args: Vec<Expr>) -> Expr {
    Expr::Call { name: name(f), arguments: args }
}

fn block(n: &str, stmts: Vec<Spanned<Statement>>, succs: &[&str]) -> BasicBlock {
    BasicBlock {
        name: name(n),
        statements: stmts,
        successors: succs.iter().map(|s| name(s)).collect(),
    }
}

fn program(
    structs: Vec<StructDecl>,
    vars: Vec<VariableDecl>,
    blocks: Vec<BasicBlock>,
) -> Program {
    Program { struct_decls: structs, fn_prototypes: vec![], variables: vars, basic_blocks: blocks }
}

fn expect_facts(p: Program) -> Facts {
    emit_facts(p).expect("emission failed")
}

fn origin_nodes(rows: &[(String, Node)]) -> Vec<(String, String)> {
    rows.iter().map(|(o, n)| (o.clone(), n.to_text())).collect()
}

fn subset_rows(rows: &[(String, String, Node)]) -> Vec<(String, String, String)> {
    rows.iter().map(|(a, b, n)| (a.clone(), b.clone(), n.to_text())).collect()
}

fn edge_rows(rows: &[(Node, Node)]) -> Vec<(String, String)> {
    rows.iter().map(|(a, b)| (a.to_text(), b.to_text())).collect()
}

fn pair(a: &str, b: &str) -> (String, String) {
    (a.to_string(), b.to_string())
}

fn triple(a: &str, b: &str, c: &str) -> (String, String, String) {
    (a.to_string(), b.to_string(), c.to_string())
}

#[test]
fn assignments_read_ref_arguments() {
    let p = program(
        vec![],
        vec![var("a", ref_ty("'a", Ty::I32)), var("ref", ref_ty("'ref", Ty::I32))],
        vec![block("bb0", vec![assign(base("a"), copy_of(base("ref")))], &[])],
    );
    let facts = expect_facts(p);
    assert_eq!(origin_nodes(&facts.access_origin), vec![pair("'ref", "bb0[0]")]);

    let p = program(
        vec![],
        vec![
            var("u", ref_ty("'u", struct_ty("Vec", vec![Parameter::Ty(ref_ty("'data_u", Ty::I32))]))),
            var("v", ref_ty("'v", struct_ty("Vec", vec![Parameter::Ty(ref_ty("'data_v", Ty::I32))]))),
        ],
        vec![block("bb0", vec![assign(base("u"), move_of(base("v")))], &[])],
    );
    let facts = expect_facts(p);
    assert_eq!(
        origin_nodes(&facts.access_origin),
        vec![pair("'v", "bb0[0]"), pair("'data_v", "bb0[0]")]
    );
}

#[test]
fn function_calls_read_ref_arguments() {
    let p = program(
        vec![],
        vec![var("ref", ref_ty("'ref", Ty::I32))],
        vec![block("bb0", vec![stmt_expr(call("call", vec![move_of(base("ref"))]))], &[])],
    );
    let facts = expect_facts(p);
    assert_eq!(origin_nodes(&facts.access_origin), vec![pair("'ref", "bb0[0]")]);

    let p = program(
        vec![],
        vec![var("v", ref_ty("'v", struct_ty("Vec", vec![Parameter::Ty(ref_ty("'data", Ty::I32))])))],
        vec![block("bb0", vec![stmt_expr(call("Vec_len", vec![move_of(base("v"))]))], &[])],
    );
    let facts = expect_facts(p);
    assert_eq!(
        origin_nodes(&facts.access_origin),
        vec![pair("'v", "bb0[0]"), pair("'data", "bb0[0]")]
    );
}
