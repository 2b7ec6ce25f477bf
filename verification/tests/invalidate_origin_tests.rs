#![allow(dead_code)]

use polonius::ast::{
    AccessKind, BasicBlock, Expr, Parameter, Place, Program, Projection, Statement, StructDecl,
    Ty, VariableDecl,
};
use polonius::fact_emitter::emit_facts;
use polonius::facts::{Facts, Node};
use polonius::span::{Span, Spanned};

fn name(s: &str) -> String {
    s.to_string()
}

fn ref_ty(o: &str, t: Ty) -> Ty {
    Ty::Ref { origin: name(o), ty: Box::new(t) }
}

fn refmut_ty(o: &str, t: Ty) -> Ty {
    Ty::RefMut { origin: name(o), ty: Box::new(t) }
}

fn struct_ty(n: &str, ps: Vec<Parameter>) -> Ty {
    Ty::Struct { name: name(n), parameters: ps }
}

fn var(n: &str, t: Ty) -> VariableDecl {
    VariableDecl { name: name(n), ty: t }
}

fn base(b: &str) -> Place {
    Place { base: name(b), projections: vec![] }
}

fn field_place(b: &str, fs: &[&str]) -> Place {
    Place { base: name(b), projections: fs.iter().map(|f| Projection::Field(name(f))).collect() }
}

fn assign(p: Place, e: Expr) -> Spanned<Statement> {
    Spanned::new(Statement::Assign(p, e), Span::dummy())
}

fn stmt_expr(e: Expr) -> Spanned<Statement> {
    Spanned::new(Statement::Expr(e), Span::dummy())
}

fn num(v: i32) -> Expr {
    Expr::Number { value: v }
}

fn copy_of(p: Place) -> Expr {
    Expr::Access { kind: AccessKind::Copy, place: p }
}

fn move_of(p: Place) -> Expr {
    Expr::Access { kind: AccessKind::Move, place: p }
}

fn borrow(o: &str, p: Place) -> Expr {
    Expr::Access { kind: AccessKind::Borrow(name(o)), place: p }
}

fn borrow_mut(o: &str, p: Place) -> Expr {
    Expr::Access { kind: AccessKind::BorrowMut(name(o)), place: p }
}

fn call(f: &str, args: Vec<Expr>) -> Expr {
    Expr::Call { name: name(f), arguments: args }
}

fn block(n: &str, stmts: Vec<Spanned<Statement>>, succs: &[&str]) -> BasicBlock {
    BasicBlock {
        name: name(n),
        statements: stmts,
        successors: succs.iter().map(|s| name(s)).collect(),
    }
}

fn program(
    structs: Vec<StructDecl>,
    vars: Vec<VariableDecl>,
    blocks: Vec<BasicBlock>,
) -> Program {
    Program { struct_decls: structs, fn_prototypes: vec![], variables: vars, basic_blocks: blocks }
}

fn expect_facts(p: Program) -> Facts {
    emit_facts(p).expect("emission failed")
}

fn origin_nodes(rows: &[(String, Node)]) -> Vec<(String, String)> {
    rows.iter().map(|(o, n)| (o.clone(), n.to_text())).collect()
}

fn subset_rows(rows: &[(String, String, Node)]) -> Vec<(String, String, String)> {
    rows.iter().map(|(a, b, n)| (a.clone(), b.clone(), n.to_text())).collect()
}

fn edge_rows(rows: &[(Node, Node)]) -> Vec<(String, String)> {
    rows.iter().map(|(a, b)| (a.to_text(), b.to_text())).collect()
}

fn pair(a: &str, b: &str) -> (String, String) {
    (a.to_string(), b.to_string())
}

fn triple(a: &str, b: &str, c: &str) -> (String, String, String) {
    (a.to_string(), b.to_string(), c.to_string())
}

use polonius::resolve::ErrorKind;

#[test]
fn assignment_to_non_references() {
    // Simple assignment
    let p = program(
        vec![],
        vec![var("x", Ty::I32), var("y", ref_ty("'y", Ty::I32))],
        vec![block(
            "bb0",
            vec![assign(base("x"), num(22)), assign(base("y"), borrow("'L_x", base("x")))],
            &[],
        )],
    );
    let facts = expect_facts(p);
    assert_eq!(origin_nodes(&facts.invalidate_origin), vec![pair("'L_x", "bb0[0]")]);

    // Function call return value
    let p = program(
        vec![],
        vec![var("v", struct_ty("Vec", vec![])), var("ref", ref_ty("'ref", struct_ty("Vec", vec![])))],
        vec![block(
            "bb0",
            vec![
                assign(base("v"), call("Vec_new", vec![])),
                assign(base("ref"), borrow("'L_v", base("v"))),
            ],
            &[],
        )],
    );
    let facts = expect_facts(p);
    assert_eq!(origin_nodes(&facts.invalidate_origin), vec![pair("'L_v", "bb0[0]")]);
}

#[test]
fn mut_borrows_invalidate_loans() {
    let p = program(
        vec![],
        vec![var("x", Ty::I32), var("y", refmut_ty("'y", Ty::I32))],
        vec![block(
            "bb0",
            vec![assign(base("x"), num(22)), assign(base("y"), borrow_mut("'L_x", base("x")))],
            &[],
        )],
    );
    let facts = expect_facts(p);
    assert_eq!(
        origin_nodes(&facts.invalidate_origin),
        vec![pair("'L_x", "bb0[0]"), pair("'L_x", "bb0[1]")]
    );
}

#[test]
fn borrow_then_overwrite_then_use() {
    // let x: i32; let y: &'y i32;
    // bb0 { x = 3; y = &'L_x x; x = 4; use(move y); }
    let p = program(
        vec![],
        vec![var("x", Ty::I32), var("y", ref_ty("'y", Ty::I32))],
        vec![block(
            "bb0",
            vec![
                assign(base("x"), num(3)),
                assign(base("y"), borrow("'L_x", base("x"))),
                assign(base("x"), num(4)),
                stmt_expr(call("use", vec![move_of(base("y"))])),
            ],
            &[],
        )],
    );
    let facts = expect_facts(p);
    assert_eq!(
        origin_nodes(&facts.invalidate_origin),
        vec![pair("'L_x", "bb0[0]"), pair("'L_x", "bb0[2]")]
    );
    assert_eq!(
        origin_nodes(&facts.clear_origin),
        vec![pair("'L_x", "bb0[1]"), pair("'y", "bb0[1]")]
    );
    assert_eq!(
        subset_rows(&facts.introduce_subset),
        vec![triple("'L_x", "'y", "bb0[1]")]
    );
    assert_eq!(origin_nodes(&facts.access_origin), vec![pair("'y", "bb0[3]")]);
}

#[test]
fn reassignment_invalidates_shared_loans() {
    // let p: i32; let x: &'x i32;
    // bb0 { p = 22; x = &'L_p p; p = 33; use(move x); }
    let p = program(
        vec![],
        vec![var("p", Ty::I32), var("x", ref_ty("'x", Ty::I32))],
        vec![block(
            "bb0",
            vec![
                assign(base("p"), num(22)),
                assign(base("x"), borrow("'L_p", base("p"))),
                assign(base("p"), num(33)),
                stmt_expr(call("use", vec![move_of(base("x"))])),
            ],
            &[],
        )],
    );
    let facts = expect_facts(p);
    assert_eq!(
        origin_nodes(&facts.invalidate_origin),
        vec![pair("'L_p", "bb0[0]"), pair("'L_p", "bb0[2]")]
    );
}

#[test]
fn shape_mismatch_is_reported() {
    // An assignment whose two sides have different type shapes fails.
    let p = program(
        vec![],
        vec![var("a", ref_ty("'a", Ty::I32)), var("b", Ty::I32)],
        vec![block("bb0", vec![assign(base("a"), move_of(base("b")))], &[])],
    );
    let err = emit_facts(p).expect_err("emission unexpectedly succeeded");
    assert_eq!(err.kind, ErrorKind::ShapeMismatch);
}

#[test]
fn errors_carry_the_statement_span() {
    let p = program(
        vec![],
        vec![],
        vec![block(
            "bb0",
            vec![Spanned::new(Statement::Assign(base("nowhere"), num(1)), Span::new(5, 20))],
            &[],
        )],
    );
    let err = emit_facts(p).expect_err("emission unexpectedly succeeded");
    assert_eq!(err.kind, ErrorKind::UnknownVariable(name("nowhere")));
    assert_eq!(err.span.start(), 5);
    assert_eq!(err.span.end(), 20);
}
