#![allow(dead_code)]

use polonius::ast::{
    AccessKind, BasicBlock, Expr, Parameter, Place, Program, Projection, Statement, StructDecl,
    Ty, VariableDecl,
};
use polonius::fact_emitter::emit_facts;
use polonius::facts::{Facts, Node};
use polonius::span::{Span, Spanned};

fn name(s: &str) -> String {
    s.to_string()
}

fn ref_ty(o: &str, t: Ty) -> Ty {
    Ty::Ref { origin: name(o), ty: Box::new(t) }
}

fn refmut_ty(o: &str, t: Ty) -> Ty {
    Ty::RefMut { origin: name(o), ty: Box::new(t) }
}

fn struct_ty(n: &str, ps: Vec<Parameter>) -> Ty {
    Ty::Struct { name: name(n), parameters: ps }
}

fn var(n: &str, t: Ty) -> VariableDecl {
    VariableDecl { name: name(n), ty: t }
}

fn base(b: &str) -> Place {
    Place { base: name(b), projections: vec![] }
}

fn field_place(b: &str, fs: &[&str]) -> Place {
    Place { base: name(b), projections: fs.iter().map(|f| Projection::Field(name(f))).collect() }
}

fn assign(p: Place, e: Expr) -> Spanned<Statement> {
    Spanned::new(Statement::Assign(p, e), Span::dummy())
}

fn stmt_expr(e: Expr) -> Spanned<Statement> {
    Spanned::new(Statement::Expr(e), Span::dummy())
}

fn num(v: i32) -> Expr {
    Expr::Number { value: v }
}

fn copy_of(p: Place) -> Expr {
    Expr::Access { kind: AccessKind::Copy, place: p }
}

fn move_of(p: Place) -> Expr {
    Expr::Access { kind: AccessKind::Move, place: p }
}

fn borrow(o: &str, p: Place) -> Expr {
    Expr::Access { kind: AccessKind::Borrow(name(o)), place: p }
}

fn borrow_mut(o: &str, p: Place) -> Expr {
    Expr::Access { kind: AccessKind::BorrowMut(name(o)), place: p }
}

fn call(f: &str, args: Vec<Expr>) -> Expr {
    Expr::Call { name: name(f), arguments: args }
}

fn block(n: &str, stmts: Vec<Spanned<Statement>>, succs: &[&str]) -> BasicBlock {
    BasicBlock {
        name: name(n),
        statements: stmts,
        successors: succs.iter().map(|s| name(s)).collect(),
    }
}

fn program(
    structs: Vec<StructDecl>,
    vars: Vec<VariableDecl>,
    blocks: Vec<BasicBlock>,
) -> Program {
    Program { struct_decls: structs, fn_prototypes: vec![], variables: vars, basic_blocks: blocks }
}

fn expect_facts(p: Program) -> Facts {
    emit_facts(p).expect("emission failed")
}

fn origin_nodes(rows: &[(String, Node)]) -> Vec<(String, String)> {
    rows.iter().map(|(o, n)| (o.clone(), n.to_text())).collect()
}

fn subset_rows(rows: &[(String, String, Node)]) -> Vec<(String, String, String)> {
    rows.iter().map(|(a, b, n)| (a.clone(), b.clone(), n.to_text())).collect()
}

fn edge_rows(rows: &[(Node, Node)]) -> Vec<(String, String)> {
    rows.iter().map(|(a, b)| (a.to_text(), b.to_text())).collect()
}

fn pair(a: &str, b: &str) -> (String, String) {
    (a.to_string(), b.to_string())
}

fn triple(a: &str, b: &str, c: &str) -> (String, String, String) {
    (a.to_string(), b.to_string(), c.to_string())
}

fn vec_of(o: &str) -> Ty {
    struct_ty("Vec", vec![Parameter::Ty(ref_ty(o, Ty::I32))])
}

#[test]
fn shared_reference_assignment() {
    let p = program(
        vec![],
        vec![
            var("a", ref_ty("'a", Ty::I32)),
            var("b", Ty::I32),
            var("c", ref_ty("'c", Ty::I32)),
        ],
        vec![block(
            "bb0",
            vec![
                assign(base("a"), borrow("'b", base("b"))),
                assign(base("a"), move_of(base("c"))),
            ],
            &[],
        )],
    );
    let facts = expect_facts(p);
    assert_eq!(
        subset_rows(&facts.introduce_subset),
        vec![triple("'b", "'a", "bb0[0]"), triple("'c", "'a", "bb0[1]")]
    );
}

#[test]
fn unique_reference_assignment() {
    let p = program(
        vec![],
        vec![
            var("a", refmut_ty("'a", Ty::I32)),
            var("b", Ty::I32),
            var("c", refmut_ty("'c", Ty::I32)),
        ],
        vec![block(
            "bb0",
            vec![
                assign(base("a"), borrow_mut("'b", base("b"))),
                assign(base("a"), move_of(base("c"))),
            ],
            &[],
        )],
    );
    let facts = expect_facts(p);
    assert_eq!(
        subset_rows(&facts.introduce_subset),
        vec![triple("'b", "'a", "bb0[0]"), triple("'c", "'a", "bb0[1]")]
    );
}

fn deep_vec(inner: Ty) -> Ty {
    struct_ty("Vec", vec![Parameter::Ty(inner)])
}

#[test]
fn shared_reference_to_generic_type() {
    // &T references are covariant in T
    let p = program(
        vec![],
        vec![
            var("a", ref_ty("'a", vec_of("'c"))),
            var("b", vec_of("'d")),
            var(
                "e",
                ref_ty(
                    "'e",
                    deep_vec(deep_vec(deep_vec(deep_vec(deep_vec(ref_ty("'g", Ty::I32)))))),
                ),
            ),
            var("f", deep_vec(deep_vec(deep_vec(deep_vec(deep_vec(ref_ty("'h", Ty::I32))))))),
        ],
        vec![block(
            "bb0",
            vec![
                assign(base("a"), borrow("'b", base("b"))),
                assign(base("e"), borrow("'f", base("f"))),
            ],
            &[],
        )],
    );
    let facts = expect_facts(p);
    assert_eq!(
        subset_rows(&facts.introduce_subset),
        vec![
            triple("'b", "'a", "bb0[0]"),
            triple("'d", "'c", "bb0[0]"),
            triple("'f", "'e", "bb0[1]"),
            triple("'h", "'g", "bb0[1]"),
        ]
    );
}

#[test]
fn unique_reference_to_generic_type() {
    // &mut T references are invariant in T
    let p = program(
        vec![],
        vec![
            var("a", refmut_ty("'a", vec_of("'c"))),
            var("b", vec_of("'d")),
            var(
                "e",
                refmut_ty(
                    "'e",
                    deep_vec(deep_vec(deep_vec(deep_vec(deep_vec(ref_ty("'g", Ty::I32)))))),
                ),
            ),
            var("f", deep_vec(deep_vec(deep_vec(deep_vec(deep_vec(ref_ty("'h", Ty::I32))))))),
        ],
        vec![block(
            "bb0",
            vec![
                assign(base("a"), borrow_mut("'b", base("b"))),
                assign(base("e"), borrow_mut("'f", base("f"))),
            ],
            &[],
        )],
    );
    let facts = expect_facts(p);
    assert_eq!(
        subset_rows(&facts.introduce_subset),
        vec![
            triple("'b", "'a", "bb0[0]"),
            triple("'d", "'c", "bb0[0]"),
            triple("'c", "'d", "bb0[0]"),
            triple("'f", "'e", "bb0[1]"),
            triple("'h", "'g", "bb0[1]"),
            triple("'g", "'h", "bb0[1]"),
        ]
    );
}

#[test]
fn chain_of_mixed_references_to_generic_type() {
    // A unique reference makes the descendant pairs invariant regardless of
    // what stands around them.
    let p = program(
        vec![],
        vec![
            var(
                "a",
                ref_ty(
                    "'a",
                    deep_vec(refmut_ty("'c", deep_vec(ref_ty("'e", deep_vec(ref_ty("'g", Ty::I32)))))),
                ),
            ),
            var(
                "b",
                deep_vec(refmut_ty("'d", deep_vec(ref_ty("'f", deep_vec(ref_ty("'h", Ty::I32)))))),
            ),
        ],
        vec![block("bb0", vec![assign(base("a"), borrow("'b", base("b")))], &[])],
    );
    let facts = expect_facts(p);
    assert_eq!(
        subset_rows(&facts.introduce_subset),
        vec![
            triple("'b", "'a", "bb0[0]"),
            triple("'d", "'c", "bb0[0]"),
            triple("'f", "'e", "bb0[0]"),
            triple("'e", "'f", "bb0[0]"),
            triple("'h", "'g", "bb0[0]"),
            triple("'g", "'h", "bb0[0]"),
        ]
    );
}

#[test]
fn values_of_generic_types() {
    let p = program(
        vec![],
        vec![var("a", vec_of("'a")), var("b", vec_of("'b"))],
        vec![block("bb0", vec![assign(base("a"), move_of(base("b")))], &[])],
    );
    let facts = expect_facts(p);
    assert_eq!(subset_rows(&facts.introduce_subset), vec![triple("'b", "'a", "bb0[0]")]);
}

#[test]
fn covariant_borrow_of_generic_value() {
    // let a: &'a Vec<&'c i32>; let b: Vec<&'d i32>; bb0 { a = &'b b; }
    let p = program(
        vec![],
        vec![var("a", ref_ty("'a", vec_of("'c"))), var("b", vec_of("'d"))],
        vec![block("bb0", vec![assign(base("a"), borrow("'b", base("b")))], &[])],
    );
    let facts = expect_facts(p);
    assert_eq!(
        subset_rows(&facts.introduce_subset),
        vec![triple("'b", "'a", "bb0[0]"), triple("'d", "'c", "bb0[0]")]
    );
}

#[test]
fn invariant_borrow_of_generic_value() {
    // let a: &'a mut Vec<&'c i32>; let b: Vec<&'d i32>; bb0 { a = &'b mut b; }
    let p = program(
        vec![],
        vec![var("a", refmut_ty("'a", vec_of("'c"))), var("b", vec_of("'d"))],
        vec![block("bb0", vec![assign(base("a"), borrow_mut("'b", base("b")))], &[])],
    );
    let facts = expect_facts(p);
    assert_eq!(
        subset_rows(&facts.introduce_subset),
        vec![
            triple("'b", "'a", "bb0[0]"),
            triple("'d", "'c", "bb0[0]"),
            triple("'c", "'d", "bb0[0]"),
        ]
    );
}
