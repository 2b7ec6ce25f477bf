#![allow(dead_code)]

use polonius::ast::{
    AccessKind, BasicBlock, Expr, Parameter, Place, Program, Projection, Statement, StructDecl,
    Ty, VariableDecl,
};
use polonius::fact_emitter::emit_facts;
use polonius::facts::{Facts, Node};
use polonius::span::{Span, Spanned};

fn name(s: &str) -> String {
    s.to_string()
}

fn ref_ty(o: &str, t: Ty) -> Ty {
    Ty::Ref { origin: name(o), ty: Box::new(t) }
}

fn refmut_ty(o: &str, t: Ty) -> Ty {
    Ty::RefMut { origin: name(o), ty: Box::new(t) }
}

fn struct_ty(n: &str, ps: Vec<Parameter>) -> Ty {
    Ty::Struct { name: name(n), parameters: ps }
}

fn var(n: &str, t: Ty) -> VariableDecl {
    VariableDecl { name: name(n), ty: t }
}

fn base(b: &str) -> Place {
    Place { base: name(b), projections: vec![] }
}

fn field_place(b: &str, fs: &[&str]) -> Place {
    Place { base: name(b), projections: fs.iter().map(|f| Projection::Field(name(f))).collect() }
}

fn assign(p: Place, e: Expr) -> Spanned<Statement> {
    Spanned::new(Statement::Assign(p, e), Span::dummy())
}

fn stmt_expr(e: Expr) -> Spanned<Statement> {
    Spanned::new(Statement::Expr(e), Span::dummy())
}

fn num(v: i32) -> Expr {
    Expr::Number { value: v }
}

fn copy_of(p: Place) -> Expr {
    Expr::Access { kind: AccessKind::Copy, place: p }
}

fn move_of(p: Place) -> Expr {
    Expr::Access { kind: AccessKind::Move, place: p }
}

fn borrow(o: &str, p: Place) -> Expr {
    Expr::Access { kind: AccessKind::Borrow(name(o)), place: p }
}

fn borrow_mut(o: &str, p: Place) -> Expr {
    Expr::Access { kind: AccessKind::BorrowMut(name(o)), place: p }
}

fn call(f: &str, args: Vec<Expr>) -> Expr {
    Expr::Call { name: name(f), arguments: args }
}

fn block(n: &str, stmts: Vec<Spanned<Statement>>, succs: &[&str]) -> BasicBlock {
    BasicBlock {
        name: name(n),
        statements: stmts,
        successors: succs.iter().map(|s| name(s)).collect(),
    }
}

fn program(
    structs: Vec<StructDecl>,
    vars: Vec<VariableDecl>,
    blocks: Vec<BasicBlock>,
) -> Program {
    Program { struct_decls: structs, fn_prototypes: vec![], variables: vars, basic_blocks: blocks }
}

fn expect_facts(p: Program) -> Facts {
    emit_facts(p).expect("emission failed")
}

fn origin_nodes(rows: &[(String, Node)]) -> Vec<(String, String)> {
    rows.iter().map(|(o, n)| (o.clone(), n.to_text())).collect()
}

fn subset_rows(rows: &[(String, String, Node)]) -> Vec<(String, String, String)> {
    rows.iter().map(|(a, b, n)| (a.clone(), b.clone(), n.to_text())).collect()
}

fn edge_rows(rows: &[(Node, Node)]) -> Vec<(String, String)> {
    rows.iter().map(|(a, b)| (a.to_text(), b.to_text())).collect()
}

fn pair(a: &str, b: &str) -> (String, String) {
    (a.to_string(), b.to_string())
}

fn triple(a: &str, b: &str, c: &str) -> (String, String, String) {
    (a.to_string(), b.to_string(), c.to_string())
}

use polonius::ast::GenericDecl;
use polonius::fact_emitter::FactEmitter;
use polonius::resolve::ErrorKind;

fn sdecl(n: &str, gens: Vec<GenericDecl>, fields: Vec<VariableDecl>) -> StructDecl {
    StructDecl { name: name(n), generic_decls: gens, field_decls: fields }
}

fn find_ty(p: Program, path: Place) -> Ty {
    let emitter = FactEmitter::new(p);
    emitter.ty_and_origins_of_place(&path).expect("resolution failed").0
}

fn find_origins(p: Program, path: Place) -> Vec<String> {
    let emitter = FactEmitter::new(p);
    emitter.ty_and_origins_of_place(&path).expect("resolution failed").1
}

fn resolve_err(p: Program, path: Place) -> ErrorKind {
    let emitter = FactEmitter::new(p);
    emitter.ty_and_origins_of_place(&path).expect_err("resolution unexpectedly succeeded")
}

#[test]
fn type_of_vars() {
    let p = program(vec![], vec![var("x", Ty::I32)], vec![]);
    assert_eq!(find_ty(p, base("x")), Ty::I32);

    let p = program(
        vec![sdecl("Vec", vec![], vec![var("e", Ty::I32)])],
        vec![var("v", struct_ty("Vec", vec![]))],
        vec![],
    );
    assert_eq!(find_ty(p, base("v")), struct_ty("Vec", vec![]));

    let p = program(
        vec![sdecl("Vec", vec![GenericDecl::Ty(name("T"))], vec![var("e", struct_ty("T", vec![]))])],
        vec![var("v", struct_ty("Vec", vec![Parameter::Ty(Ty::I32)]))],
        vec![],
    );
    assert_eq!(find_ty(p, base("v")), struct_ty("Vec", vec![Parameter::Ty(Ty::I32)]));

    let p = program(
        vec![sdecl(
            "Ref",
            vec![GenericDecl::Origin(name("'ref"))],
            vec![var("e", ref_ty("'ref", Ty::I32))],
        )],
        vec![var("r", struct_ty("Ref", vec![Parameter::Origin(name("'static"))]))],
        vec![],
    );
    assert_eq!(
        find_ty(p, base("r")),
        struct_ty("Ref", vec![Parameter::Origin(name("'static"))])
    );
}

#[test]
fn type_of_fields() {
    let p = program(
        vec![sdecl("Vec", vec![], vec![var("e", Ty::I32)])],
        vec![var("v", struct_ty("Vec", vec![]))],
        vec![],
    );
    assert_eq!(find_ty(p, field_place("v", &["e"])), Ty::I32);

    let p = program(
        vec![
            sdecl("A", vec![], vec![var("b", struct_ty("B", vec![]))]),
            sdecl("B", vec![], vec![var("c", struct_ty("C", vec![]))]),
            sdecl("C", vec![], vec![var("d", ref_ty("'d", Ty::I32))]),
        ],
        vec![var("a", struct_ty("A", vec![]))],
        vec![],
    );
    assert_eq!(find_ty(p, field_place("a", &["b", "c", "d"])), ref_ty("'d", Ty::I32));

    let p = program(
        vec![sdecl("A", vec![GenericDecl::Ty(name("T"))], vec![var("b", struct_ty("T", vec![]))])],
        vec![var("a", struct_ty("A", vec![Parameter::Ty(Ty::I32)]))],
        vec![],
    );
    assert_eq!(find_ty(p, field_place("a", &["b"])), Ty::I32);

    let p = program(
        vec![
            sdecl("A", vec![GenericDecl::Ty(name("T"))], vec![var("b", struct_ty("T", vec![]))]),
            sdecl("B", vec![GenericDecl::Ty(name("T"))], vec![var("c", struct_ty("T", vec![]))]),
            sdecl("C", vec![GenericDecl::Ty(name("T"))], vec![var("d", struct_ty("T", vec![]))]),
        ],
        vec![var(
            "a",
            struct_ty(
                "A",
                vec![Parameter::Ty(struct_ty(
                    "B",
                    vec![Parameter::Ty(struct_ty("C", vec![Parameter::Ty(Ty::I32)]))],
                ))],
            ),
        )],
        vec![],
    );
    assert_eq!(find_ty(p, field_place("a", &["b", "c", "d"])), Ty::I32);
}

#[test]
fn origins_in_ty() {
    let p = program(vec![], vec![var("a", Ty::I32)], vec![]);
    assert_eq!(find_origins(p, base("a")), Vec::<String>::new());

    let p = program(vec![], vec![var("b", ref_ty("'b", Ty::I32))], vec![]);
    assert_eq!(find_origins(p, base("b")), vec![name("'b")]);

    let p = program(vec![], vec![var("c", ref_ty("'c", ref_ty("'b", Ty::I32)))], vec![]);
    assert_eq!(find_origins(p, base("c")), vec![name("'c"), name("'b")]);

    let p = program(
        vec![],
        vec![var("d", struct_ty("Vec", vec![Parameter::Ty(ref_ty("'d", Ty::I32))]))],
        vec![],
    );
    assert_eq!(find_origins(p, base("d")), vec![name("'d")]);

    let p = program(
        vec![],
        vec![var(
            "e",
            struct_ty(
                "Vec",
                vec![Parameter::Ty(ref_ty(
                    "'e",
                    struct_ty("Vec", vec![Parameter::Ty(ref_ty("'d", Ty::I32))]),
                ))],
            ),
        )],
        vec![],
    );
    assert_eq!(find_origins(p, base("e")), vec![name("'e"), name("'d")]);

    let p = program(
        vec![],
        vec![var(
            "f",
            ref_ty(
                "'f",
                struct_ty(
                    "Vec",
                    vec![Parameter::Ty(ref_ty(
                        "'e",
                        struct_ty("Vec", vec![Parameter::Ty(ref_ty("'d", Ty::I32))]),
                    ))],
                ),
            ),
        )],
        vec![],
    );
    assert_eq!(find_origins(p, base("f")), vec![name("'f"), name("'e"), name("'d")]);
}

#[test]
fn struct_projection_with_generic_substitution() {
    let p = program(
        vec![
            sdecl("A", vec![GenericDecl::Ty(name("T"))], vec![var("b", struct_ty("T", vec![]))]),
            sdecl("C", vec![], vec![var("d", ref_ty("'d", Ty::I32))]),
        ],
        vec![var("a", struct_ty("A", vec![Parameter::Ty(struct_ty("C", vec![]))]))],
        vec![],
    );
    let emitter = FactEmitter::new(p);
    let (ty, origins) = emitter
        .ty_and_origins_of_place(&field_place("a", &["b", "d"]))
        .expect("resolution failed");
    assert_eq!(ty, ref_ty("'d", Ty::I32));
    assert_eq!(origins, vec![name("'d")]);
}

#[test]
fn unknown_variable_is_reported() {
    let p = program(vec![], vec![], vec![]);
    assert_eq!(resolve_err(p, base("ghostly")), ErrorKind::UnknownVariable(name("ghostly")));
}

#[test]
fn unknown_struct_is_reported() {
    let p = program(vec![], vec![var("x", struct_ty("S", vec![]))], vec![]);
    assert_eq!(resolve_err(p, field_place("x", &["f"])), ErrorKind::UnknownStruct(name("S")));
}

#[test]
fn unknown_field_is_reported() {
    let p = program(
        vec![sdecl("S", vec![], vec![var("f", Ty::I32)])],
        vec![var("x", struct_ty("S", vec![]))],
        vec![],
    );
    assert_eq!(resolve_err(p, field_place("x", &["g"])), ErrorKind::UnknownField(name("g")));
}

#[test]
fn field_on_non_struct_is_reported() {
    let p = program(vec![], vec![var("x", Ty::I32)], vec![]);
    assert_eq!(resolve_err(p, field_place("x", &["f"])), ErrorKind::FieldOnNonStruct);
}

#[test]
fn deref_on_non_ref_is_reported() {
    let p = program(vec![], vec![var("x", Ty::I32)], vec![]);
    let place = Place { base: name("x"), projections: vec![Projection::Deref] };
    assert_eq!(resolve_err(p, place), ErrorKind::DerefOnNonRef);
}

#[test]
fn origin_argument_in_type_position_is_reported() {
    let p = program(
        vec![sdecl(
            "S",
            vec![GenericDecl::Ty(name("T"))],
            vec![var("f", struct_ty("T", vec![]))],
        )],
        vec![var("x", struct_ty("S", vec![Parameter::Origin(name("'a"))]))],
        vec![],
    );
    assert_eq!(resolve_err(p, field_place("x", &["f"])), ErrorKind::KindMismatch);
}

#[test]
fn deref_records_the_reference_origin() {
    let p = program(vec![], vec![var("r", ref_ty("'r", ref_ty("'s", Ty::I32)))], vec![]);
    let emitter = FactEmitter::new(p);
    let place = Place { base: name("r"), projections: vec![Projection::Deref] };
    let (ty, origins) = emitter.ty_and_origins_of_place(&place).expect("resolution failed");
    assert_eq!(ty, ref_ty("'s", Ty::I32));
    assert_eq!(origins, vec![name("'r"), name("'s")]);
}
