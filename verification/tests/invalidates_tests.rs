use polonius::ast::{Place, Projection};
use polonius::invalidates::{Access, AccessDepth, AccessRw, BorrowKind, Loan};

fn name(s: &str) -> String {
    s.to_string()
}

fn base(b: &str) -> Place {
    Place { base: name(b), projections: vec![] }
}

fn place(b: &str, projections: Vec<Projection>) -> Place {
    Place { base: name(b), projections }
}

fn field(f: &str) -> Projection {
    Projection::Field(name(f))
}

#[test]
fn shared_read_of_shared_loan_is_permitted() {
    let access = Access::from_expr(&polonius::ast::AccessKind::Copy, &base("x"));
    let loan = Loan { place: base("x"), kind: BorrowKind::Shared };
    assert!(!access.invalidates(loan));
}

#[test]
fn read_of_unique_loan_invalidates() {
    let access = Access::from_expr(&polonius::ast::AccessKind::Copy, &base("x"));
    let loan = Loan { place: base("x"), kind: BorrowKind::Unique };
    assert!(access.invalidates(loan));
}

#[test]
fn write_invalidates_shared_loan_of_same_place() {
    let access = Access::from_assignment_lhs(&base("x"));
    assert_eq!(access.rw, AccessRw::Write);
    assert_eq!(access.depth, AccessDepth::Shallow);
    let loan = Loan { place: base("x"), kind: BorrowKind::Shared };
    assert!(access.invalidates(loan));
}

#[test]
fn disjoint_places_do_not_invalidate() {
    let access = Access::from_assignment_lhs(&base("x"));
    let loan = Loan { place: base("y"), kind: BorrowKind::Unique };
    assert!(!access.invalidates(loan));
}

#[test]
fn shallow_write_spares_deref_loans() {
    // A shallow write to the root `p` does not affect a loan of `*p`.
    let access = Access::from_assignment_lhs(&base("p"));
    let loan = Loan {
        place: place("p", vec![Projection::Deref]),
        kind: BorrowKind::Unique,
    };
    assert!(!access.invalidates(loan));
}

#[test]
fn deep_write_reaches_deref_loans() {
    let access = Access::from_expr(
        &polonius::ast::AccessKind::BorrowMut(name("'m")),
        &base("p"),
    );
    let loan = Loan {
        place: place("p", vec![Projection::Deref]),
        kind: BorrowKind::Unique,
    };
    assert!(access.invalidates(loan));
}

#[test]
fn disjointness_is_irreflexive() {
    let p = place("x", vec![field("f"), Projection::Deref]);
    assert!(!p.is_disjoint(&p));
    assert!(!base("x").is_disjoint(&base("x")));
}

#[test]
fn disjointness_is_commutative() {
    let cases = vec![
        (base("x"), base("y")),
        (base("x"), place("x", vec![field("f")])),
        (place("x", vec![field("f")]), place("x", vec![field("g")])),
        (place("x", vec![field("f"), field("g")]), place("x", vec![field("f")])),
        (place("x", vec![Projection::Deref]), place("x", vec![field("f")])),
    ];
    for (a, b) in &cases {
        assert_eq!(a.is_disjoint(b), b.is_disjoint(a));
    }
}

#[test]
fn prefixes_are_not_disjoint() {
    let whole = place("x", vec![field("f"), field("g")]);
    let prefix = place("x", vec![field("f")]);
    assert!(!whole.is_disjoint(&prefix));
    assert!(!prefix.is_disjoint(&whole));
}

#[test]
fn diverging_projections_are_disjoint() {
    let a = place("x", vec![field("f"), field("g")]);
    let b = place("x", vec![field("h"), field("g")]);
    assert!(a.is_disjoint(&b));
    let c = place("x", vec![Projection::Deref]);
    let d = place("x", vec![field("f")]);
    assert!(c.is_disjoint(&d));
}

#[test]
fn num_derefs_counts_deref_steps() {
    assert_eq!(base("x").num_derefs(), 0);
    assert_eq!(
        place("x", vec![Projection::Deref, field("f"), Projection::Deref]).num_derefs(),
        2
    );
}
