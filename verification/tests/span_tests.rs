use polonius::span::{Span, Spanned, WithSpan};

#[test]
fn span_accessors() {
    let s = Span::new(3, 9);
    assert_eq!(s.start(), 3);
    assert_eq!(s.end(), 9);
    assert!(!s.is_empty());
    assert!(Span::dummy().is_empty());
    assert_eq!(Span::dummy().start(), 0);
    assert_eq!(Span::dummy().end(), 0);
}

#[test]
fn spanned_carries_value_and_span() {
    let sp = Spanned::new(41, Span::new(1, 2));
    assert_eq!(sp.span(), Span::new(1, 2));
    assert_eq!(sp.inner, 41);
    let r = Spanned::as_ref(&sp);
    assert_eq!(*r.inner, 41);
    assert_eq!(r.span(), Span::new(1, 2));
    let mapped = Spanned::map(sp, |v| v + 1);
    assert_eq!(mapped.inner, 42);
    assert_eq!(mapped.span(), Span::new(1, 2));
}

#[test]
fn with_span_attaches() {
    let sp = 7i32.at(Span::new(4, 5));
    assert_eq!(sp.inner, 7);
    assert_eq!(sp.span(), Span::new(4, 5));
}
