//! Source spans: opaque byte ranges attached to statements for diagnostics.

use vstd::prelude::*;

verus! {

/// A half-open byte range in the source text. Spans carry no semantic
/// weight; they are preserved through IR construction so that errors can
/// point at the offending statement.
#[derive(Debug, Clone, Copy, PartialEq, Eq, Structural, Hash)]
pub struct Span {
    pub start: usize,
    pub end: usize,
}

impl Span {
    pub fn new(start: usize, end: usize) -> (r: Self)
        ensures
            r.start == start,
            r.end == end,
    {
        Span { start, end }
    }

    /// The zero span, used where no better position is known.
    pub fn dummy() -> (r: Self)
        ensures
            r.start == 0,
            r.end == 0,
    {
        Span::new(0, 0)
    }

    pub fn start(self) -> (r: usize)
        ensures
            r == self.start,
    {
        self.start
    }

    pub fn end(self) -> (r: usize)
        ensures
            r == self.end,
    {
        self.end
    }

    pub fn is_empty(self) -> (r: bool)
        ensures
            r == (self.start == self.end),
    {
        self.start == self.end
    }
}

/// A value of any kind paired with the span it was read from.
#[derive(Debug)]
pub struct Spanned<T> {
    pub span: Span,
    pub inner: T,
}

/// The mathematical image of a `Spanned` value: the span itself together
/// with the deep view of the carried value.
pub struct SpannedView<V> {
    pub span: Span,
    pub inner: V,
}

impl<T: DeepView> DeepView for Spanned<T> {
    type V = SpannedView<T::V>;

    open spec fn deep_view(&self) -> SpannedView<T::V> {
        SpannedView { span: self.span, inner: self.inner.deep_view() }
    }
}

impl<T> Spanned<T> {
    pub fn new(inner: T, span: Span) -> (r: Self)
        ensures
            r.span == span,
            r.inner == inner,
    {
        Spanned { span, inner }
    }

    pub fn span(&self) -> (r: Span)
        ensures
            r == self.span,
    {
        self.span
    }

    pub fn as_ref(this: &Self) -> (r: Spanned<&T>)
        ensures
            r.span == this.span,
            r.inner == &this.inner,
    {
        Spanned { inner: &this.inner, span: this.span }
    }

    pub fn map<U, F: FnOnce(T) -> U>(this: Self, f: F) -> (r: Spanned<U>)
        requires
            f.requires((this.inner,)),
        ensures
            r.span == this.span,
            f.ensures((this.inner,), r.inner),
    {
        let Spanned { span, inner } = this;
        Spanned { inner: f(inner), span }
    }
}

/// Attaches a span to any sized value.
pub trait WithSpan: Sized {
    fn at(self, span: Span) -> (r: Spanned<Self>)
        ensures
            r.span == span,
            r.inner == self,
    ;
}

impl<T> WithSpan for T {
    fn at(self, span: Span) -> (r: Spanned<Self>)
        ensures
            r.span == span,
            r.inner == self,
    {
        Spanned { inner: self, span }
    }
}

} // verus!
