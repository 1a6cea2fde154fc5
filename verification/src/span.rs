//! `Span` and `Spanned`: a span is a half-open range of byte offsets locating
//! a token or line fragment within its source line.

use vstd::prelude::*;

verus! {

/// The ghost image of a `Span`: the same pair of offsets, as mathematical
/// integers.
pub ghost struct SpanView {
    pub lo: int,
    pub hi: int,
}

/// A half-open region `[lo, hi)` of byte offsets in the source text.
#[derive(Debug, Clone, Copy, PartialEq, Eq, Structural)]
pub struct Span {
    /// Start of the span, inclusive.
    pub lo: usize,
    /// End of the span, exclusive.
    pub hi: usize,
}

impl View for Span {
    type V = SpanView;

    open spec fn view(&self) -> SpanView {
        SpanView { lo: self.lo as int, hi: self.hi as int }
    }
}

impl DeepView for Span {
    type V = SpanView;

    open spec fn deep_view(&self) -> SpanView {
        self.view()
    }
}

impl Span {
    /// A span is well formed when its end does not precede its start.
    pub open spec fn wf(self) -> bool {
        self.lo <= self.hi
    }

    pub fn new(lo: usize, hi: usize) -> (s: Self)
        requires
            lo <= hi,
        ensures
            s == (Span { lo, hi }),
            s.wf(),
    {
        Span { lo, hi }
    }

    /// Returns how many bytes this span covers.
    pub fn len(&self) -> (n: usize)
        requires
            self.wf(),
        ensures
            n == self.hi - self.lo,
    {
        self.hi - self.lo
    }
}

/// The ghost image of a `Spanned` value: the image of the value paired with
/// the image of its span.
#[verifier::ext_equal]
pub ghost struct SpannedView<V> {
    pub data: V,
    pub span: SpanView,
}

/// Wraps any value and pairs it with the span it occupied in the source.
#[derive(Debug, Clone, Copy)]
pub struct Spanned<T> {
    pub data: T,
    pub span: Span,
}

impl<T: View> View for Spanned<T> {
    type V = SpannedView<T::V>;

    open spec fn view(&self) -> SpannedView<T::V> {
        SpannedView { data: self.data.view(), span: self.span.view() }
    }
}

impl<T: DeepView> DeepView for Spanned<T> {
    type V = SpannedView<T::V>;

    open spec fn deep_view(&self) -> SpannedView<T::V> {
        SpannedView { data: self.data.deep_view(), span: self.span.view() }
    }
}

} // verus!
