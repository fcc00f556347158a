use std::sync::Arc;
use vstd::prelude::*;

verus! {

/// A byte range of the source text: `len` bytes starting at `index`.
#[derive(Debug, Clone, Copy, PartialEq, Eq, Structural, Default)]
pub struct SpanIndex {
    pub index: usize,
    pub len: usize,
}

/// A shared value together with the source range it was read from.
#[derive(Debug)]
pub struct Span<T> {
    pub inner: Arc<T>,
    pub location: SpanIndex,
}

/// A second handle on the same shared value.
#[verifier::external_body]
fn share<T>(a: &Arc<T>) -> (r: Arc<T>)
    ensures
        r == *a,
{
    Arc::clone(a)
}

/// The range that starts where `a` starts and ends where `b` ends
/// (`b` is expected to start no earlier than `a`).
pub open spec fn spec_join(a: SpanIndex, b: SpanIndex) -> SpanIndex {
    SpanIndex { index: a.index, len: (b.index - a.index + a.len) as usize }
}

impl SpanIndex {
    /// Joins two ranges: the result starts at `self.index` and its length is
    /// `rhs.index - self.index + self.len`.
    pub fn add(self, rhs: SpanIndex) -> (r: SpanIndex)
        requires
            self.index <= rhs.index,
            rhs.index - self.index + self.len <= usize::MAX,
        ensures
            r == spec_join(self, rhs),
    {
        SpanIndex { index: self.index, len: rhs.index - self.index + self.len }
    }
}

impl<T> Span<T> {
    /// Wraps `inner` with its source range.
    pub fn new(inner: T, location: SpanIndex) -> (s: Span<T>)
        ensures
            *s.inner == inner,
            s.location == location,
    {
        Span { inner: Arc::new(inner), location }
    }

    /// Replaces the value by `f` applied to it, keeping the source range.
    pub fn map<U, F: FnOnce(Arc<T>) -> U>(self, f: F) -> (s: Span<U>)
        requires
            f.requires((self.inner,)),
        ensures
            f.ensures((self.inner,), *s.inner),
            s.location == self.location,
    {
        let location = self.location;
        Span::new(f(self.inner), location)
    }

    /// A second span on the same shared value and range.
    pub fn duplicate(&self) -> (s: Span<T>)
        ensures
            s == *self,
    {
        Span { inner: share(&self.inner), location: self.location }
    }
}

/// Mapping with a function that gives back the value it is handed keeps
/// the span as it was: any `t` that `s.map(f)` may give (by the contract
/// of `map`) holds the value of `s` at the range of `s`.
pub proof fn lemma_map_identity<T, F: FnOnce(Arc<T>) -> T>(s: Span<T>, f: F, t: Span<T>)
    requires
        forall|a: Arc<T>, r: T| #[trigger] f.ensures((a,), r) ==> r == *a,
        f.ensures((s.inner,), *t.inner),
        t.location == s.location,
    ensures
        *t.inner == *s.inner,
        t.location == s.location,
{
}

/// Mapping twice is mapping once with the composition: if `u` is what
/// `s.map(f)` may give and `w` what `u.map(g)` may give, then `w` is at the
/// range of `s` and holds what `g` may give for a value `f` may give for
/// the value of `s`.
pub proof fn lemma_map_compose<T, U, V, F: FnOnce(Arc<T>) -> U, G: FnOnce(Arc<U>) -> V>(
    s: Span<T>,
    f: F,
    u: Span<U>,
    g: G,
    w: Span<V>,
)
    requires
        f.ensures((s.inner,), *u.inner),
        u.location == s.location,
        g.ensures((u.inner,), *w.inner),
        w.location == u.location,
    ensures
        w.location == s.location,
        exists|m: Arc<U>| f.ensures((s.inner,), *m) && #[trigger] g.ensures((m,), *w.inner),
{
    assert(f.ensures((s.inner,), *u.inner) && g.ensures((u.inner,), *w.inner));
}

} // verus!
