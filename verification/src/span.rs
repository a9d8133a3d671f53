//! Source spans
use vstd::prelude::*;

verus! {

/// A range of byte offsets into the source text.
pub type Span = core::ops::Range<usize>;

/// A value together with the span of source text it came from.
pub type Spanned<T> = (T, Span);

} // verus!
