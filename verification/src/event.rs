//! The event model: one record per analysis/resolution step emitted by the
//! compiler, located in the original input text by a half-open byte span.

use vstd::prelude::*;

verus! {

/// A half-open byte range `[low, high)` locating an event in the original
/// source text.
#[derive(Debug, Clone, Copy, PartialEq, Eq, Structural)]
pub struct Span {
    pub low: u64,
    pub high: u64,
}

/// One compiler trace event.
///
/// The graph core never inspects the payload of an outcome; only whether an
/// `ok` or an `error` outcome was recorded matters, so the payloads are kept
/// as opaque numeric markers. An event with neither outcome set is a
/// no-result (pass-through) event, eligible for contraction.
#[derive(Debug, Clone, Copy, PartialEq, Eq)]
pub struct Event {
    /// Identifier of this event, stable within one trace. Ids are not
    /// required to be unique; lookups by id take the first match in the
    /// event array.
    pub id: u64,
    /// Identifier of an explicitly known structural parent, if any.
    pub parent_id: Option<u64>,
    /// Where this event lives in the original input text.
    pub source: Span,
    /// A span that this event consulted during resolution, if any.
    pub ref_span: Option<Span>,
    /// Success outcome marker, if the step produced a value.
    pub ok: Option<u64>,
    /// Failure outcome marker, if the step produced an error.
    pub error: Option<u64>,
}

/// The span `outer` encloses the span `inner`.
pub open spec fn span_contains(outer: Span, inner: Span) -> bool {
    outer.low <= inner.low && inner.high <= outer.high
}

/// An event with neither a success nor an error outcome recorded.
pub open spec fn is_no_result(e: Event) -> bool {
    e.ok is None && e.error is None
}

/// Returns true if `a`'s span contains `b`'s span.
pub fn contains(a: &Event, b: &Event) -> (r: bool)
    ensures
        r == span_contains(a.source, b.source),
{
    let a_s = a.source;
    let b_s = b.source;
    a_s.low <= b_s.low && b_s.high <= a_s.high
}

} // verus!
