//! The clock, and what the pool asks of a span of time.

use std::time::Duration;
use tokio::time::Instant;
use vstd::prelude::*;

verus! {

/// `tokio::time::Instant`: a moment on the clock, carried along unread.
#[verifier::external_type_specification]
#[verifier::external_body]
pub struct ExInstant(tokio::time::Instant);

/// Whether a span of time is empty, as `Duration::is_zero` tells.
pub uninterp spec fn zero_span(span: Duration) -> bool;

/// `Duration::is_zero`: whether the span covers no time at all.
#[verifier::external_body]
pub(crate) fn is_zero(span: &Duration) -> (zero: bool)
    ensures
        zero == zero_span(*span),
{
    span.is_zero()
}

/// `Instant::now`: the moment of the call. Nothing is known of it.
#[verifier::external_body]
pub(crate) fn now() -> Instant {
    Instant::now()
}

/// `Instant::elapsed`: the time that has passed since `start`. Nothing is
/// known of it.
#[verifier::external_body]
pub(crate) fn elapsed(start: &Instant) -> Duration {
    start.elapsed()
}

/// The whole microseconds in a span of time, as `Duration::as_micros` tells.
pub uninterp spec fn span_micros(span: Duration) -> u128;

/// `Duration::as_micros`: the number of whole microseconds in the span.
#[verifier::external_body]
pub(crate) fn as_micros(span: &Duration) -> (micros: u128)
    ensures
        micros == span_micros(*span),
{
    span.as_micros()
}

} // verus!
