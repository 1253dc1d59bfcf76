//! The calls that leave the verified code: random identifiers, the clocks,
//! and the capture of the current stack.

use vstd::prelude::*;
use crate::text::{hex_text, lemma_hex_text_len};

verus! {

/// Declares `std::time::SystemTime`, a calendar time that is carried from
/// the clock to the records and never looked into.
#[verifier::external_type_specification]
#[verifier::external_body]
pub struct ExSystemTime(std::time::SystemTime);

/// Declares `std::time::Instant`, the start of the engine's monotonic
/// clock.
#[verifier::external_type_specification]
#[verifier::external_body]
pub struct ExInstant(std::time::Instant);

/// Declares `sentry_core::protocol::Stacktrace`, a captured stack that is
/// carried into an exception record and never looked into.
#[verifier::external_type_specification]
#[verifier::external_body]
pub struct ExStacktrace(sentry_core::protocol::Stacktrace);

/// Calls `Uuid::new_v4` and hands out the identifier as a number. Trusted;
/// the identifier is random, so nothing is claimed of it. The call panics
/// where the system cannot supply random bytes.
#[verifier::external_body]
pub(crate) fn new_uuid() -> u128 {
    sentry_core::types::Uuid::new_v4().as_u128()
}

/// Calls `Uuid::from_u128` and formats the identifier with its simple
/// adapter. Trusted: the text is the identifier in 32 lower-case hexadecimal
/// digits, most significant first.
#[verifier::external_body]
fn uuid_simple_hex(id: u128) -> (text: String)
    ensures
        text@ == hex_text(id as nat, 32),
{
    sentry_core::types::Uuid::from_u128(id).to_simple_ref().to_string()
}

/// Calls `SystemTime::now`. Trusted; nothing is claimed of the time.
#[verifier::external_body]
pub(crate) fn wall_now() -> std::time::SystemTime {
    std::time::SystemTime::now()
}

/// Calls `Instant::now`. Trusted; nothing is claimed of the instant.
#[verifier::external_body]
pub(crate) fn instant_now() -> std::time::Instant {
    std::time::Instant::now()
}

/// Calls `Instant::elapsed` and hands out the nanoseconds since `anchor`.
/// Trusted; nothing is claimed of the reading.
#[verifier::external_body]
pub(crate) fn nanos_since(anchor: &std::time::Instant) -> u64 {
    anchor.elapsed().as_nanos() as u64
}

/// Calls `sentry_backtrace::current_stacktrace`. Trusted; nothing is claimed
/// of what was captured.
#[verifier::external_body]
pub(crate) fn capture_stack() -> Option<sentry_core::protocol::Stacktrace> {
    sentry_backtrace::current_stacktrace()
}

/// The form in which a span names its parent: the first 16 hexadecimal
/// digits of the parent's identifier.
pub open spec fn short_id(id: u128) -> Seq<char> {
    hex_text(id as nat, 32).subrange(0, 16)
}

/// Writes the short form of a span identifier.
pub fn short_span_id(id: u128) -> (text: String)
    ensures
        text@ == short_id(id),
{
    let full = uuid_simple_hex(id);
    proof {
        lemma_hex_text_len(id as nat, 32);
    }
    full.as_str().substring_char(0, 16).to_owned()
}

} // verus!
