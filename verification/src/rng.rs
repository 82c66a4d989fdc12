//! The source of fresh keys: a uniformly distributed random 128-bit draw.
use vstd::prelude::*;

verus! {

/// Relies on `rand::random`: draws a 128-bit value from the thread-local
/// generator. Nothing is promised of the draw; collisions with live keys are
/// only statistically improbable, and the caller's contract must hold for
/// every outcome.
#[verifier::external_body]
pub(crate) fn random_key() -> u128 {
    rand::random()
}

} // verus!
