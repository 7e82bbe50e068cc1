//! Owner tokens that tie handles to the builder or runtime that issued them.

use vstd::prelude::*;

use std::collections::hash_map::RandomState;

verus! {

/// `RandomState::new` from std: a fresh hasher seed. std documents that the
/// keys are random per thread and advance on every call, so nothing is
/// promised about the value.
#[verifier::external_body]
fn new_random_state() -> (r: RandomState) {
    RandomState::new()
}

/// `BuildHasher::hash_one` from std on the byte `0`: the digest depends on
/// the seed's hidden keys, so nothing is promised about the value.
#[verifier::external_body]
fn hash_zero(state: &RandomState) -> (r: u64) {
    std::hash::BuildHasher::hash_one(state, 0u8)
}

/// A fresh owner token: a randomly seeded hash, never the value `u64::MAX`
/// that runtimes reserve as invalid. Tokens from distinct calls differ with
/// overwhelming probability.
pub(crate) fn fresh_token() -> (t: u64)
    ensures
        t != u64::MAX,
{
    let state = new_random_state();
    let h = hash_zero(&state);
    if h == u64::MAX {
        0
    } else {
        h
    }
}

/// A fresh owner token other than `avoid`: the fresh token, moved off
/// `avoid` when it lands on it, so that two runtimes bound side by side
/// never share an owner.
pub(crate) fn fresh_token_besides(avoid: u64) -> (t: u64)
    ensures
        t != u64::MAX,
        t != avoid,
{
    let t = fresh_token();
    if t != avoid {
        t
    } else if avoid == 0 {
        1
    } else {
        0
    }
}

} // verus!
