//! Ingests telemetry published on a message bus: filtered subscriptions on topics, dispatch of each
//! inbound message to the matching callbacks, and decoding of power-reading batches.
use vstd::prelude::*;

pub mod filter;
pub mod manager;
pub mod delivery;
pub mod models;
pub mod options;

verus! {

/// Adds two integers.
pub fn add(a: i32, b: i32) -> (r: i32)
    requires
        i32::MIN <= a + b <= i32::MAX,
    ensures
        r == a + b,
{
    a + b
}

/// Multiplies two integers.
pub fn mult(a: i32, b: i32) -> (r: i32)
    requires
        i32::MIN <= a * b <= i32::MAX,
    ensures
        r == a * b,
{
    a * b
}

} // verus!
