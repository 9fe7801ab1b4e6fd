//! Draws from the thread-local random number generator.
//!
//! The raw draw is the only outside call the library makes; everything
//! derived from it is verified for every possible draw.

use vstd::prelude::*;

use crate::fx::{Fx, SCALE};

verus! {

/// Relies on rand::random: one draw from the thread-local generator.
/// Nothing is promised of a random value.
pub assume_specification<T>[ rand::random::<T> ]() -> (r: T)
    where
        rand::distributions::Standard: rand::distributions::Distribution<T>,
;

/// A random axis index: 0, 1 or 2.
pub fn random_axis() -> (r: usize)
    ensures
        r < 3,
{
    let d: u64 = rand::random::<u64>();
    (d % 3) as usize
}

/// A random scalar in `[0, 1)`.
pub fn random_unit_scalar() -> (r: Fx)
    ensures
        0 <= r.v() < SCALE as int,
{
    let d: u64 = rand::random::<u64>();
    Fx::from_raw((d % 65536) as i64)
}

/// A random scalar in `[-1, 1]`.
pub fn random_symmetric_scalar() -> (r: Fx)
    ensures
        -(SCALE as int) <= r.v() <= SCALE as int,
{
    let d: u64 = rand::random::<u64>();
    Fx::from_raw((d % 131073) as i64 - 65536)
}

} // verus!
