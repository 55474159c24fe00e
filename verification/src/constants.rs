//! Limits and address seeds.

use vstd::prelude::*;

verus! {

/// The most roots a distributor can hold.
pub const MAX_ROOTS: usize = 10;

/// The seed of the distributor's address.
pub const DISTRIBUTOR_SEED: [u8; 11] = [100, 105, 115, 116, 114, 105, 98, 117, 116, 111, 114];

/// The seed of the bitmap's address.
pub const BITMAP_SEED: [u8; 6] = [98, 105, 116, 109, 97, 112];

/// The bytes set aside for the bitmap when it is created. The bitmap grows
/// past them on demand.
pub const INITIAL_BITMAP_CAPACITY: usize = 1024;

/// The bytes by which every stored record is prefixed.
pub const DISCRIMINATOR_SIZE: usize = 8;

} // verus!
