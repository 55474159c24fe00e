//! The persistent records: the distributor and its claim bitmap.

pub mod config;

pub use config::{ClaimBitmap, DistributorView, MerkleDistributor};
