//! The operations on a distributor, one file each.
//!
//! Every operation takes the records it works on, the addresses that were
//! presented with the call and the current time, and decides: it rejects the
//! call and leaves the records as they are, or it updates them and hands back
//! the audit record and, where funds move, the transfer to carry out.

pub mod add_root;
pub mod claim;
pub mod initialize_distributor;
pub mod update_authority;
pub mod withdraw;

pub use add_root::{add_root, AddRoot};
pub use claim::{claim, Claim};
pub use initialize_distributor::{initialize_distributor, InitializeDistributor};
pub use update_authority::{update_authority, UpdateAuthority};
pub use withdraw::{withdraw, Withdraw};
