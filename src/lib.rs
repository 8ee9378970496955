//! A merkle-tree airdrop distributor: the commitment tree over recipient
//! allocations, the linear vesting schedule, and the claim accounting rules.

pub mod hash;
pub mod merkle;
pub mod tree;
pub mod airdrop;
pub mod vesting;
pub mod state;
pub mod claim;
pub mod admin;
pub mod args;
pub mod csv;
pub mod pda;
