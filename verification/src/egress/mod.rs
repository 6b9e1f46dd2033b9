//! Outbound traffic: addresses, allowlists, name resolution, packet rules.

pub mod addr;
pub mod allocator;
pub mod allowlist;
pub mod config;
pub mod dns;
pub mod endpoints;
pub mod net;
pub mod netns;
pub mod nft;
pub mod ruleset;
pub mod state;
