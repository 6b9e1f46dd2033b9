//! Apps: their lifecycle, their registry, and the operations on them.

pub mod boot;
pub mod deploy;
pub mod error;
pub mod handle;
pub mod mempressure;
pub mod probe;
pub mod pull;
pub mod registry;
pub mod resolve;
pub mod rollout;
pub mod start;
pub mod store;
pub mod sweep;
pub mod update;
pub mod view;
