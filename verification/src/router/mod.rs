//! Requests from outside: which app they are for and how they are passed on.

pub mod config;
pub mod forward;
pub mod headers;
pub mod host;
pub mod splice;
