//! The logic of a single-host container platform: app specs, their lifecycle,
//! the admin interface, request routing and outbound traffic.

pub mod admin;
pub mod apps;
pub mod cli;
pub mod config;
pub mod daemon;
pub mod egress;
pub mod namemap;
pub mod number;
pub mod router;
pub mod text;
