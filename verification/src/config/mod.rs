//! What an operator writes down: app specs and registry credentials.

pub mod auth;
pub mod duration;
pub mod path;
pub mod spec;
pub mod validate;
