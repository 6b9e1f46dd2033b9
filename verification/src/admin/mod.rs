//! The admin API: tokens, requests and how they are answered.

pub mod auth;
pub mod deploy_key;
pub mod error;
pub mod handlers;
pub mod secret;
