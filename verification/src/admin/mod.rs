//! The pages that configure the proxy and show what it did.

pub mod auth;
pub mod handlers;
