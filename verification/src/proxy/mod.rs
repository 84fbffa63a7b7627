//! Forwarding requests to the upstream.

pub mod attempt;
pub mod body;
pub mod direct;
pub mod errors;
pub mod gate;
pub mod headers;
pub mod relay;
pub mod routes;
pub mod semantic_token;
pub mod sse;
pub mod upstream;
