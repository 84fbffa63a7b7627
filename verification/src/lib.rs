//! A proxy for OpenAI-compatible HTTP and server-sent-event interfaces that
//! abandons an upstream attempt which is slow to answer, or slow to produce its
//! first token, and tries again before the client has seen anything.
//!
//! This crate decides: what to forward, when to give up, when to commit, and
//! what to record. Reading, sending and storing are left to the program around it.

pub mod admin;
pub mod config;
pub mod decimal;
pub mod error;
pub mod interop;
pub mod json;
pub mod observability;
pub mod proxy;
pub mod recording;
pub mod runtime;
pub mod storage;
pub mod text;
