//! A line-delimited JSON-RPC protocol engine.
//!
//! The crate frames newline-delimited JSON messages, dispatches each request
//! to a small set of named operations, and emits well-formed responses or
//! structured errors, tolerating malformed input without ending the session.

pub mod json;
pub mod parse;
pub mod text;
pub mod docs;
pub mod tools;
pub mod codec;
pub mod protocol;
pub mod laws;
pub mod roundtrip;
