//! Client-side logic for a remote application-store HTTP API.
//!
//! The library builds the exact requests (URLs, headers, JSON bodies) that the
//! three store operations need, and interprets what comes back (status codes,
//! JSON listing bodies). It performs no I/O itself: a thin caller owns the
//! transport and hands bodies and status codes in as plain values.

pub mod error;
pub mod json;
pub mod laws;
pub mod listing;
pub mod models;
pub mod parse;
pub mod publish;
