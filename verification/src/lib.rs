#![verifier::loop_isolation(false)]
//! Client-side core of an open-banking aggregation tool: the application
//! token lifecycle (issuance, expiry, refresh eligibility, persistence) and
//! the single-shot local callback handshake used for bank consent.
//!
//! Everything here is plain data and logic; network and file I/O live in the
//! surrounding binary, which feeds results of those operations into the
//! functions of this crate.

pub mod authorize;
pub mod bank;
pub mod cli;
pub mod config;
pub mod flow;
pub mod http_cb;
pub mod state;
pub mod store;
pub mod text;
