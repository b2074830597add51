//! Core of a stdio-driven agent supervisor: a byte-bounded line buffer,
//! a registry of supervised agent processes with lifetime metrics, the
//! request framing and routing rules of the wire protocol, and the
//! summarizer backends' shared text handling.

pub mod config;
pub mod dispatch;
pub mod errors;
pub mod framing;
pub mod manager;
pub mod model;
pub mod summarize;
