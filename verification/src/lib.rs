//! A small zero-knowledge virtual machine toolkit: a compiler from a tiny
//! expression language to register instructions, an RV32-style execution
//! engine that records a full execution trace, the stand-in commitment and
//! proof primitives that consume such traces, and the pure parts of the
//! services around them (job records, storage keys, security records).

pub mod primitives;
pub mod fri;
pub mod plonkish;
pub mod prover;
pub mod models;
pub mod text;
pub mod runtime;
pub mod compiler;
pub mod semantics;
pub mod security;
pub mod storage;
pub mod jobs;
pub mod webhooks;
pub mod client;
