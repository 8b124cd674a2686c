//! A verified transaction ledger engine.
//!
//! The engine ingests an ordered stream of financial transaction records
//! (deposit, withdrawal, dispute, resolve, chargeback) keyed by client and
//! transaction identifiers, and maintains per-client balance state with
//! duplicate and reference-integrity checks and a dispute lifecycle.

pub mod amount;
pub mod errors;
pub mod input;
pub mod laws;
pub mod model;
pub mod render;
pub mod tx_engine;
pub mod types;
