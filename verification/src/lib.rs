//! Message-observation and deduplication engine for a web chat interface.
//!
//! The engine repeatedly samples snapshots of an externally controlled DOM,
//! extracts structured message records, and decides which of them are
//! genuinely new, under bounded memory.  A separate dispatcher models the
//! ordered UI protocol for sending an outgoing message.

pub mod dispatch;
pub mod engine;
pub mod extract;
pub mod fingerprint;
pub mod record;
pub mod store;
