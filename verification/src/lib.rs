//! Verified core of a model-pull client for an inference server: a
//! cancellation registry, an incremental line framer for newline-delimited
//! progress streams, and the pull orchestrator's state machine, together
//! with the text and endpoint helpers they share.

pub mod framer;
pub mod models;
pub mod pull;
pub mod registry;
pub mod settings;
pub mod text;
