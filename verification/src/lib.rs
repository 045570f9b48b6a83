//! A discrete-time compartmental simulation engine.
//!
//! Named buckets hold non-negative integer quantities; behaviours attached to
//! a bucket move quantity into target buckets once per simulated tick. The
//! engine performs deterministic, synchronous, fixed-step updates: buckets are
//! processed in the order they were added to the model, and within a bucket
//! its behaviours run in attachment order.

pub mod engine;
pub mod history;
pub mod laws;
pub mod rate;
