//! Batched backfill of embeddings for stored text records.
//!
//! The crate holds the decisions of the backfill loop and a model of the
//! record store against which the loop's guarantees are stated. Fetching,
//! encoding and writing are performed by the caller, who feeds the outcome of
//! each back into the loop.

pub mod record;
pub mod pairing;
pub mod driver;
pub mod store;
pub mod laws;
