//! A local semantic index for growing conversation logs: a resumable
//! ingestion-state tracker, a flat vector index with exhaustive
//! nearest-neighbour search, and a per-source progress aggregator.
//!
//! Vector components are carried as IEEE-754 bit patterns (`u32`); the
//! floating-point arithmetic itself (normalisation, dot products) is done
//! by the embedding host around this library, which hands distances in as
//! order-preserving integer keys.

pub mod codec;
pub mod progress;
pub mod source;
pub mod state;
pub mod vector;
