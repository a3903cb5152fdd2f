//! Verified core of a scheduled multi-source market-data ingestion pipeline.
//!
//! The crate covers the job/scheduler machinery, the bounded-retry execution
//! policy, the order-preserving fan-out fetch stage, the derived-metric and
//! trailing-average computations, and the idempotent keyed upsert store.
//! Network and database I/O live outside this crate; the functions here take
//! the fetched values as arguments and say exactly what is computed from them.

pub mod clock;
pub mod cycle;
pub mod dashboard;
pub mod date;
pub mod fanout;
pub mod fixed;
pub mod metrics;
pub mod parse;
pub mod retry;
pub mod schedule;
pub mod store;
pub mod symbol;
pub mod worker;
