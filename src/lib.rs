//! A write-throughput benchmark for an embedded SQLite database: it sets the
//! journal and synchronous modes, creates one two-column table and fills it
//! with numbered rows in fixed-size transactions.
//!
//! The rows that a run writes are modelled in `rows`, and the statements it
//! hands to the engine are built in `sql`. `engine` holds the connection with
//! a ghost log of every call made on it and its outcome, and reads from that
//! log what the table holds. `bench` is the benchmark session, whose
//! contracts speak of that log.

pub mod rows;
pub mod sql;
pub mod engine;
pub mod bench;
