//! A verified core for a query-to-JSON service: a dynamic result-set
//! projector that turns rows of untyped cells into JSON records, and a
//! bounded connection-pool model that arbitrates exclusive access to a
//! fixed number of backend connections.
//!
//! Text is carried as UTF-8 bytes (`Vec<u8>`) throughout, so that every
//! contract can speak of plain byte sequences.

pub mod json;
pub mod pool;
pub mod project;
pub mod rowset;
pub mod serve;
pub mod typed;
