//! Order-book maintenance for one instrument of a trading venue.
//!
//! The book is rebuilt from a full snapshot and kept current by incremental,
//! sequence-numbered updates. Every function of this crate is verified: each
//! contract is stated over a mathematical view of the data, and the few calls
//! into `rust_decimal` stand behind wrappers whose contracts are taken on
//! trust and documented as such.

pub mod decimal;
pub mod level;
pub mod level_laws;
pub mod midpoint;
pub mod book;
pub mod sync;
pub mod supervisor;
