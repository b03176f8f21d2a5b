//! A persistent counter library.
//!
//! The counter keeps a signed integer in memory and is designed to be
//! persisted as decimal text in a primary file with a periodically refreshed
//! backup file. This crate holds the verified core: the decimal encoding and
//! decoding of values, the counter state with its operations, the startup
//! recovery decisions, and the response shape of the service's handlers.
//! File, environment and network access live outside the library and hand it
//! plain values.

pub mod config;
pub mod counter;
pub mod numeral;
pub mod routes;
