//! A small credit-decisioning library.
//!
//! The library ingests a client's transaction history, aggregates revenue by
//! month, derives a lending capacity from the average monthly revenue, and
//! decides loan applications against that capacity.  All money amounts are
//! held in integer cents (hundredths of the currency unit).

pub mod arith;
pub mod loan;
pub mod portfolio;
pub mod scoring;
pub mod state;
