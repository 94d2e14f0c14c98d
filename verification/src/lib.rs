//! A verified escrow ledger: funds for a single order are locked in custody
//! and later released to the payee, refunded to the payer, or split between
//! the two, according to explicit lifecycle rules and a 24-hour timeout.
//!
//! `escrow` holds the record, status and error types; `model` the
//! mathematical view of the two stores; `ledger` the registry, the balance
//! book and the five lifecycle operations; `laws` the proved guarantees that
//! relate them.

pub mod escrow;
pub mod laws;
pub mod ledger;
pub mod model;
