//! Extraction of negotiated prices from a machine readable transparency file.
//!
//! The document is walked event by event against a query of provider
//! identifiers and billing codes; every matching price becomes one row of text.

pub mod asa;
pub mod cli;
pub mod emit;
pub mod error;
pub mod event;
pub mod frame;
pub mod input;
pub mod laws;
pub mod network;
pub mod notices;
pub mod prices;
pub mod providers;
pub mod query;
pub mod rates;
pub mod records;
pub mod reversal;
pub mod skip;
pub mod text;
pub mod walk;
