//! An exchange for influencer stocks: a fixed supply of shares is sold in
//! one ascending auction, then traded on a price-time priority order book.
//! Every operation is a verified state transition of `market::Market`; the
//! payments it asks the host to make come back as plain values.

pub mod auction;
pub mod book;
pub mod ledger;
pub mod market;
pub mod msg;
pub mod orders;
pub mod queries;
pub mod rank;
pub mod trade;
pub mod types;
