//! A limit-order matching engine for a single market: two price-time ordered
//! book sides, a bounded event queue, and the matching, cancellation and
//! bulk-replace operations that tie them together, with the account rules
//! that guard them.

pub mod types;
pub mod order;
pub mod book_side;
pub mod event_queue;
pub mod position;
pub mod matching;
pub mod orderbook;
pub mod account;
pub mod instructions;
pub mod accounts_ix;
pub mod laws;
pub mod account_fetcher;
