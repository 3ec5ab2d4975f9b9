//! Core of a feed-notifier agent: normalized feed entries, the order in
//! which they are dispatched, deduplication against a durable read-state
//! store, and the store's line format.
pub mod entry;
pub mod textfmt;
pub mod store;
pub mod aggregate;
pub mod feed;
pub mod config;
pub mod dispatch;
pub mod driver;
pub mod laws;
