//! Preconfirmation markets and the orders that are won on them.
pub mod api;
pub mod bundle;
pub mod client;
pub mod config;
pub mod error;
pub mod info;
