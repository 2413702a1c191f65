//! Verified core of a Revolut X trading client for the LTC/USD pair.

pub mod text;
pub mod api;
pub mod json;
pub mod auth;
pub mod cli;
pub mod state;
