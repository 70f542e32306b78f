//! A limit-order matching engine with pre-trade risk gating and a
//! two-sided position ledger, with its behaviour stated and proved.
pub mod audit;
pub mod book;
pub mod config;
pub mod engine;
pub mod error;
pub mod laws;
pub mod ledger;
pub mod metrics;
pub mod rate_limiter;
pub mod risk;
pub mod service;
pub mod text;
pub mod types;
