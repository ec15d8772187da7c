pub mod currency;
pub mod decimal;
pub mod engine;
pub mod error;
pub mod transactions;
