//! What the strategies share.

pub mod abi;
pub mod address;
pub mod addresses;
pub mod flash_loan;
pub mod health_factor;
pub mod json;
pub mod market;
pub mod position_store;
pub mod rate_feed;
pub mod submission;
pub mod table;
pub mod text;
