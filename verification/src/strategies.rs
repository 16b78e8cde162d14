//! The strategies.

pub mod cross_dex_arb;
pub mod flash_jit;
pub mod liquidation;
pub mod rate_arb;
pub mod tri_arb;
