//! Decision core of Corvus, a flash-loan engine for Base Mainnet.

use vstd::prelude::*;

pub mod circuit;
pub mod config;
pub mod double;
pub mod engine;
pub mod monitoring;
pub mod shared;
pub mod strategies;
pub mod u256;

verus! {

} // verus!
