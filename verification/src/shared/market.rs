//! Pools, borrowers and pending swaps, as far as the strategies look at them.

use crate::double::Double;
use crate::shared::address::Address;
use crate::u256::U256;
use vstd::prelude::*;

verus! {

/// The exchanges.
#[derive(Clone, Copy, Debug, PartialEq, Eq, Structural)]
pub enum DexType {
    Aerodrome,
    UniswapV3,
}

/// The state of a pool of two tokens.
#[derive(Clone, Copy, Debug)]
pub struct PoolState {
    pub address: Address,
    pub token0: Address,
    pub token1: Address,
    pub fee_bps: u32,
    pub dex: DexType,
    /// What the pool holds of its first token.
    pub reserve0: U256,
}

/// A pool and its price: what one unit of its first token costs in units of the second one.
#[derive(Clone, Copy, Debug)]
pub struct PoolQuote {
    pub pool: PoolState,
    pub price: Double,
}

/// What the lenders of a token hold of it.
#[derive(Clone, Copy, Debug)]
pub struct Balances {
    pub balancer: U256,
    pub morpho: U256,
}

/// What the best size of an arbitrage is worked out from: the reserves of the borrowed token in
/// both pools, the fees of both pools, and the greatest share of a reserve, in percent.
#[derive(Clone, Copy, Debug)]
pub struct ArbSizing {
    pub reserve_buy: U256,
    pub reserve_sell: U256,
    pub fee_buy: u32,
    pub fee_sell: u32,
    pub most_percent: u64,
}

/// The lending protocols.
#[derive(Clone, Copy, Debug, PartialEq, Eq, Structural)]
pub enum LendingProtocol {
    Morpho,
    Aave,
}

/// A borrower's position.
pub struct BorrowPosition {
    pub protocol: LendingProtocol,
    pub borrower: Address,
    pub collateral_asset: Address,
    pub debt_asset: Address,
    pub debt_amount: U256,
    /// The encoded parameters of the market, where the protocol has markets.
    pub morpho_market_params: Vec<u8>,
}

/// A swap that waits for its block.
pub struct PendingSwap {
    pub pool: Address,
    pub token_in: Address,
    pub token_out: Address,
    pub fee: u32,
    pub amount_in: U256,
    pub amount_usd: Double,
    pub zero_for_one: bool,
    /// The signed transaction.
    pub raw_tx: Vec<u8>,
    pub block_number: u64,
}

/// What a simulation foresees.
#[derive(Clone, Copy, Debug)]
pub struct SimResult {
    pub profit_usd: Double,
    pub gas_estimate: u64,
    /// The least profit that the contract accepts.
    pub min_profit_wei: U256,
}

} // verus!
