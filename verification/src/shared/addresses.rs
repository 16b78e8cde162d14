//! The addresses of the chain that the engine works with.

use vstd::prelude::*;

verus! {

/// Contracts and markets, as they are written down: an address as hexadecimal text, a market as
/// the sixty-four digits of its identifier, all zero where it is not known yet.
pub struct Addresses {
    pub usdc: String,
    pub weth: String,
    pub cbeth: String,
    pub wsteth: String,
    pub cbbtc: String,
    pub morpho_blue: String,
    pub multicall3: String,
    pub aerodrome_router: String,
    pub uniswap_v3_router: String,
    pub aave_v3_pool_proxy: String,
    pub chainlink_eth_usd: String,
    pub chainlink_cbbtc_usd: String,
    pub morpho_market_usdc_weth: String,
    pub morpho_market_weth_usdc: String,
    pub morpho_market_cbeth_usdc: String,
    pub morpho_market_cbbtc_usdc: String,
    pub morpho_market_wsteth_usdc: String,
}

} // verus!
