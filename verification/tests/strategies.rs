use corvus::circuit::Breaker;
use corvus::config::{Config, SecretKey};
use corvus::double::Double;
use corvus::engine::{
    check_gas_reserve, current_prices, is_due, lending_pool_call, raise_spread, read_lending_pool,
    serves_pending_swaps, settle, Strategy,
};
use corvus::monitoring::metrics::{HealthAlert, Metrics};
use corvus::shared::address::Address;
use corvus::shared::addresses::Addresses;
use corvus::shared::flash_loan::{FlashError, FlashLoanRouter, FlashProvider};
use corvus::shared::health_factor::HealthFactorMonitor;
use corvus::shared::market::{
    Balances, BorrowPosition, DexType, LendingProtocol, PendingSwap, PoolQuote, PoolState, SimResult,
};
use corvus::shared::rate_feed::{RateFeed, RateSnapshot};
use corvus::shared::submission::SubmissionPipeline;
use corvus::strategies::cross_dex_arb::ArbStep;
use corvus::strategies::flash_jit::{worthwhile_profit, JitStep, RoundedTick, TickRange};
use corvus::strategies::liquidation::{min_profit_wei, LiquidationStep};
use corvus::strategies::rate_arb::{
    carry_assets, check_and_unwind_positions, closing_position, dynamic_leverage, note_least_health,
    open_assets, unwind_reason, CarryAsset, CarryError, CarrySim, DebtQuery, OpenStep, RateArbPosition,
    SkipReason, Unwind, UnwindReason, UnwindStep,
};
use corvus::strategies::tri_arb::{lookup_dex, Leg, Round, TriStep};
use corvus::u256::U256;
use ethers::types::H160;

fn d(x: f64) -> Double {
    Double { bits: x.to_bits() }
}

fn s(text: &str) -> String {
    String::from(text)
}

fn addr(n: u8) -> Address {
    [n; 20]
}

fn text(n: u8) -> String {
    format!("{:?}", H160([n; 20]))
}

fn config() -> Config {
    Config {
        ipc_path: s("/run/geth.ipc"),
        chain_id: 8453,
        executor_private_key: SecretKey::new(s("SECRET")),
        cold_wallet: s(""),
        flash_executor_address: text(0x23),
        balancer_vault: text(0x21),
        morpho_blue: text(0x22),
        aave_addresses_provider: text(0x25),
        aerodrome_factory: text(0x26),
        uniswap_v3_factory: text(0x27),
        min_profit_usd: d(5.0),
        min_arb_spread_bps: d(20.0),
        min_liquidation_profit_usd: d(10.0),
        min_jit_profit_usd: d(3.0),
        min_rate_spread_bps: d(50.0),
        max_gas_price_gwei: d(1.0),
        pool_min_liquidity_usd: d(1.0),
        pool_refresh_blocks: 1,
        active_phase: 1,
        eth_price_fallback_usd: d(3000.0),
        monitoring_gas_check_interval_blocks: 1,
        bootstrap_from_block: 1,
        revm_sim_gas_limit: 1,
        jit_min_swap_usd: d(1000.0),
        jit_enabled: false,
        priority_fee_multiplier: d(1.0),
        max_fee_base_multiplier: d(1.0),
        rpc_timeout_secs: 1,
        gas_estimate_safety_margin: d(1.15),
        min_profit_slippage_bps: 1,
        liquidation_swap_haircut: d(1.0),
        liquidation_safety_factor: d(1.0),
        liquidation_hf_threshold: d(1.0),
        rate_arb_close_spread_bps: d(10.0),
        rate_arb_close_hf: d(1.2),
        rate_arb_emergency_hf: d(1.1),
        rate_arb_max_hold_days: d(30.0),
        rate_arb_base_leverage: d(2.0),
        rate_arb_max_notional_usdc: 1_000_000,
        rate_arb_max_notional_weth: 3_000_000,
        rate_arb_max_breakeven_days: d(1.0),
        rate_arb_cbbtc_min_notional_usd: d(50_000.0),
        rate_arb_open_enabled: true,
        rate_arb_min_hold_blocks: 150,
        position_store_path: s("data/positions.json"),
        base_sequencer_rpc: s("https://sequencer"),
        builder_endpoints: vec![s("https://one"), s("https://two")],
        metrics_port: 9090,
        telegram_bot_token: s(""),
        telegram_chat_id: -1,
    }
}

fn f(x: Double) -> f64 {
    f64::from_bits(x.bits)
}

fn addresses() -> Addresses {
    Addresses {
        usdc: text(1),
        weth: text(2),
        cbeth: text(3),
        wsteth: text(4),
        cbbtc: text(5),
        morpho_blue: text(6),
        multicall3: text(7),
        aerodrome_router: text(0xa0),
        uniswap_v3_router: text(0xb0),
        aave_v3_pool_proxy: text(9),
        chainlink_eth_usd: text(10),
        chainlink_cbbtc_usd: text(11),
        morpho_market_usdc_weth: "0".repeat(64),
        morpho_market_weth_usdc: "0".repeat(64),
        morpho_market_cbeth_usdc: "0".repeat(64),
        morpho_market_cbbtc_usdc: "0".repeat(64),
        morpho_market_wsteth_usdc: "0".repeat(64),
    }
}

fn router() -> FlashLoanRouter {
    FlashLoanRouter::new(&config(), &addresses()).unwrap()
}

fn held(balancer: u64, morpho: u64) -> Balances {
    Balances { balancer: U256::from_u64(balancer), morpho: U256::from_u64(morpho) }
}

fn pool(dex: DexType, fee_bps: u32, reserve: u64) -> PoolState {
    PoolState {
        address: addr(0x31),
        token0: addr(0x32),
        token1: addr(0x33),
        fee_bps,
        dex,
        reserve0: U256::from_u64(reserve),
    }
}

fn sim(profit: f64) -> SimResult {
    SimResult { profit_usd: d(profit), gas_estimate: 321_000, min_profit_wei: U256::from_u64(77) }
}

fn profit_of(m: &Metrics, strategy: &str) -> Option<f64> {
    (0..m.strategy_profit.count())
        .map(|i| m.strategy_profit.entry(i))
        .find(|e| e.labels == vec![s(strategy)])
        .map(|e| f(e.total))
}

// The router.

#[test]
fn a_router_takes_the_configured_contracts() {
    let r = router();
    assert_eq!((r.balancer, r.morpho, r.executor, r.multicall), (addr(0x21), addr(0x22), addr(0x23), addr(7)));
}

#[test]
fn a_router_refuses_addresses_that_cannot_be_read() {
    let fault = |change: fn(&mut Config, &mut Addresses)| {
        let (mut cfg, mut all) = (config(), addresses());
        change(&mut cfg, &mut all);
        FlashLoanRouter::new(&cfg, &all).err()
    };
    assert_eq!(fault(|c, _| c.balancer_vault = s("1")), Some(FlashError::BadBalancerVault));
    assert_eq!(fault(|c, _| c.flash_executor_address = s("")), Some(FlashError::BadFlashExecutor));
    assert_eq!(fault(|c, _| c.morpho_blue = s("0xzz")), Some(FlashError::BadMorphoBlue));
    assert_eq!(fault(|_, a| a.multicall3 = s("?")), Some(FlashError::BadMulticall));
    assert_eq!(
        fault(|c, a| {
            c.morpho_blue = s("");
            c.flash_executor_address = s("");
            a.multicall3 = s("");
        }),
        Some(FlashError::BadFlashExecutor)
    );
}

// Arbitrage between two pools.

fn quote(dex: DexType, price: f64) -> Option<PoolQuote> {
    Some(PoolQuote { pool: pool(dex, 30, if dex == DexType::Aerodrome { 500 } else { 900 }), price: d(price) })
}

#[test]
fn pools_are_crossed_where_prices_differ() {
    let start = |ap: f64, up: f64| {
        ArbStep::start(&quote(DexType::Aerodrome, ap), &quote(DexType::UniswapV3, up), &config())
    };
    match start(100.0, 101.0) {
        ArbStep::Sizing { pools } => {
            assert_eq!((pools.buy.dex, pools.sell.dex), (DexType::Aerodrome, DexType::UniswapV3));
            assert_eq!(f(pools.spread_bps), ((100.0f64 - 101.0).abs() / 100.0) * 10_000.0);
            let z = pools.sizing();
            assert_eq!((z.reserve_buy.as_u128(), z.reserve_sell.as_u128()), (500, 900));
            assert_eq!((z.fee_buy, z.fee_sell, z.most_percent), (30, 30, 30));
        }
        _ => panic!("the prices are far apart"),
    }
    match start(101.0, 100.0) {
        ArbStep::Sizing { pools } => assert_eq!(pools.buy.dex, DexType::UniswapV3),
        _ => panic!("the prices are far apart"),
    }
    assert!(matches!(start(100.0, 100.19), ArbStep::Skipped));
    assert!(matches!(start(100.0, 100.21), ArbStep::Sizing { .. }));
    assert!(matches!(start(0.0, 1.0), ArbStep::Skipped));
    assert!(matches!(start(1.0, -0.0), ArbStep::Skipped));
    assert!(matches!(ArbStep::start(&None, &quote(DexType::UniswapV3, 1.0), &config()), ArbStep::Skipped));
    assert!(matches!(ArbStep::start(&quote(DexType::Aerodrome, 1.0), &None, &config()), ArbStep::Skipped));
}

#[test]
fn an_arbitrage_is_carried_through() {
    let cfg = config();
    let mut m = Metrics::new();
    let mut p = SubmissionPipeline::new(&cfg, 3);
    let lending = ArbStep::start(&quote(DexType::Aerodrome, 100.0), &quote(DexType::UniswapV3, 102.0), &cfg)
        .sized(U256::from_u64(50))
        .simulated(sim(5.0), &cfg);
    assert_eq!(lending.borrowed(), Some(addr(0x32)));
    let step = lending
        .lent(&mut m, &mut p, &router(), &addresses(), &held(100, 0));
    match &step {
        ArbStep::Signing { request, profit_usd } => {
            let expected = router()
                .build_cross_dex_arb(
                    &addresses(),
                    FlashProvider::Balancer,
                    U256::from_u64(50),
                    &quote(DexType::Aerodrome, 0.0).unwrap().pool,
                    &quote(DexType::UniswapV3, 0.0).unwrap().pool,
                    U256::from_u64(77),
                )
                .unwrap();
            assert_eq!(request.calldata, expected);
            assert_eq!((request.gas_limit, request.nonce, request.tip_mult), (321_000, 3, d(1.0)));
            assert_eq!(*profit_usd, d(5.0));
        }
        _ => panic!("the trade is worth making"),
    }
    assert_eq!(m.sim_results.entry(0).labels, vec![s("cross_dex_arb"), s("submitted")]);
    assert_eq!(m.trade_count, 0);
    assert!(matches!(step.sent(true, &mut m), ArbStep::Traded));
    assert_eq!((m.trade_count, m.submission_count), (1, 1));
    assert_eq!(profit_of(&m, "cross_dex_arb"), Some(5.0));
}

#[test]
fn an_arbitrage_is_given_up_where_it_does_not_pay() {
    let cfg = config();
    let start = || ArbStep::start(&quote(DexType::Aerodrome, 100.0), &quote(DexType::UniswapV3, 102.0), &cfg);
    assert!(matches!(start().sized(U256::zero()), ArbStep::Skipped));
    assert!(matches!(start().sized(U256::from_u64(1)).simulated(sim(4.99), &cfg), ArbStep::Skipped));
    let mut bad = addresses();
    bad.uniswap_v3_router = s("");
    let mut m = Metrics::new();
    let mut p = SubmissionPipeline::new(&cfg, 3);
    let failed = start()
        .sized(U256::from_u64(1))
        .simulated(sim(9.0), &cfg)
        .lent(&mut m, &mut p, &router(), &bad, &held(0, 0));
    assert!(matches!(failed, ArbStep::Failed { error: FlashError::BadRouter(DexType::UniswapV3) }));
    assert_eq!(m.sim_results.count(), 1);
    assert_eq!(p.submit(vec![], 1).nonce, 3);
    assert!(matches!(failed.sent(true, &mut m), ArbStep::Failed { .. }));
    assert_eq!(m.trade_count, 0);
}

// Circular arbitrage.

fn leg(dex: DexType, fee_bps: u32, rate: f64, fee_factor: f64) -> Leg {
    Leg { pool: pool(dex, fee_bps, fee_bps as u64 * 10), rate: d(rate), fee_factor: d(fee_factor) }
}

fn round(rate: f64, dex_types: [u8; 3]) -> Round {
    Round {
        tokens: [addr(1), addr(2), addr(3)],
        dex_types,
        first: leg(DexType::Aerodrome, 5, rate, 0.9995),
        second: leg(DexType::UniswapV3, 30, 2.0, 0.997),
        third: leg(DexType::Aerodrome, 100, 0.5, 0.99),
    }
}

#[test]
fn a_round_has_to_return_enough() {
    let ratio = |rate: f64| rate * 0.9995 * 2.0 * 0.997 * 0.5 * 0.99;
    let mut cfg = config();
    for floor in [0.0, 8.0, 20.0, 75.5, f64::NAN] {
        cfg.min_arb_spread_bps = d(floor);
        let mut rate = 1.0;
        while rate < 1.03 {
            let expected = !(ratio(rate) <= 1.0008) && !((ratio(rate) - 1.0) * 10_000.0 < floor);
            let step = TriStep::start(&Some(round(rate, [0, 1, 0])), &cfg);
            assert_eq!(matches!(step, TriStep::Sizing { .. }), expected);
            rate += 0.0005;
        }
    }
    assert!(matches!(TriStep::start(&None, &cfg), TriStep::Skipped));
    assert_eq!(lookup_dex(0), DexType::Aerodrome);
    assert_eq!(lookup_dex(1), DexType::UniswapV3);
    assert_eq!(lookup_dex(2), DexType::UniswapV3);
}

#[test]
fn a_round_is_carried_through() {
    let cfg = config();
    let mut m = Metrics::new();
    let mut p = SubmissionPipeline::new(&cfg, 8);
    let t = round(1.1, [0, 1, 0]);
    let (one, two) = corvus::strategies::tri_arb::sizings(&t.first, &t.second, &t.third);
    assert_eq!((one.reserve_buy.as_u128(), one.reserve_sell.as_u128(), one.most_percent), (50, 300, 20));
    assert_eq!((two.fee_buy, two.fee_sell, two.most_percent), (30, 100, 20));
    let step = TriStep::start(&Some(t), &cfg).sized(U256::from_u64(40), U256::from_u64(30));
    assert!(matches!(&step, TriStep::Simulating { amount, .. } if amount.as_u128() == 30));
    assert_eq!(step.borrowed(), None);
    let step = step.simulated(sim(6.0), &cfg);
    assert_eq!(step.borrowed(), Some(addr(1)));
    let step = step.lent(&mut p, &router(), &addresses(), &held(0, 100));
    match &step {
        TriStep::Signing { request, .. } => {
            let expected = router()
                .build_tri_arb(
                    &addresses(),
                    FlashProvider::Morpho,
                    [addr(1), addr(2), addr(3)],
                    [0, 1, 0],
                    [5, 30, 100],
                    [true, false, false],
                    U256::from_u64(30),
                    U256::from_u64(77),
                )
                .unwrap();
            assert_eq!(request.calldata, expected);
            assert_eq!((request.nonce, request.tip_mult), (8, d(1.0)));
        }
        _ => panic!("the round is worth making"),
    }
    assert!(matches!(step.sent(true, &mut m), TriStep::Traded));
    assert_eq!(profit_of(&m, "tri_arb"), Some(6.0));
    assert_eq!(m.submitted_total, 1);
}

#[test]
fn a_round_is_given_up_where_it_does_not_pay() {
    let cfg = config();
    let start = |dex: [u8; 3]| TriStep::start(&Some(round(1.1, dex)), &cfg);
    assert!(matches!(start([0, 1, 0]).sized(U256::zero(), U256::from_u64(3)), TriStep::Skipped));
    assert!(matches!(start([0, 1, 0]).sized(U256::from_u64(3), U256::zero()), TriStep::Skipped));
    let sized = start([0, 1, 0]).sized(U256::from_u64(3), U256::from_u64(4));
    assert!(matches!(sized.simulated(sim(1.0), &cfg), TriStep::Skipped));
    let mut p = SubmissionPipeline::new(&cfg, 8);
    let failed = start([0, 2, 0])
        .sized(U256::from_u64(3), U256::from_u64(4))
        .simulated(sim(7.0), &cfg)
        .lent(&mut p, &router(), &addresses(), &held(0, 0));
    assert!(matches!(failed, TriStep::Failed { error: FlashError::UnsupportedDex(2) }));
    assert_eq!(p.submit(vec![], 1).nonce, 8);
}

// Liquidation.

fn borrower() -> BorrowPosition {
    BorrowPosition {
        protocol: LendingProtocol::Aave,
        borrower: addr(0x51),
        collateral_asset: addr(0x52),
        debt_asset: addr(0x53),
        debt_amount: U256::from_u64(900),
        morpho_market_params: vec![],
    }
}

#[test]
fn the_least_profit_is_converted_to_wei() {
    let mut cfg = config();
    for min_usd in [-5.0, 0.0, 0.1, 10.0, 1e30, f64::NAN] {
        for eth in [0.0, 0.5, 1.0, 3000.0, f64::INFINITY, f64::NAN] {
            cfg.min_liquidation_profit_usd = d(min_usd);
            let wei = (min_usd.max(0.0) / f64::max(eth, 1.0)) * 1e18;
            let expected = wei.min(u128::MAX as f64) as u128;
            assert_eq!(min_profit_wei(&cfg, d(eth)).as_u128(), expected, "{} {}", min_usd, eth);
        }
    }
    cfg.min_liquidation_profit_usd = d(30.0);
    assert_eq!(min_profit_wei(&cfg, d(3000.0)).as_u128(), 10_000_000_000_000_000);
}

#[test]
fn a_liquidation_is_carried_through() {
    let cfg = config();
    let mut m = Metrics::new();
    let mut p = SubmissionPipeline::new(&cfg, 1);
    let step = LiquidationStep::start(borrower()).simulated(sim(10.0), &cfg).routed(vec![1, 2, 3]);
    assert_eq!(step.borrowed(), Some(addr(0x53)));
    let step = step.lent(&mut p, &router(), &addresses(), &cfg, &held(10, 10), d(2500.0));
    match &step {
        LiquidationStep::Signing { request, .. } => {
            let expected = router()
                .build_liquidation(
                    &addresses(),
                    &borrower(),
                    FlashProvider::Aave,
                    &vec![1, 2, 3],
                    U256::from_u64(4_000_000_000_000_000),
                )
                .unwrap();
            assert_eq!(request.calldata, expected);
            assert_eq!((request.gas_limit, request.nonce, request.tip_mult), (321_000, 1, d(2.5)));
        }
        _ => panic!("the liquidation is worth making"),
    }
    assert!(matches!(step.sent(true, &mut m), LiquidationStep::Traded));
    assert_eq!(profit_of(&m, "liquidation"), Some(10.0));
    assert!(matches!(LiquidationStep::start(borrower()).simulated(sim(9.99), &cfg), LiquidationStep::Skipped));
}

#[test]
fn no_trade_is_made_below_either_floor() {
    let mut cfg = config();
    cfg.min_profit_usd = d(50.0);
    let judged = |profit: f64, cfg: &Config| LiquidationStep::start(borrower()).simulated(sim(profit), cfg);
    assert!(matches!(judged(49.99, &cfg), LiquidationStep::Skipped));
    assert!(matches!(judged(50.0, &cfg), LiquidationStep::Routing { .. }));
    cfg.min_liquidation_profit_usd = d(60.0);
    assert!(matches!(judged(59.99, &cfg), LiquidationStep::Skipped));
    let profit = native_jit_profit(1e6, 3000, 1.15, 0, 0, 3000.0);
    let served = |cfg: &Config| worthwhile_profit(&swap(1e6, true), cfg, U256::zero(), 0, d(3000.0)).is_some();
    assert!(served(&cfg));
    cfg.min_profit_usd = d(profit + 1.0);
    assert!(!served(&cfg));
    cfg.min_profit_usd = d(profit);
    assert!(served(&cfg));
    cfg.min_jit_profit_usd = d(profit + 1.0);
    assert!(!served(&cfg));
}

#[test]
fn more_liquidity_never_raises_the_profit() {
    let mut cfg = config();
    cfg.min_jit_profit_usd = d(f64::NEG_INFINITY);
    cfg.min_profit_usd = d(f64::NEG_INFINITY);
    for usd in [0.0, -0.0, 12_345.678, 3e9, 1e307] {
        let mut last = f64::INFINITY;
        for liq in [0u128, 1, 2, 1_000_000, 1 << 60, u128::MAX] {
            let profit = worthwhile_profit(&swap(usd, true), &cfg, U256::from_u128(liq), 1_000_000, d(3000.0));
            let profit = f(profit.unwrap());
            assert!(profit <= last, "{} {}", usd, liq);
            last = profit;
        }
    }
}

#[test]
fn what_was_not_sent_leaves_no_trace() {
    let cfg = config();
    let mut m = Metrics::new();
    let mut p = SubmissionPipeline::new(&cfg, 1);
    let step = LiquidationStep::start(borrower()).simulated(sim(10.0), &cfg).routed(vec![1]);
    let step = step.lent(&mut p, &router(), &addresses(), &cfg, &held(10, 10), d(2500.0));
    assert!(matches!(step.sent(false, &mut m), LiquidationStep::Unsent));
    let step = TriStep::start(&Some(round(1.1, [0, 1, 0])), &cfg).sized(U256::from_u64(40), U256::from_u64(30));
    let step = step.simulated(sim(6.0), &cfg).lent(&mut p, &router(), &addresses(), &held(0, 100));
    assert!(matches!(step.sent(false, &mut m), TriStep::Unsent));
    let mut monitor = HealthFactorMonitor::new(addr(9));
    monitor.register_position(carry(1, 1.5, 0));
    let unwind = Unwind { pos: carry(1, 1.5, 0), reason: UnwindReason::LowHealth };
    let step = UnwindStep::start(unwind).replied(&None).close(&mut p, &router());
    assert!(matches!(step.sent(false, &mut monitor, &mut m), UnwindStep::Unsent));
    assert_eq!(monitor.get_rate_arb_positions().len(), 1);
    assert_eq!((m.trade_count, m.submission_count, m.submitted_total), (0, 0, 0));
    // The nonces are used up all the same.
    assert_eq!(p.submit(vec![], 1).nonce, 4);
}

#[test]
fn a_liquidation_needs_a_router() {
    let cfg = config();
    let mut bad = addresses();
    bad.uniswap_v3_router = s("");
    let mut p = SubmissionPipeline::new(&cfg, 1);
    let failed = LiquidationStep::start(borrower())
        .simulated(sim(10.0), &cfg)
        .routed(vec![])
        .lent(&mut p, &router(), &bad, &cfg, &held(10, 10), d(2500.0));
    assert!(matches!(failed, LiquidationStep::Failed { error: FlashError::BadRouter(DexType::UniswapV3) }));
    assert_eq!(p.submit(vec![], 1).nonce, 1);
}

// Liquidity for a single swap.

fn swap(usd: f64, zfo: bool) -> PendingSwap {
    PendingSwap {
        pool: addr(0x61),
        token_in: addr(0x62),
        token_out: addr(0x63),
        fee: 3000,
        amount_in: U256::from_u64(10_000),
        amount_usd: d(usd),
        zero_for_one: zfo,
        raw_tx: vec![0xaa, 0xbb],
        block_number: 99,
    }
}

fn native_jit_profit(usd: f64, fee: u32, margin: f64, liq: u128, gas_price: u128, eth: f64) -> f64 {
    let tier = fee as f64 / 1_000_000.0;
    let own = usd * 0.01;
    let existing = liq as f64;
    let share = if existing + own > 0.0 { own / (existing + own) } else { 1.0 };
    let fees = usd * tier * share;
    let gas = (580_000f64 * margin) as u64;
    let cost = gas as f64 * gas_price as f64 / 1e18 * eth;
    fees - 0.0 - cost
}

#[test]
fn the_profit_of_serving_a_swap_is_estimated() {
    let mut cfg = config();
    cfg.min_jit_profit_usd = d(f64::NEG_INFINITY);
    cfg.min_profit_usd = d(f64::NEG_INFINITY);
    for usd in [0.0, 12_345.678, 1e6, 3e9] {
        for liq in [0u128, 1, 1_000_000, u128::MAX] {
            for gas_price in [0u128, 1_000_000, 50_000_000_000] {
                let sw = swap(usd, true);
                let got = worthwhile_profit(&sw, &cfg, U256::from_u128(liq), gas_price, d(3123.45)).unwrap();
                let expected = native_jit_profit(usd, 3000, 1.15, liq, gas_price, 3123.45);
                assert_eq!(got.bits, expected.to_bits(), "{} {} {}", usd, liq, gas_price);
            }
        }
    }
}

#[test]
fn small_swaps_and_unknown_pools_are_not_served() {
    let cfg = config();
    assert!(matches!(JitStep::start(swap(9_999.0, true), &cfg), JitStep::Skipped));
    assert!(matches!(JitStep::start(swap(10_000.0, true), &cfg), JitStep::Ticks { .. }));
    let mut unknown = swap(1e6, true);
    unknown.pool = [0; 20];
    assert!(matches!(JitStep::start(unknown, &cfg), JitStep::Skipped));
}

#[test]
fn the_range_lies_between_both_ticks() {
    let cfg = config();
    let ending = RoundedTick { floor: -120, ceil: -60 };
    let current = RoundedTick { floor: 0, ceil: 60 };
    match JitStep::start(swap(1e6, true), &cfg).located(ending, current) {
        JitStep::Measuring { range, .. } => assert_eq!(range, TickRange { lower: -120, upper: 60 }),
        _ => panic!("the range is not empty"),
    }
    match JitStep::start(swap(1e6, false), &cfg).located(current, ending) {
        JitStep::Measuring { range, .. } => assert_eq!(range, TickRange { lower: -120, upper: 60 }),
        _ => panic!("the range is not empty"),
    }
    match JitStep::start(swap(1e6, false), &cfg).located(ending, current) {
        JitStep::Degenerate { range } => assert_eq!(range, TickRange { lower: 0, upper: -60 }),
        _ => panic!("the range is empty"),
    }
}

#[test]
fn a_swap_is_served() {
    let cfg = config();
    let mut m = Metrics::new();
    let mut p = SubmissionPipeline::new(&cfg, 2);
    let ending = RoundedTick { floor: -120, ceil: -60 };
    let current = RoundedTick { floor: 0, ceil: 60 };
    let step = JitStep::start(swap(1e6, true), &cfg)
        .located(ending, current)
        .measured(&cfg, None, 1_000_000, d(3000.0));
    let profit = native_jit_profit(1e6, 3000, 1.15, 0, 1_000_000, 3000.0);
    assert!(matches!(&step, JitStep::Lending { profit: x, .. } if x.bits == profit.to_bits()));
    assert_eq!(step.borrowed(), Some(addr(0x62)));
    let step = step.lent(&mut p, &router(), &addresses(), &held(1_000_000, 0), &None);
    match &step {
        JitStep::Signing { request, .. } => {
            let expected = router()
                .build_flash_jit(
                    &addresses(),
                    FlashProvider::Balancer,
                    &None,
                    addr(0x62),
                    addr(0x63),
                    3000,
                    -120,
                    60,
                    U256::from_u64(10_000),
                    profit as u64,
                    true,
                )
                .unwrap();
            assert_eq!(request.calldata, expected);
            assert_eq!((request.gas_limit, request.nonce, request.tip_mult), (500_000, 2, d(1.0)));
        }
        _ => panic!("the swap is worth serving"),
    }
    let step = step.signed(&[1, 2]);
    match &step {
        JitStep::Bundling { bundle, .. } => {
            let expected = corvus::shared::submission::build_bundle(&[1, 2], &[0xaa, 0xbb], 100);
            assert_eq!(bundle.call, expected.call);
            assert_eq!(bundle.digest, expected.digest);
        }
        _ => panic!("the transaction is signed"),
    }
    assert!(matches!(step.sent(true, &mut m), JitStep::Traded));
    assert_eq!(profit_of(&m, "flash_jit"), Some(profit));
    assert_eq!(m.submission_count, 0);
}

#[test]
fn a_swap_that_does_not_pay_is_not_served() {
    let cfg = config();
    let step = JitStep::start(swap(1e6, true), &cfg)
        .located(RoundedTick { floor: -60, ceil: 0 }, RoundedTick { floor: 0, ceil: 60 })
        .measured(&cfg, Some(U256::from_u128(u128::MAX)), 1_000_000, d(3000.0));
    assert!(matches!(step, JitStep::Skipped));
    let mut bad = addresses();
    bad.uniswap_v3_router = s("");
    let mut p = SubmissionPipeline::new(&cfg, 2);
    let failed = JitStep::start(swap(1e6, true), &cfg)
        .located(RoundedTick { floor: -60, ceil: 0 }, RoundedTick { floor: 0, ceil: 60 })
        .measured(&cfg, None, 0, d(3000.0))
        .lent(&mut p, &router(), &bad, &held(0, 0), &None);
    assert!(matches!(failed, JitStep::Failed { error: FlashError::BadRouter(DexType::UniswapV3) }));
}

// Rate arbitrage.

fn carry(asset: u8, hf: f64, opened_block: u64) -> RateArbPosition {
    RateArbPosition {
        asset: addr(asset),
        supply_proto: addr(9),
        borrow_proto: addr(9),
        notional_usd: d(10.0),
        leverage: d(2.0),
        net_apy: d(0.01),
        health_factor: d(hf),
        opened_block,
        opened_ts: 6,
        pnl_usd: d(1.5),
        debt_amount_wei: U256::from_u64(1000),
    }
}

fn note(feed: &mut RateFeed, asset: u8, supply: f64, borrow: f64, supply_proto: u8, borrow_proto: u8) {
    feed.record(RateSnapshot {
        asset: addr(asset),
        supply_apy: d(supply),
        borrow_apy: d(borrow),
        supply_proto: addr(supply_proto),
        borrow_proto: addr(borrow_proto),
    });
}

#[test]
fn a_carry_is_closed_for_a_reason() {
    let cfg = config();
    let reason = |hf: f64, spread: f64, held: u64| unwind_reason(&carry(1, hf, 1000), d(spread), &cfg, 1000 + held);
    assert_eq!(reason(1.09, 100.0, 0), Some(UnwindReason::Emergency));
    assert_eq!(reason(1.15, 100.0, 149), None);
    assert_eq!(reason(1.15, 100.0, 150), Some(UnwindReason::LowHealth));
    assert_eq!(reason(1.5, 9.9, 149), None);
    assert_eq!(reason(1.5, 9.9, 150), Some(UnwindReason::SpreadCompressed));
    assert_eq!(reason(1.5, 10.0, 150), None);
    // Thirty days are 1296000 blocks.
    assert_eq!(reason(1.5, 10.0, 1_296_000), None);
    assert_eq!(reason(1.5, 10.0, 1_296_001), Some(UnwindReason::MaxHoldExceeded));
    // A block before the one of the opening counts as no time.
    assert_eq!(unwind_reason(&carry(1, 1.15, 1000), d(1.0), &cfg, 3), None);
    assert_eq!(UnwindReason::Emergency.text(), "EMERGENCY: HF critical");
    assert_eq!(UnwindReason::LowHealth.text(), "HF below threshold");
    assert_eq!(UnwindReason::SpreadCompressed.text(), "Spread compressed");
    assert_eq!(UnwindReason::MaxHoldExceeded.text(), "Max hold exceeded");
}

#[test]
fn the_carries_that_are_due_are_found() {
    let mut feed = RateFeed::new(&addresses());
    note(&mut feed, 1, 0.05, 0.03, 9, 9);
    note(&mut feed, 2, 0.05, 0.0499, 9, 9);
    let list = vec![carry(1, 1.5, 0), carry(2, 1.5, 0), carry(3, 1.05, 0), carry(1, 1.15, 0)];
    let due = check_and_unwind_positions(&list, &feed, &config(), 200);
    let found: Vec<(u8, UnwindReason)> = due.iter().map(|u| (u.pos.asset[0], u.reason)).collect();
    assert_eq!(
        found,
        vec![
            (2, UnwindReason::SpreadCompressed),
            (3, UnwindReason::Emergency),
            (1, UnwindReason::LowHealth),
        ]
    );
}

#[test]
fn the_live_debt_is_asked_for() {
    let q = DebtQuery::Reserve;
    let c = q.request(addr(1), addr(9), addr(0x23)).unwrap();
    assert_eq!(c.to, addr(9));
    let mut reply = vec![0u8; 352];
    reply[332..352].copy_from_slice(&[0x5d; 20]);
    let q = q.step(&Some(reply.clone()));
    let c = q.request(addr(1), addr(9), addr(0x23)).unwrap();
    assert_eq!(c.to, addr(0x5d));
    assert_eq!(&c.data[..4], &[0x70, 0xa0, 0x82, 0x31]);
    assert_eq!(c.data[35], 0x23);
    let mut word = vec![0u8; 40];
    word[31] = 200;
    let debt = |q: DebtQuery| match q {
        DebtQuery::Known { debt } => debt.map(|n| n.as_u128()),
        _ => panic!("the debt is known"),
    };
    assert_eq!(debt(q.step(&Some(word))), Some(200));
    assert_eq!(debt(q.step(&Some(vec![0; 31]))), None);
    assert_eq!(debt(q.step(&None)), None);
    assert_eq!(debt(DebtQuery::Reserve.step(&Some(vec![0; 351]))), None);
    assert_eq!(debt(DebtQuery::Reserve.step(&None)), None);
}

#[test]
fn the_closing_loan_covers_the_debt() {
    for debt in [0u64, 1, 199, 200, 1000, 123_456_789] {
        let closing = closing_position(&carry(1, 1.5, 0), Some(U256::from_u64(debt)));
        let covered = closing.debt_amount_wei.as_u128();
        assert_eq!(covered, debt as u128 * 1005 / 1000);
        assert!(covered >= debt as u128);
    }
    assert_eq!(closing_position(&carry(1, 1.5, 0), None).debt_amount_wei.as_u128(), 1005);
}

#[test]
fn a_carry_is_unwound() {
    let cfg = config();
    for (reason, tip) in [(UnwindReason::Emergency, 2.5), (UnwindReason::SpreadCompressed, 1.0)] {
        let mut m = Metrics::new();
        let mut p = SubmissionPipeline::new(&cfg, 4);
        let mut monitor = HealthFactorMonitor::new(addr(9));
        monitor.register_position(carry(1, 1.5, 0));
        monitor.register_position(carry(2, 1.5, 0));
        let step = UnwindStep::start(Unwind { pos: carry(1, 1.5, 0), reason });
        let step = step.replied(&None).close(&mut p, &router());
        match &step {
            UnwindStep::Signing { request, .. } => {
                let mut closing = carry(1, 1.5, 0);
                closing.debt_amount_wei = U256::from_u64(1005);
                assert_eq!(request.calldata, router().build_rate_arb_close(&closing).unwrap());
                assert_eq!((request.gas_limit, request.nonce, request.tip_mult), (700_000, 4, d(tip)));
            }
            _ => panic!("the carry can be closed"),
        }
        let step = step.sent(true, &mut monitor, &mut m);
        match &step {
            UnwindStep::Saving { positions } => {
                assert_eq!(positions.iter().map(|p| p.asset).collect::<Vec<Address>>(), vec![addr(2)]);
            }
            _ => panic!("what is left is saved"),
        }
        assert!(matches!(step.saved(), UnwindStep::Closed));
        assert_eq!(monitor.get_rate_arb_positions().len(), 1);
        assert_eq!(profit_of(&m, "rate_arb_close"), Some(1.5));
        assert_eq!((f(m.active_positions), m.submission_count), (-1.0, 1));
    }
}

#[test]
fn a_carry_without_debt_is_not_unwound() {
    let cfg = config();
    let mut p = SubmissionPipeline::new(&cfg, 4);
    let mut reply = vec![0u8; 352];
    reply[351] = 1;
    let step = UnwindStep::start(Unwind { pos: carry(1, 1.5, 0), reason: UnwindReason::LowHealth });
    let step = step.replied(&Some(reply)).replied(&Some(vec![0; 32])).close(&mut p, &router());
    assert!(matches!(step, UnwindStep::Failed { error: FlashError::ZeroDebt }));
    assert_eq!(p.submit(vec![], 1).nonce, 4);
}

#[test]
fn the_lowest_health_factor_is_noted() {
    let mut m = Metrics::new();
    let list = vec![carry(1, 1.5, 0), carry(2, 1.15, 0), carry(3, f64::NAN, 0), carry(4, 1.3, 0)];
    assert_eq!(note_least_health(&list, &mut m), Some(HealthAlert::Warning));
    assert_eq!(f(m.rate_arb_min_hf), 1.15);
    assert_eq!(note_least_health(&vec![], &mut m), None);
    assert_eq!(f(m.rate_arb_min_hf), f64::MAX);
}

fn native_leverage(base: f64, spread: f64, liq: f64) -> f64 {
    let target_hf = 1.30f64;
    let max_safe = if liq > 1.0 / target_hf { liq / (liq - 1.0 / target_hf) } else { base };
    let cap = max_safe.min(4.0).max(1.0);
    (base + spread / 100.0).max(1.5f64.min(cap)).min(cap)
}

#[test]
fn leverage_is_capped() {
    for base in [-1.0, 0.0, 1.0, 2.0, 3.7, 9.0, f64::NAN] {
        for spread in [-500.0, 0.0, 50.0, 120.0, 1e9, f64::NAN] {
            for liq in [0.0, 0.5, 0.7692, 0.78, 0.8, 0.83, 0.95, 1.2, f64::NAN] {
                let got = dynamic_leverage(d(base), d(spread), d(liq));
                assert_eq!(f(got), native_leverage(base, spread, liq), "{} {} {}", base, spread, liq);
                assert!(f(got) <= 4.0 && f(got) >= 1.0);
            }
        }
    }
    assert_eq!(f(dynamic_leverage(d(2.0), d(50.0), d(0.5))), 2.0);
    assert_eq!(f(dynamic_leverage(d(2.0), d(50.0), d(0.95))), 2.5);
}

#[test]
fn assets_are_screened() {
    let cfg = config();
    let mut feed = RateFeed::new(&addresses());
    note(&mut feed, 1, 0.05, 0.04, 9, 9);
    note(&mut feed, 2, 0.05, 0.046, 9, 9);
    note(&mut feed, 3, 0.05, 0.04, 6, 9);
    note(&mut feed, 4, 0.05, 0.04, 9, 6);
    let none: Vec<Address> = vec![];
    let start = |kind: CarryAsset, cfg: &Config, a: &Addresses, open: &Vec<Address>| {
        OpenStep::start(kind, a, cfg, open, &feed)
    };
    let all = addresses();
    assert!(matches!(start(CarryAsset::Usdc, &cfg, &all, &none), OpenStep::Measuring { .. }));
    let skip = |step: OpenStep| match step {
        OpenStep::Skipped { reason } => reason,
        _ => panic!("the asset is skipped"),
    };
    assert_eq!(skip(start(CarryAsset::Usdc, &cfg, &all, &vec![addr(2), addr(1)])), SkipReason::AlreadyOpen);
    assert_eq!(skip(start(CarryAsset::Weth, &cfg, &all, &none)), SkipReason::NarrowSpread);
    assert_eq!(skip(start(CarryAsset::CbEth, &cfg, &all, &none)), SkipReason::ForeignRoute);
    assert_eq!(skip(start(CarryAsset::WstEth, &cfg, &all, &none)), SkipReason::ForeignRoute);
    assert_eq!(skip(start(CarryAsset::CbBtc, &cfg, &all, &none)), SkipReason::NarrowSpread);
    let mut off = config();
    off.rate_arb_open_enabled = false;
    assert_eq!(skip(start(CarryAsset::Usdc, &off, &all, &none)), SkipReason::OpeningDisabled);
    let fail = |step: OpenStep| match step {
        OpenStep::Failed { error } => error,
        _ => panic!("the search ends"),
    };
    let mut bad = addresses();
    bad.usdc = s("1");
    bad.aave_v3_pool_proxy = s("2");
    assert_eq!(fail(start(CarryAsset::Usdc, &cfg, &bad, &none)), CarryError::BadAsset(CarryAsset::Usdc));
    assert_eq!(fail(start(CarryAsset::CbEth, &cfg, &bad, &none)), CarryError::BadPool);
    assert_eq!(open_assets(&vec![carry(3, 1.0, 0), carry(4, 1.0, 0)]), vec![addr(3), addr(4)]);
    assert_eq!(
        carry_assets(),
        vec![CarryAsset::Usdc, CarryAsset::Weth, CarryAsset::CbEth, CarryAsset::WstEth, CarryAsset::CbBtc]
    );
}

#[test]
fn a_carry_is_sized() {
    let cfg = config();
    let mut feed = RateFeed::new(&addresses());
    for k in 1..6 {
        note(&mut feed, k, 0.05, 0.04, 9, 9);
    }
    let none: Vec<Address> = vec![];
    let measured = |kind: CarryAsset, depth: Option<u64>, btc: f64| {
        OpenStep::start(kind, &addresses(), &cfg, &none, &feed).measured(
            &cfg,
            depth.map(U256::from_u64),
            d(1e2),
            d(btc),
            d(0.5),
        )
    };
    let notional = |step: OpenStep| match step {
        OpenStep::Simulating { s, .. } => s.notional.as_u128(),
        _ => panic!("the carry is sized"),
    };
    assert_eq!(notional(measured(CarryAsset::Usdc, Some(1001), 1.0)), 400);
    assert_eq!(notional(measured(CarryAsset::Usdc, Some(9_000_000), 1.0)), 1_000_000);
    assert_eq!(notional(measured(CarryAsset::CbEth, Some(9_000_000), 1.0)), 3_000_000);
    let skipped = |step: OpenStep, why: SkipReason| matches!(step, OpenStep::Skipped { reason } if reason == why);
    assert!(skipped(measured(CarryAsset::Weth, Some(2), 1.0), SkipReason::NoDepth));
    assert!(skipped(measured(CarryAsset::Weth, None, 1.0), SkipReason::NoDepth));
    // A thirtieth of the notional of the others, at the price of a bitcoin.
    assert_eq!(notional(measured(CarryAsset::CbBtc, Some(9_000_000), 50.0)), 100_000);
    assert!(skipped(measured(CarryAsset::CbBtc, Some(9_000_000), 49.9), SkipReason::SmallNotional));
}

#[test]
fn a_carry_is_opened() {
    let cfg = config();
    let mut feed = RateFeed::new(&addresses());
    note(&mut feed, 1, 0.05, 0.04, 9, 9);
    let none: Vec<Address> = vec![];
    let sized = || {
        OpenStep::start(CarryAsset::Usdc, &addresses(), &cfg, &none, &feed).measured(
            &cfg,
            Some(U256::from_u64(1000)),
            d(1e6),
            d(1.0),
            d(0.95),
        )
    };
    let carry_sim = |hf: f64, profit: f64| CarrySim { post_hf: d(hf), profit_usd: d(profit), gas_estimate: 555 };
    let low = sized().simulated(carry_sim(1.29, 1.0));
    assert!(matches!(low, OpenStep::Skipped { reason: SkipReason::LowHealth }));
    let poor = sized().simulated(carry_sim(1.3, -0.01));
    assert!(matches!(poor, OpenStep::Skipped { reason: SkipReason::NoProfit }));
    let mut m = Metrics::new();
    let mut p = SubmissionPipeline::new(&cfg, 6);
    let mut monitor = HealthFactorMonitor::new(addr(9));
    let step = sized().simulated(carry_sim(1.31, 2.0)).lent(&mut p, &router(), &held(0, 0));
    let leverage = native_leverage(2.0, (0.05 - 0.04) * 10_000.0, 0.95);
    match &step {
        OpenStep::Signing { request, .. } => {
            let expected = router().build_rate_arb_open(
                FlashProvider::Aave,
                addr(1),
                U256::from_u64(400),
                d(leverage),
                addr(9),
                addr(9),
            );
            assert_eq!(request.calldata, expected);
            assert_eq!((request.gas_limit, request.nonce, request.tip_mult), (555, 6, d(1.0)));
        }
        _ => panic!("the carry is worth opening"),
    }
    let step = step.sent(true, &mut monitor, &mut m, 777, 888);
    match &step {
        OpenStep::Saving { positions } => {
            assert_eq!(positions.iter().map(|p| p.asset).collect::<Vec<Address>>(), vec![addr(1)]);
        }
        _ => panic!("the carry is saved"),
    }
    assert!(matches!(step.saved(), OpenStep::Opened));
    let list = monitor.get_rate_arb_positions();
    assert_eq!(list.len(), 1);
    let pos = list[0];
    assert_eq!((pos.asset, pos.supply_proto, pos.borrow_proto), (addr(1), addr(9), addr(9)));
    assert_eq!((pos.notional_usd, pos.leverage, pos.net_apy), (d(400.0), d(leverage), d(0.05 - 0.04)));
    assert_eq!((pos.health_factor, pos.opened_block, pos.opened_ts), (d(1.31), 777, 888));
    assert_eq!((pos.pnl_usd, pos.debt_amount_wei.as_u128()), (d(0.0), 400));
    assert_eq!(profit_of(&m, "rate_arb_open"), Some(2.0));
    assert_eq!((f(m.active_positions), m.trade_count, m.submission_count), (1.0, 1, 1));
}

// The main loop.

#[test]
fn strategies_have_their_limits() {
    assert_eq!((Strategy::CrossDexArb.label(), Strategy::CrossDexArb.threshold()), ("S1-CrossDexArb", 25));
    assert_eq!((Strategy::TriArb.label(), Strategy::TriArb.timeout_ms()), ("S2-TriArb", Some(500)));
    assert_eq!((Strategy::Liquidation.label(), Strategy::Liquidation.timeout_ms()), ("S3-Liq", Some(900)));
    assert_eq!((Strategy::FlashJit.label(), Strategy::FlashJit.threshold()), ("S4-JIT", 10));
    assert_eq!(Strategy::FlashJit.timeout_ms(), None);
    assert_eq!((Strategy::RateArb.label(), Strategy::RateArb.timeout_ms()), ("S5-RateArb", Some(600)));
}

#[test]
fn pending_swaps_are_served_while_that_is_enabled() {
    let mut cfg = config();
    let mut b = Breaker::new();
    assert!(!serves_pending_swaps(&cfg, &b));
    cfg.jit_enabled = true;
    assert!(serves_pending_swaps(&cfg, &b));
    for _ in 0..10 {
        settle(&mut b, false);
    }
    assert!(!serves_pending_swaps(&cfg, &b));
    for _ in 0..3 {
        settle(&mut b, true);
    }
    assert!(serves_pending_swaps(&cfg, &b));
}

#[test]
fn work_is_due_every_so_many_blocks() {
    assert!(is_due(0, 5) && is_due(10, 5) && is_due(7, 1));
    assert!(!is_due(11, 5));
}

#[test]
fn prices_fall_back() {
    let cfg = config();
    let p = current_prices(Some(d(2000.0)), Some(d(90_000.0)), &cfg);
    assert_eq!((f(p.eth), f(p.btc)), (2000.0, 90_000.0));
    let p = current_prices(None, None, &cfg);
    assert_eq!((f(p.eth), f(p.btc)), (3000.0, 90_000.0));
    let p = current_prices(Some(d(2500.5)), None, &cfg);
    assert_eq!(f(p.btc), 2500.5 * 30.0);
}

#[test]
fn the_least_spread_grows_with_gas() {
    let configured = 20.0;
    for fee in [0u64, 1, 50_000_000, 1_000_000_000, 33_333_333_333, 90_000_000_000, 500_000_000_000, u64::MAX] {
        let mut cfg = config();
        raise_spread(&mut cfg, d(configured), fee);
        let expected = configured * (1.0 + fee as f64 / 1e9 / 10.0).min(10.0);
        assert_eq!(f(cfg.min_arb_spread_bps), expected);
        assert!(expected >= configured && expected <= configured * 10.0);
        assert_eq!(f(cfg.min_profit_usd), 5.0);
    }
}

#[test]
fn a_low_gas_reserve_is_alerted() {
    let mut m = Metrics::new();
    let low = check_gas_reserve(&mut m, U256::from_u64(999_999_999_999_999_999));
    assert_eq!(low.map(f), Some(999_999_999_999_999_999u128 as f64 / 1e18).filter(|x| *x < 1.0));
    let half = check_gas_reserve(&mut m, U256::from_u64(500_000_000_000_000_000));
    assert_eq!(half.map(f), Some(0.5));
    assert_eq!(check_gas_reserve(&mut m, U256::from_u64(2_000_000_000_000_000_000)), None);
    assert_eq!(f(m.gas_reserve_eth), 2.0);
}

#[test]
fn the_lending_pool_is_resolved() {
    let c = lending_pool_call(&config()).unwrap();
    assert_eq!(c.to, addr(0x25));
    assert_eq!(c.data, ethers::utils::keccak256("getPool()".as_bytes())[..4].to_vec());
    let mut bad = config();
    bad.aave_addresses_provider = s("?");
    assert!(lending_pool_call(&bad).is_none());
    let reply: Vec<u8> = (0u8..32).collect();
    assert_eq!(read_lending_pool(&reply).to_vec(), reply[12..].to_vec());
}
