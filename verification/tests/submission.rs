use corvus::config::{
    validate_config, AddressField, Config, ConfigError, SecretKey,
};
use corvus::double::Double;
use corvus::monitoring::metrics::Metrics;
use corvus::shared::address::Address;
use corvus::shared::submission::{
    broadcast_raw, build_bundle, bundle_header, count_bundle_reply, count_reply, record_attempt,
    EscalationState, SubmissionPipeline,
};
use ethers::types::H160;
use serde_json::Value;

fn d(x: f64) -> Double {
    Double { bits: x.to_bits() }
}

fn s(text: &str) -> String {
    String::from(text)
}

fn addr(n: u8) -> Address {
    [n; 20]
}

fn text(n: u8) -> String {
    format!("{:?}", H160([n; 20]))
}

fn config() -> Config {
    Config {
        ipc_path: s("/run/geth.ipc"),
        chain_id: 8453,
        executor_private_key: SecretKey::new(s("SECRET")),
        cold_wallet: s(""),
        flash_executor_address: text(0x23),
        balancer_vault: text(0x21),
        morpho_blue: text(0x22),
        aave_addresses_provider: text(0x25),
        aerodrome_factory: text(0x26),
        uniswap_v3_factory: text(0x27),
        min_profit_usd: d(5.0),
        min_arb_spread_bps: d(20.0),
        min_liquidation_profit_usd: d(10.0),
        min_jit_profit_usd: d(3.0),
        min_rate_spread_bps: d(50.0),
        max_gas_price_gwei: d(1.0),
        pool_min_liquidity_usd: d(1.0),
        pool_refresh_blocks: 1,
        active_phase: 1,
        eth_price_fallback_usd: d(3000.0),
        monitoring_gas_check_interval_blocks: 1,
        bootstrap_from_block: 1,
        revm_sim_gas_limit: 1,
        jit_min_swap_usd: d(1000.0),
        jit_enabled: false,
        priority_fee_multiplier: d(1.0),
        max_fee_base_multiplier: d(1.0),
        rpc_timeout_secs: 1,
        gas_estimate_safety_margin: d(1.15),
        min_profit_slippage_bps: 1,
        liquidation_swap_haircut: d(1.0),
        liquidation_safety_factor: d(1.0),
        liquidation_hf_threshold: d(1.0),
        rate_arb_close_spread_bps: d(10.0),
        rate_arb_close_hf: d(1.2),
        rate_arb_emergency_hf: d(1.1),
        rate_arb_max_hold_days: d(30.0),
        rate_arb_base_leverage: d(2.0),
        rate_arb_max_notional_usdc: 1_000_000,
        rate_arb_max_notional_weth: 3_000_000,
        rate_arb_max_breakeven_days: d(1.0),
        rate_arb_cbbtc_min_notional_usd: d(50_000.0),
        rate_arb_open_enabled: true,
        rate_arb_min_hold_blocks: 150,
        position_store_path: s("data/positions.json"),
        base_sequencer_rpc: s("https://sequencer"),
        builder_endpoints: vec![s("https://one"), s("https://two")],
        metrics_port: 9090,
        telegram_bot_token: s(""),
        telegram_chat_id: -1,
    }
}

fn object(members: Vec<(&str, Value)>) -> Value {
    Value::Object(members.into_iter().map(|(k, v)| (String::from(k), v)).collect())
}

#[test]
fn a_sound_configuration_is_accepted() {
    assert_eq!(validate_config(&config()), Ok(()));
}

#[test]
fn every_fault_of_a_configuration_is_told() {
    let fault = |change: fn(&mut Config)| {
        let mut cfg = config();
        change(&mut cfg);
        validate_config(&cfg)
    };
    assert_eq!(fault(|c| c.executor_private_key = SecretKey::new(s(""))), Err(ConfigError::NoPrivateKey));
    assert_eq!(fault(|c| c.balancer_vault = s("")), Err(ConfigError::EmptyAddress(AddressField::BalancerVault)));
    assert_eq!(fault(|c| c.morpho_blue = s("0x1")), Err(ConfigError::InvalidAddress(AddressField::MorphoBlue)));
    assert_eq!(
        fault(|c| c.aave_addresses_provider = s("")),
        Err(ConfigError::EmptyAddress(AddressField::AaveAddressesProvider))
    );
    assert_eq!(
        fault(|c| c.aerodrome_factory = s("x")),
        Err(ConfigError::InvalidAddress(AddressField::AerodromeFactory))
    );
    assert_eq!(
        fault(|c| c.uniswap_v3_factory = s("x")),
        Err(ConfigError::InvalidAddress(AddressField::UniswapV3Factory))
    );
    assert_eq!(fault(|c| c.chain_id = 0), Err(ConfigError::ZeroChainId));
    assert_eq!(fault(|c| c.ipc_path = s("")), Err(ConfigError::NoIpcPath));
    assert_eq!(fault(|c| c.flash_executor_address = s("")), Err(ConfigError::NoFlashExecutor));
    assert_eq!(fault(|c| c.gas_estimate_safety_margin = d(0.99)), Err(ConfigError::LowGasMargin));
    assert_eq!(fault(|c| c.gas_estimate_safety_margin = d(1.0)), Ok(()));
    // The first fault counts.
    assert_eq!(
        fault(|c| {
            c.chain_id = 0;
            c.morpho_blue = s("");
        }),
        Err(ConfigError::EmptyAddress(AddressField::MorphoBlue))
    );
    assert_eq!(AddressField::AerodromeFactory.name(), "aerodrome_factory");
}

#[test]
fn a_key_is_not_shown_and_is_wiped() {
    let mut key = SecretKey::new(s("SECRET"));
    assert_eq!(key.expose(), "SECRET");
    assert_eq!(key.redacted(), "[REDACTED]");
    let copy = key.clone();
    key.wipe();
    assert_eq!(key.expose(), "");
    assert_eq!(copy.expose(), "SECRET");
}

#[test]
fn nonces_follow_each_other() {
    let mut p = SubmissionPipeline::new(&config(), 41);
    let first = p.submit(vec![1, 2], 100);
    assert_eq!((first.nonce, first.gas_limit, first.tip_mult), (41, 100, d(1.0)));
    assert_eq!(first.calldata, vec![1, 2]);
    let second = p.submit_priority(vec![3], 200);
    assert_eq!((second.nonce, second.gas_limit, second.tip_mult), (42, 200, d(2.5)));
    let third = p.submit_jit_bundle(vec![4]);
    assert_eq!((third.nonce, third.gas_limit, third.tip_mult), (43, 500_000, d(1.0)));
    let fourth = p.submit_with_tip(vec![5], 7, d(1.25));
    assert_eq!((fourth.nonce, fourth.tip_mult), (44, d(1.25)));
}

#[test]
fn only_what_went_out_is_counted() {
    let mut p = SubmissionPipeline::new(&config(), u64::MAX - 1);
    let mut m = Metrics::new();
    let mut nonces = Vec::new();
    for went_out in [true, false, true, true, false] {
        nonces.push(p.submit(vec![], 1).nonce);
        record_attempt(&mut m, went_out);
    }
    assert_eq!(nonces, vec![u64::MAX - 1, u64::MAX, 0, 1, 2]);
    assert_eq!((m.submission_count, m.submitted_total, m.trade_count), (3, 3, 0));
}

#[test]
fn the_nonce_only_moves_forward() {
    let mut p = SubmissionPipeline::new(&config(), 10);
    assert!(!p.resync_nonce(9));
    assert!(!p.resync_nonce(10));
    assert_eq!(p.submit(vec![], 1).nonce, 10);
    assert!(p.resync_nonce(20));
    assert_eq!(p.submit(vec![], 1).nonce, 20);
    let mut last = SubmissionPipeline::new(&config(), u64::MAX);
    assert_eq!(last.submit(vec![], 1).nonce, u64::MAX);
    assert_eq!(last.submit(vec![], 1).nonce, 0);
}

#[test]
fn the_sequencer_comes_first() {
    let p = SubmissionPipeline::new(&config(), 0);
    assert_eq!(p.broadcast_endpoints(), vec![s("https://sequencer"), s("https://one"), s("https://two")]);
    assert_eq!(p.bundle_endpoints(), vec![s("https://one"), s("https://two")]);
}

#[test]
fn a_transaction_is_handed_in() {
    let expected = object(vec![
        ("jsonrpc", Value::from("2.0")),
        ("id", Value::from(1)),
        ("method", Value::from("eth_sendRawTransaction")),
        ("params", Value::from(vec!["0x00ff10"])),
    ]);
    assert_eq!(broadcast_raw(&[0, 255, 16]), expected);
}

#[test]
fn a_bundle_is_signed_as_it_is_sent() {
    let b = build_bundle(&[1, 2], &[0xab], 255);
    let member = object(vec![
        ("txs", Value::from(vec!["0x0102", "0xab"])),
        ("blockNumber", Value::from("0xff")),
    ]);
    let expected = object(vec![
        ("jsonrpc", Value::from("2.0")),
        ("id", Value::from(1)),
        ("method", Value::from("eth_sendBundle")),
        ("params", Value::Array(vec![member])),
    ]);
    assert_eq!(b.call, expected);
    assert_eq!(b.body, serde_json::to_vec(&expected).unwrap());
    assert_eq!(b.digest, ethers::utils::keccak256(&b.body));
}

#[test]
fn the_header_names_the_signer() {
    let expected = format!("{:#x}:0x{}", H160([0xcd; 20]), "0a0b");
    assert_eq!(bundle_header(&addr(0xcd), &[10, 11]), expected);
}

#[test]
fn replies_of_builders_are_counted() {
    let mut m = Metrics::new();
    count_bundle_reply(&mut m, "{\"error\":{\"code\":-32000}}".as_bytes());
    assert_eq!(m.submission_count, 0);
    assert_eq!(m.sim_results.count(), 1);
    assert_eq!(m.sim_results.entry(0).labels, vec![s("bundle"), s("rejected")]);
    count_bundle_reply(&mut m, "{\"error\":null}".as_bytes());
    assert_eq!(m.sim_results.entry(0).total, d(2.0));
    count_bundle_reply(&mut m, "{\"result\":1}".as_bytes());
    count_bundle_reply(&mut m, "[\"error\"]".as_bytes());
    assert_eq!((m.submission_count, m.submitted_total), (2, 2));
    count_bundle_reply(&mut m, "<html>".as_bytes());
    count_reply(&mut m, &None);
    assert_eq!((m.submission_count, m.sim_results.count()), (2, 1));
    count_reply(&mut m, &Some(Value::from("error")));
    assert_eq!(m.submission_count, 3);
}

#[test]
fn a_submission_escalates_until_it_is_mined() {
    let mut p = SubmissionPipeline::new(&config(), 5);
    let mut m = Metrics::new();
    let mut e = p.submit_with_escalation(vec![7, 7], 99, 3);
    for attempt in 0..2u8 {
        let (calldata, gas, k, nonce) = e.to_sign().unwrap();
        assert_eq!((calldata.clone(), gas, k, nonce), (vec![7, 7], 99, attempt, 5));
        e.sent([attempt + 1; 32]);
        assert!(e.to_sign().is_none());
        e.confirmed(&mut m, attempt == 1);
    }
    assert!(matches!(e.state(), EscalationState::Finished { hash, included: true } if hash == [2; 32]));
    assert_eq!(m.included_total, 1);
    assert_eq!(p.submit(vec![], 1).nonce, 6);
}

#[test]
fn a_submission_ends_after_its_last_attempt() {
    let mut p = SubmissionPipeline::new(&config(), 5);
    let mut m = Metrics::new();
    let mut e = p.submit_with_escalation(vec![], 99, 2);
    for k in 0..2u8 {
        e.sent([k + 1; 32]);
        e.confirmed(&mut m, false);
    }
    assert!(matches!(e.state(), EscalationState::Finished { hash, included: false } if hash == [2; 32]));
    assert_eq!(m.included_total, 0);
    let none = p.submit_with_escalation(vec![], 99, 0);
    assert!(matches!(none.state(), EscalationState::Finished { hash, included: false } if hash == [0; 32]));
    assert_eq!(p.submit(vec![], 1).nonce, 7);
}
