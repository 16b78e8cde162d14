use corvus::double::Double;
use corvus::shared::address::Address;
use corvus::shared::health_factor::{HealthFactorMonitor, ShortReply};
use corvus::strategies::rate_arb::RateArbPosition;
use corvus::u256::U256;
use ethers::abi::{encode, Token};
use ethers::types::H160;

fn d(x: f64) -> Double {
    Double { bits: x.to_bits() }
}

fn addr(n: u8) -> Address {
    [n; 20]
}

fn carry(asset: u8, hf: f64) -> RateArbPosition {
    RateArbPosition {
        asset: addr(asset),
        supply_proto: addr(8),
        borrow_proto: addr(9),
        notional_usd: d(10.0),
        leverage: d(2.0),
        net_apy: d(0.01),
        health_factor: d(hf),
        opened_block: 5,
        opened_ts: 6,
        pnl_usd: d(0.5),
        debt_amount_wei: U256::from_u64(asset as u64),
    }
}

fn listed(m: &HealthFactorMonitor) -> Vec<(u8, f64)> {
    let mut all: Vec<(u8, f64)> = m
        .get_rate_arb_positions()
        .iter()
        .map(|p| (p.asset[0], f64::from_bits(p.health_factor.bits)))
        .collect();
    all.sort_by(|x, y| x.0.cmp(&y.0));
    all
}

#[test]
fn carries_are_kept_by_their_asset() {
    let mut m = HealthFactorMonitor::new(addr(1));
    assert!(m.get_rate_arb_positions().is_empty());
    m.register_position(carry(3, 1.5));
    m.register_position(carry(4, 1.6));
    m.register_position(carry(3, 1.7));
    assert_eq!(listed(&m), vec![(3, 1.7), (4, 1.6)]);
    m.update_hf(addr(4), d(2.0));
    m.update_hf(addr(5), d(9.0));
    assert_eq!(listed(&m), vec![(3, 1.7), (4, 2.0)]);
    m.remove_position(addr(3));
    m.remove_position(addr(7));
    assert_eq!(listed(&m), vec![(4, 2.0)]);
}

#[test]
fn carries_survive_a_restart() {
    let mut m = HealthFactorMonitor::new(addr(1));
    for k in 2..9 {
        m.register_position(carry(k, k as f64));
    }
    let mut again = HealthFactorMonitor::new(addr(1));
    again.register_all(&m.get_rate_arb_positions());
    assert_eq!(listed(&again), listed(&m));
    assert_eq!(listed(&again).len(), 7);
}

#[test]
fn the_account_is_asked_for() {
    let m = HealthFactorMonitor::new(addr(1));
    let c = m.account_call(addr(2));
    assert_eq!(c.to, addr(1));
    let mut expected = ethers::utils::keccak256("getUserAccountData(address)".as_bytes())[..4].to_vec();
    expected.extend(encode(&[Token::Address(H160([2; 20]))]));
    assert_eq!(c.data, expected);
}

#[test]
fn a_reply_sets_all_health_factors() {
    let mut m = HealthFactorMonitor::new(addr(1));
    m.register_position(carry(3, 1.5));
    m.register_position(carry(4, 1.6));
    let word = |n: u128| Token::Uint(ethers::types::U256::from(n));
    let hf = 1_234_567_890_123_456_789u128;
    let reply = encode(&[word(1), word(2), word(3), word(4), word(5), word(hf)]);
    assert_eq!(reply.len(), 192);
    let told = m.refresh_hf_from_chain(&reply).unwrap();
    let expected = hf as f64 / 1e18;
    assert_eq!(told.bits, expected.to_bits());
    assert_eq!(listed(&m), vec![(3, expected), (4, expected)]);
}

#[test]
fn an_account_without_debt_has_the_greatest_health_factor() {
    let mut m = HealthFactorMonitor::new(addr(1));
    m.register_position(carry(3, 1.5));
    let mut reply = vec![0u8; 160];
    reply.extend([0xff; 32]);
    let told = m.refresh_hf_from_chain(&reply).unwrap();
    let expected = 2.0f64.powi(256) / 1e18;
    assert_eq!(told.bits, expected.to_bits());
    assert!(expected > 1e18);
    assert_eq!(listed(&m), vec![(3, expected)]);
}

#[test]
fn a_closed_carry_stays_closed_after_a_restart() {
    let mut m = HealthFactorMonitor::new(addr(1));
    m.register_position(carry(3, 1.5));
    m.register_position(carry(4, 1.6));
    m.remove_position(addr(3));
    let saved = m.get_rate_arb_positions();
    let mut again = HealthFactorMonitor::new(addr(1));
    again.register_all(&saved);
    assert_eq!(listed(&again), vec![(4, 1.6)]);
}

#[test]
fn a_short_reply_changes_nothing() {
    let mut m = HealthFactorMonitor::new(addr(1));
    m.register_position(carry(3, 1.5));
    assert_eq!(m.refresh_hf_from_chain(&[0; 191]), Err(ShortReply(191)));
    assert_eq!(listed(&m), vec![(3, 1.5)]);
}
