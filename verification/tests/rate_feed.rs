use corvus::double::Double;
use corvus::shared::address::{zero_address, Address};
use corvus::shared::addresses::Addresses;
use corvus::shared::rate_feed::{
    choose_rates, derive_market_id, rates_of_market, read_aave_rates, read_morpho_rates, watched_assets,
    RateError, RateFeed, RateSnapshot, Rates,
};
use ethers::abi::{encode, Token};
use ethers::types::H160;

const USDC: &str = "0x833589fCD6eDb6E08f4c7C32D4f71b54bdA02913";
const WETH: &str = "0x4200000000000000000000000000000000000006";
const CBETH: &str = "0x2Ae3F1Ec7F1F5012CFEab0185bfc7aa3cf0DEc22";
const WSTETH: &str = "0xc1CBa3fCea344f92D9239c08C0568f6F2F0ee452";
const CBBTC: &str = "0xcbB7C0000aB88B473b1f5aFd9ef808440eed33Bf";

fn d(x: f64) -> Double {
    Double { bits: x.to_bits() }
}

fn f(x: Double) -> f64 {
    f64::from_bits(x.bits)
}

fn addr(n: u8) -> Address {
    [n; 20]
}

fn parse(text: &str) -> Address {
    text.parse::<H160>().unwrap().0
}

fn addresses() -> Addresses {
    let other = String::from("0x0000000000000000000000000000000000000011");
    Addresses {
        usdc: String::from(USDC),
        weth: String::from(WETH),
        cbeth: String::from(CBETH),
        wsteth: String::from(WSTETH),
        cbbtc: String::from(CBBTC),
        morpho_blue: format!("{:?}", H160([6; 20])),
        multicall3: other.clone(),
        aerodrome_router: other.clone(),
        uniswap_v3_router: other.clone(),
        aave_v3_pool_proxy: other.clone(),
        chainlink_eth_usd: other.clone(),
        chainlink_cbbtc_usd: other,
        morpho_market_usdc_weth: "11".repeat(32),
        morpho_market_weth_usdc: "2b".repeat(32),
        morpho_market_cbeth_usdc: "0".repeat(64),
        morpho_market_cbbtc_usdc: "33".repeat(31),
        morpho_market_wsteth_usdc: "4z".repeat(32),
    }
}

/// A reply with the given 128-bit integers at the given places.
fn reply(length: usize, parts: &[(usize, u128)]) -> Vec<u8> {
    let mut bytes = vec![0u8; length];
    for (at, n) in parts {
        bytes[*at..*at + 16].copy_from_slice(&n.to_be_bytes());
    }
    bytes
}

#[test]
fn rates_of_the_lending_pool_are_read() {
    let supply = 31_234_567_890_123_456_789_012_345u128;
    let borrow = 45_000_000_000_000_000_000_000_001u128;
    let rates = read_aave_rates(&reply(96, &[(48, supply), (80, borrow), (32, 999), (64, 888)])).unwrap();
    assert_eq!(f(rates.supply), supply as f64 / 1e27);
    assert_eq!(f(rates.borrow), borrow as f64 / 1e27);
    assert_eq!(read_aave_rates(&[0; 95]), Err(RateError::ShortReply(95)));
}

fn native_market(supplied: u128, borrowed: u128, fee: u128) -> (f64, f64) {
    let fee = fee as f64 / 1e18;
    let utilization = (borrowed as f64 / supplied as f64).min(1.0);
    let borrow_apr = if utilization < 0.8 { utilization * 0.10 } else { 0.08 + (utilization - 0.8) * 1.5 };
    (borrow_apr * utilization * (1.0 - fee), borrow_apr)
}

#[test]
fn rates_of_a_market_follow_its_use() {
    let e18 = 1_000_000_000_000_000_000u128;
    for supplied in [1u128, 3, 1000, 7 * e18, u128::MAX] {
        for borrowed in [0u128, 1, 2, 799, 800, 801, 5 * e18, u128::MAX] {
            for fee in [0, e18 / 10, e18 / 3, e18, 2 * e18] {
                let rates = rates_of_market(supplied, borrowed, fee);
                let (supply, borrow) = native_market(supplied, borrowed, fee);
                assert_eq!(f(rates.supply).to_bits(), supply.to_bits());
                assert_eq!(f(rates.borrow).to_bits(), borrow.to_bits());
                if fee <= e18 {
                    assert!(rates.supply.is_at_most(rates.borrow));
                }
            }
        }
    }
    assert_eq!(f(rates_of_market(1000, 500, 0).borrow), 0.5 * 0.10);
    assert_eq!(f(rates_of_market(1000, 2000, 0).borrow), 0.08 + (1.0 - 0.8) * 1.5);
}

#[test]
fn the_state_of_a_market_is_read() {
    let bytes = reply(96, &[(0, 1000), (16, 77), (32, 900), (48, 66), (64, 55), (80, 250_000_000_000_000_000)]);
    let rates = read_morpho_rates(&bytes).unwrap();
    let (supply, borrow) = native_market(1000, 900, 250_000_000_000_000_000);
    assert_eq!((f(rates.supply), f(rates.borrow)), (supply, borrow));
    assert_eq!(read_morpho_rates(&reply(95, &[(0, 1000)])), Err(RateError::ShortReply(95)));
    assert_eq!(read_morpho_rates(&reply(96, &[(16, 1), (32, 5)])), Err(RateError::ZeroSupply));
}

#[test]
fn markets_are_found_by_the_asset() {
    let all = addresses();
    assert_eq!(derive_market_id(&all, parse(USDC)), Some(vec![0x11; 32]));
    assert_eq!(derive_market_id(&all, parse(WETH)), Some(vec![0x2b; 32]));
    // A placeholder, too few bytes, and a text that is no hexadecimal one.
    assert_eq!(derive_market_id(&all, parse(CBETH)), None);
    assert_eq!(derive_market_id(&all, parse(CBBTC)), None);
    assert_eq!(derive_market_id(&all, parse(WSTETH)), None);
    assert_eq!(derive_market_id(&all, addr(7)), None);
    // The digits that a watched asset starts with are not enough.
    assert_eq!(derive_market_id(&all, parse("0x0000000000000000000000000000000000833589")), None);
    assert_eq!(derive_market_id(&all, parse("0x4200000000000000000000000000000000000007")), None);
}

#[test]
fn watched_assets_are_read_in_order() {
    let list = watched_assets(&addresses()).unwrap();
    assert_eq!(list, vec![parse(USDC), parse(WETH), parse(CBETH), parse(WSTETH), parse(CBBTC)]);
    let mut bad = addresses();
    bad.wsteth = String::from("0x1");
    bad.cbbtc = String::new();
    assert_eq!(watched_assets(&bad), Err(3));
    assert!(RateFeed::new(&bad).refresh(&bad, addr(1)).is_err());
}

#[test]
fn the_better_rate_of_each_side_is_taken() {
    let rates = |s: f64, b: f64| Rates { supply: d(s), borrow: d(b) };
    let pick = |aave: Rates, morpho: Rates| choose_rates(addr(1), addr(2), addr(3), aave, morpho);
    let s = pick(rates(0.03, 0.05), rates(0.04, 0.06));
    assert_eq!((f(s.supply_apy), s.supply_proto), (0.04, addr(3)));
    assert_eq!((f(s.borrow_apy), s.borrow_proto), (0.05, addr(2)));
    let s = pick(rates(0.03, 0.05), rates(0.03, 0.05));
    assert_eq!((s.supply_proto, s.borrow_proto), (addr(2), addr(2)));
    let s = pick(rates(0.05, 0.05), rates(0.01, 0.04));
    assert_eq!((f(s.supply_apy), s.supply_proto, f(s.borrow_apy), s.borrow_proto), (0.05, addr(2), 0.04, addr(3)));
}

#[test]
fn a_feed_without_an_asset_tells_zeros() {
    let feed = RateFeed::new(&addresses());
    assert!(feed.monitored_assets().is_empty());
    assert_eq!(feed.get_best_spread(addr(1)), (d(0.0), d(0.0)));
    assert_eq!(f(feed.net_spread_bps(addr(1))), 0.0);
    assert_eq!(feed.get_best_proto_addresses(addr(1)), (zero_address(), zero_address()));
}

#[test]
fn a_feed_tells_what_was_noted_last() {
    let mut feed = RateFeed::new(&addresses());
    let note = |s: f64, b: f64| RateSnapshot {
        asset: addr(1),
        supply_apy: d(s),
        borrow_apy: d(b),
        supply_proto: addr(2),
        borrow_proto: addr(3),
    };
    feed.record(note(0.01, 0.02));
    feed.record(note(0.05, 0.03));
    assert_eq!(feed.get_best_spread(addr(1)), (d(0.05), d(0.03)));
    assert_eq!(f(feed.net_spread_bps(addr(1))), (0.05 - 0.03) * 10_000.0);
    assert_eq!(feed.get_best_proto_addresses(addr(1)), (addr(2), addr(3)));
    assert_eq!(feed.monitored_assets(), vec![addr(1)]);
}

fn selector(signature: &str) -> Vec<u8> {
    ethers::utils::keccak256(signature.as_bytes())[..4].to_vec()
}

#[test]
fn all_watched_assets_are_asked_for_once() {
    let all = addresses();
    let mut feed = RateFeed::new(&all);
    let mut refresh = feed.refresh(&all, addr(0x77)).unwrap();
    let mut calls = Vec::new();
    let aave = reply(96, &[(48, 20_000_000_000_000_000_000_000_000), (80, 50_000_000_000_000_000_000_000_000)]);
    let market = reply(96, &[(0, 100), (32, 79)]);
    while let Some(c) = refresh.request(&feed, &all) {
        let answer = if c.to == addr(0x77) { aave.clone() } else { market.clone() };
        calls.push((c.to, c.data));
        refresh.step(&mut feed, &all, &Some(answer));
    }
    let reserve = |asset: &str| {
        let mut data = selector("getReserveData(address)");
        data.extend(encode(&[Token::Address(H160(parse(asset)))]));
        (addr(0x77), data)
    };
    let state = |id: u8| {
        let mut data = selector("market(bytes32)");
        data.extend(vec![id; 32]);
        (addr(6), data)
    };
    let expected = vec![
        reserve(USDC),
        state(0x11),
        reserve(WETH),
        state(0x2b),
        reserve(CBETH),
        reserve(WSTETH),
        reserve(CBBTC),
    ];
    assert_eq!(calls, expected);
    assert_eq!(feed.monitored_assets().len(), 5);
    let (supply, borrow) = native_market(100, 79, 0);
    assert_eq!(feed.get_best_spread(parse(USDC)), (d(supply), d(0.05)));
    assert!(borrow > 0.05);
    assert_eq!(feed.get_best_proto_addresses(parse(USDC)), (addr(6), addr(0x77)));
    assert_eq!(feed.get_best_spread(parse(CBETH)), (d(0.02), d(0.05)));
    assert_eq!(feed.get_best_proto_addresses(parse(CBETH)), (addr(0x77), addr(0x77)));
}

#[test]
fn silent_protocols_pay_nothing_and_ask_everything() {
    let all = addresses();
    let mut feed = RateFeed::new(&all);
    let mut refresh = feed.refresh(&all, addr(0x77)).unwrap();
    while refresh.request(&feed, &all).is_some() {
        refresh.step(&mut feed, &all, &None);
    }
    assert_eq!(feed.get_best_spread(parse(WETH)), (d(0.0), d(f64::MAX)));
    assert_eq!(feed.get_best_proto_addresses(parse(WETH)), (addr(0x77), addr(0x77)));
}
