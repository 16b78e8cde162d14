use corvus::double::Double;
use corvus::shared::address::Address;
use corvus::shared::addresses::Addresses;
use corvus::shared::flash_loan::calldata::{
    encode_execute_params, execute_selector, is_stable_pool, router_for, STRAT_TRI_ARB,
};
use corvus::shared::flash_loan::depths::{
    balance_of, batch_value, parse_mc3_uint256, read_balance, DepthQuery,
};
use corvus::shared::flash_loan::jit::{compute_jit_amounts, encode_swap_exact_input, RangePrice};
use corvus::shared::flash_loan::{FlashError, FlashLoanRouter, FlashProvider};
use corvus::shared::market::{Balances, BorrowPosition, DexType, LendingProtocol, PoolState};
use corvus::strategies::rate_arb::RateArbPosition;
use corvus::u256::U256;
use ethers::abi::{encode, Token};
use ethers::types::H160;

const EXECUTE: &str = "execute((uint8,address[],uint256[],uint8,bytes,uint256,address))";

fn d(x: f64) -> Double {
    Double { bits: x.to_bits() }
}

fn addr(n: u8) -> Address {
    [n; 20]
}

fn a(n: u8) -> Token {
    Token::Address(H160([n; 20]))
}

fn u(n: u128) -> Token {
    Token::Uint(ethers::types::U256::from(n))
}

fn wide(x: U256) -> ethers::types::U256 {
    ethers::types::U256([x.w0, x.w1, x.w2, x.w3])
}

fn call(signature: &str, tokens: &[Token]) -> Vec<u8> {
    let mut data = ethers::utils::keccak256(signature.as_bytes())[..4].to_vec();
    data.extend(encode(tokens));
    data
}

fn text(n: u8) -> String {
    format!("{:?}", H160([n; 20]))
}

fn addresses() -> Addresses {
    Addresses {
        usdc: text(1),
        weth: text(2),
        cbeth: text(3),
        wsteth: text(4),
        cbbtc: text(5),
        morpho_blue: text(6),
        multicall3: text(7),
        aerodrome_router: text(0xa0),
        uniswap_v3_router: text(0xb0),
        aave_v3_pool_proxy: text(9),
        chainlink_eth_usd: text(10),
        chainlink_cbbtc_usd: text(11),
        morpho_market_usdc_weth: "0".repeat(64),
        morpho_market_weth_usdc: "0".repeat(64),
        morpho_market_cbeth_usdc: "0".repeat(64),
        morpho_market_cbbtc_usdc: "0".repeat(64),
        morpho_market_wsteth_usdc: "0".repeat(64),
    }
}

fn router() -> FlashLoanRouter {
    FlashLoanRouter { balancer: addr(0x21), morpho: addr(0x22), executor: addr(0x23), multicall: addr(0x24) }
}

fn pool(dex: DexType, fee_bps: u32) -> PoolState {
    PoolState {
        address: addr(0x31),
        token0: addr(0x32),
        token1: addr(0x33),
        fee_bps,
        dex,
        reserve0: U256::from_u64(1_000_000),
    }
}

fn plan(provider: u8, token: u8, amount: u128, strat: u8, data: Vec<u8>, min_profit: u128) -> Vec<u8> {
    call(
        EXECUTE,
        &[Token::Tuple(vec![
            u(provider as u128),
            Token::Array(vec![a(token)]),
            Token::Array(vec![u(amount)]),
            u(strat as u128),
            Token::Bytes(data),
            u(min_profit),
            a(token),
        ])],
    )
}

fn step(router: u8, token_in: u8, token_out: u8, fee_ppm: u128, stable: bool, v3: bool, min_out: u128) -> Token {
    Token::Tuple(vec![
        a(router),
        a(token_in),
        a(token_out),
        u(fee_ppm),
        Token::Bool(stable),
        Token::Bool(v3),
        u(min_out),
    ])
}

#[test]
fn providers_have_their_numbers() {
    assert_eq!(FlashProvider::Balancer.as_u8(), 0);
    assert_eq!(FlashProvider::Morpho.as_u8(), 1);
    assert_eq!(FlashProvider::Aave.as_u8(), 2);
}

#[test]
fn the_lender_is_chosen_by_what_it_holds() {
    let held = |b: u64, m: u64| Balances { balancer: U256::from_u64(b), morpho: U256::from_u64(m) };
    let r = router();
    let pick = |amount: u64, b: u64, m: u64| r.select_provider(U256::from_u64(amount), &held(b, m));
    assert_eq!(pick(95, 100, 0), FlashProvider::Balancer);
    assert_eq!(pick(96, 100, 160), FlashProvider::Morpho);
    assert_eq!(pick(97, 100, 160), FlashProvider::Aave);
    assert_eq!(pick(0, 0, 0), FlashProvider::Balancer);
    // The shares are rounded down.
    assert_eq!(pick(19, 20, 0), FlashProvider::Balancer);
    assert_eq!(pick(18, 19, 0), FlashProvider::Balancer);
    assert_eq!(pick(19, 19, 31), FlashProvider::Aave);
    assert_eq!(pick(18, 10, 31), FlashProvider::Morpho);
}

#[test]
fn a_balance_is_asked_for_and_read() {
    let c = balance_of(addr(1), addr(2));
    assert_eq!(c.to, addr(1));
    assert_eq!(c.data, call("balanceOf(address)", &[a(2)]));
    assert_eq!(&c.data[..4], &[0x70, 0xa0, 0x82, 0x31]);
    let mut word = [0u8; 32];
    word[31] = 9;
    word[30] = 1;
    assert_eq!(read_balance(&word).as_u128(), 265);
    assert_eq!(router().get_provider_depth(addr(5)).data, call("balanceOf(address)", &[a(0x21)]));
    assert_eq!(router().get_provider_depth(addr(5)).to, addr(5));
}

fn batch_reply(first: Option<u128>, second: Option<u128>) -> Vec<u8> {
    let member = |n: Option<u128>| match n {
        Some(n) => Token::Tuple(vec![Token::Bool(true), Token::Bytes(encode(&[u(n)]))]),
        None => Token::Tuple(vec![Token::Bool(false), Token::Bytes(encode(&[u(77)]))]),
    };
    encode(&[Token::Array(vec![member(first), member(second)])])
}

#[test]
fn a_batch_is_read_member_by_member() {
    let reply = batch_reply(Some(12), Some(34));
    assert_eq!(parse_mc3_uint256(&reply, 0).map(|n| n.as_u128()), Some(12));
    assert_eq!(parse_mc3_uint256(&reply, 1).map(|n| n.as_u128()), Some(34));
    assert!(parse_mc3_uint256(&reply, 2).is_none());
    assert!(parse_mc3_uint256(&batch_reply(None, Some(1)), 0).is_none());
    assert!(parse_mc3_uint256(&[1, 2, 3], 0).is_none());
    let short = encode(&[Token::Array(vec![Token::Tuple(vec![Token::Bool(true), Token::Bytes(vec![1; 31])])])]);
    assert!(parse_mc3_uint256(&short, 0).is_none());
}

#[test]
fn decoded_batches_of_another_shape_hold_nothing() {
    let member = |t: Vec<Token>| Some(vec![Token::Array(vec![Token::Tuple(t)])]);
    assert!(batch_value(None, 0).is_none());
    assert!(batch_value(Some(vec![]), 0).is_none());
    assert!(batch_value(Some(vec![u(1)]), 0).is_none());
    assert!(batch_value(Some(vec![Token::Array(vec![u(1)])]), 0).is_none());
    assert!(batch_value(member(vec![Token::Bool(true)]), 0).is_none());
    assert!(batch_value(member(vec![Token::Bool(true), u(4)]), 0).is_none());
    let good = member(vec![Token::Bool(true), Token::Bytes(encode(&[u(5), u(6)]))]);
    assert_eq!(batch_value(good, 0).map(|n| n.as_u128()), Some(5));
}

#[test]
fn depths_are_asked_for_in_one_batch() {
    let q = DepthQuery::Batched { asset: addr(0x40) };
    let c = q.request(&router()).unwrap();
    assert_eq!(c.to, addr(0x24));
    let inner = |account: u8| {
        Token::Tuple(vec![
            a(0x40),
            Token::Bool(true),
            Token::Bytes(call("balanceOf(address)", &[a(account)])),
        ])
    };
    let expected = call("aggregate3((address,bool,bytes)[])", &[Token::Array(vec![inner(0x21), inner(0x22)])]);
    assert_eq!(c.data, expected);
    match q.step(Some(batch_reply(Some(8), None))) {
        DepthQuery::Known { balancer, morpho } => {
            assert_eq!(balancer.as_u128(), 8);
            assert!(morpho.is_zero());
        }
        _ => panic!("the batch has answered"),
    }
}

#[test]
fn a_failed_batch_is_replaced_by_single_calls() {
    let q = DepthQuery::Batched { asset: addr(0x40) }.step(None);
    let c = q.request(&router()).unwrap();
    assert_eq!((c.to, c.data), (addr(0x40), call("balanceOf(address)", &[a(0x21)])));
    let q = q.step(Some(vec![5]));
    let c = q.request(&router()).unwrap();
    assert_eq!((c.to, c.data), (addr(0x40), call("balanceOf(address)", &[a(0x22)])));
    match q.step(None) {
        DepthQuery::Known { balancer, morpho } => {
            assert_eq!(balancer.as_u128(), 5);
            assert!(morpho.is_zero());
        }
        _ => panic!("both are known"),
    }
}

#[test]
fn the_entry_point_is_encoded() {
    assert_eq!(execute_selector(), ethers::utils::keccak256(EXECUTE.as_bytes())[..4].to_vec());
    let data = encode_execute_params(
        FlashProvider::Morpho,
        vec![addr(1), addr(2)],
        vec![U256::from_u64(3)],
        STRAT_TRI_ARB,
        vec![9, 8, 7],
        U256::from_u64(4),
        addr(5),
    );
    let expected = call(
        EXECUTE,
        &[Token::Tuple(vec![
            u(1),
            Token::Array(vec![a(1), a(2)]),
            Token::Array(vec![u(3)]),
            u(1),
            Token::Bytes(vec![9, 8, 7]),
            u(4),
            a(5),
        ])],
    );
    assert_eq!(data, expected);
}

#[test]
fn routers_and_stable_pools() {
    assert_eq!(router_for(&addresses(), DexType::Aerodrome), Ok(addr(0xa0)));
    assert_eq!(router_for(&addresses(), DexType::UniswapV3), Ok(addr(0xb0)));
    let mut bad = addresses();
    bad.aerodrome_router = String::from("0x12");
    assert_eq!(router_for(&bad, DexType::Aerodrome), Err(FlashError::BadRouter(DexType::Aerodrome)));
    assert!(is_stable_pool(&pool(DexType::Aerodrome, 9)));
    assert!(!is_stable_pool(&pool(DexType::Aerodrome, 10)));
    assert!(!is_stable_pool(&pool(DexType::UniswapV3, 1)));
}

#[test]
fn an_arbitrage_between_two_pools_is_encoded() {
    let (buy, sell) = (pool(DexType::Aerodrome, 5), pool(DexType::UniswapV3, 30));
    let data = router()
        .build_cross_dex_arb(
            &addresses(),
            FlashProvider::Balancer,
            U256::from_u64(1000),
            &buy,
            &sell,
            U256::from_u64(7),
        )
        .unwrap();
    let strat = encode(&[Token::Tuple(vec![
        u(1000),
        step(0xa0, 0x32, 0x33, 500, true, false, 0),
        step(0xb0, 0x33, 0x32, 3000, false, true, 1007),
    ])]);
    assert_eq!(data, plan(0, 0x32, 1000, 0, strat, 7));
    let mut bad = addresses();
    bad.uniswap_v3_router = String::new();
    let failed = router().build_cross_dex_arb(
        &bad,
        FlashProvider::Balancer,
        U256::from_u64(1000),
        &buy,
        &sell,
        U256::from_u64(7),
    );
    assert_eq!(failed, Err(FlashError::BadRouter(DexType::UniswapV3)));
}

#[test]
fn the_floor_of_the_last_swap_saturates() {
    let (buy, sell) = (pool(DexType::UniswapV3, 5), pool(DexType::UniswapV3, 30));
    let data = router()
        .build_cross_dex_arb(
            &addresses(),
            FlashProvider::Aave,
            U256::max_value(),
            &buy,
            &sell,
            U256::from_u64(7),
        )
        .unwrap();
    let max = Token::Uint(ethers::types::U256::MAX);
    let last = Token::Tuple(vec![a(0xb0), a(0x33), a(0x32), u(3000), Token::Bool(false), Token::Bool(true), max.clone()]);
    let strat = encode(&[Token::Tuple(vec![max.clone(), step(0xb0, 0x32, 0x33, 500, false, true, 0), last])]);
    let expected = call(
        EXECUTE,
        &[Token::Tuple(vec![
            u(2),
            Token::Array(vec![a(0x32)]),
            Token::Array(vec![max]),
            u(0),
            Token::Bytes(strat),
            u(7),
            a(0x32),
        ])],
    );
    assert_eq!(data, expected);
}

#[test]
fn a_circular_route_is_encoded() {
    let data = router()
        .build_tri_arb(
            &addresses(),
            FlashProvider::Aave,
            [addr(1), addr(2), addr(3)],
            [0, 1, 0],
            [5, 30, 100],
            [true, false, false],
            U256::from_u64(500),
            U256::from_u64(11),
        )
        .unwrap();
    let steps = vec![
        step(0xa0, 1, 2, 500, true, false, 0),
        step(0xb0, 2, 3, 3000, false, true, 0),
        step(0xa0, 3, 1, 10000, false, false, 511),
    ];
    let strat = encode(&[Token::Tuple(vec![u(500), Token::FixedArray(steps)])]);
    assert_eq!(data, plan(2, 1, 500, 1, strat, 11));
}

#[test]
fn a_route_through_an_unknown_exchange_is_refused() {
    let build = |addresses: &Addresses, dex_types: [u8; 3]| {
        router().build_tri_arb(
            addresses,
            FlashProvider::Aave,
            [addr(1), addr(2), addr(3)],
            dex_types,
            [5, 30, 100],
            [false; 3],
            U256::from_u64(500),
            U256::from_u64(11),
        )
    };
    assert_eq!(build(&addresses(), [0, 1, 2]), Err(FlashError::UnsupportedDex(2)));
    assert_eq!(build(&addresses(), [7, 9, 2]), Err(FlashError::UnsupportedDex(7)));
    let mut bad = addresses();
    bad.uniswap_v3_router = String::from("none");
    assert_eq!(build(&bad, [0, 1, 2]), Err(FlashError::BadRouter(DexType::UniswapV3)));
}

fn borrower(protocol: LendingProtocol) -> BorrowPosition {
    BorrowPosition {
        protocol,
        borrower: addr(0x51),
        collateral_asset: addr(0x52),
        debt_asset: addr(0x53),
        debt_amount: U256::from_u64(900),
        morpho_market_params: vec![1, 2, 3],
    }
}

#[test]
fn a_liquidation_is_encoded() {
    for (protocol, id) in [(LendingProtocol::Morpho, 0), (LendingProtocol::Aave, 1)] {
        let data = router()
            .build_liquidation(
                &addresses(),
                &borrower(protocol),
                FlashProvider::Morpho,
                &vec![4, 5],
                U256::from_u64(66),
            )
            .unwrap();
        let strat = encode(&[Token::Tuple(vec![
            u(id),
            a(0x51),
            a(0x52),
            a(0x53),
            u(900),
            Token::Bytes(vec![1, 2, 3]),
            a(0xb0),
            Token::Bytes(vec![4, 5]),
        ])]);
        assert_eq!(data, plan(1, 0x53, 900, 2, strat, 66));
    }
    let mut bad = addresses();
    bad.uniswap_v3_router = String::from("zz");
    let failed = router().build_liquidation(
        &bad,
        &borrower(LendingProtocol::Aave),
        FlashProvider::Morpho,
        &vec![],
        U256::zero(),
    );
    assert_eq!(failed, Err(FlashError::BadRouter(DexType::UniswapV3)));
}

#[test]
fn a_swap_sends_its_output_to_the_recipient() {
    let data = encode_swap_exact_input(addr(1), addr(2), 30, addr(3), U256::from_u64(44), U256::from_u64(5));
    let expected = call(
        "exactInputSingle((address,address,uint24,address,uint256,uint256,uint160))",
        &[Token::Tuple(vec![a(1), a(2), u(3000), a(3), u(44), u(5), u(0)])],
    );
    assert_eq!(data, expected);
}

fn native_amounts(sqrt_price: ethers::types::U256, sq_a: f64, sq_b: f64, amount: u128, zfo: bool) -> (u128, u128) {
    let q96 = ethers::types::U256::one() << 96;
    let sq_hi = (sqrt_price / q96).as_u128() as f64;
    let sq_lo = (sqrt_price % q96).as_u128() as f64 / (1u128 << 96) as f64;
    let sq_c = sq_hi + sq_lo;
    let total = amount as f64;
    let denom = (sq_c - sq_a) + (1.0 / sq_c - 1.0 / sq_b);
    if denom <= 0.0 || sq_b <= sq_c || sq_a >= sq_c {
        return if zfo { (amount, 0) } else { (0, amount) };
    }
    let liq = total / denom;
    let amount1 = liq * (sq_c - sq_a);
    let amount0 = liq * (1.0 / sq_c - 1.0 / sq_b);
    (amount0.max(0.0) as u128, amount1.max(0.0) as u128)
}

#[test]
fn liquidity_is_split_by_the_price() {
    for (tl, tu) in [(-100, 100), (-10, 5000), (2000, 3000), (-60, 0), (0, 60)] {
        let (sq_a, sq_b) = (1.0001f64.powf(tl as f64 / 2.0), 1.0001f64.powf(tu as f64 / 2.0));
        for tick in [-200, -50, 0, 1, 2500, 6000] {
            let root = 1.0001f64.powf(tick as f64 / 2.0);
            let scaled = (root * 2.0f64.powi(60)) as u128;
            let sqrt_price = ethers::types::U256::from(scaled) << 36;
            for amount in [0u128, 1, 999, 1_000_000_000_000_000_000, u64::MAX as u128 + 5, u128::MAX] {
                for zfo in [true, false] {
                    let price = RangePrice {
                        sqrt_price_x96: U256 {
                            w0: sqrt_price.0[0],
                            w1: sqrt_price.0[1],
                            w2: sqrt_price.0[2],
                            w3: sqrt_price.0[3],
                        },
                        sqrt_lower: d(sq_a),
                        sqrt_upper: d(sq_b),
                    };
                    let (x, y) = compute_jit_amounts(&price, U256::from_u128(amount), zfo);
                    let expected = native_amounts(sqrt_price, sq_a, sq_b, amount, zfo);
                    assert_eq!((x.as_u128(), y.as_u128()), expected);
                    // The parts add up to the whole, but for the rounding.
                    let slack = amount / (1 << 50) + 3;
                    let sum = x.saturating_add(y);
                    assert!(sum.minus(sum.min(U256::from_u128(amount))).as_u128() <= slack);
                    assert!(amount - sum.min(U256::from_u128(amount)).as_u128() <= slack);
                }
            }
        }
    }
}

#[test]
fn a_position_of_the_liquidity_strategy_is_encoded() {
    let build = |price: &Option<RangePrice>, zfo: bool, amount: u64| {
        router().build_flash_jit(
            &addresses(),
            FlashProvider::Balancer,
            price,
            addr(1),
            addr(2),
            500,
            -120,
            60,
            U256::from_u64(amount),
            3,
            zfo,
        )
    };
    let expected = |zfo: bool, amount: u128, x: u128, y: u128| {
        let (tin, tout) = if zfo { (1, 2) } else { (2, 1) };
        let swap = call(
            "exactInputSingle((address,address,uint24,address,uint256,uint256,uint160))",
            &[Token::Tuple(vec![a(tin), a(tout), u(50_000), a(0x23), u(amount), u(0), u(0)])],
        );
        let strat = encode(&[Token::Tuple(vec![
            a(1),
            a(2),
            u(500),
            Token::Int(ethers::types::U256::from((-120i64) as u64)),
            Token::Int(ethers::types::U256::from(60u64)),
            u(x),
            u(y),
            u(x * 99 / 100),
            u(y * 99 / 100),
            Token::Bool(zfo),
            u(amount),
            a(0xb0),
            Token::Bytes(swap),
        ])]);
        plan(0, tin, amount, 3, strat, 3)
    };
    // Without a price the amount is halved.
    assert_eq!(build(&None, true, 1001).unwrap(), expected(true, 1001, 500, 501));
    assert_eq!(build(&None, false, 8).unwrap(), expected(false, 8, 4, 4));
    // A price outside the range takes one token alone.
    let price = RangePrice { sqrt_price_x96: U256::zero(), sqrt_lower: d(0.9), sqrt_upper: d(1.1) };
    assert_eq!(build(&Some(price), true, 1001).unwrap(), expected(true, 1001, 1001, 0));
    assert_eq!(build(&Some(price), false, 1001).unwrap(), expected(false, 1001, 0, 1001));
    let mut bad = addresses();
    bad.uniswap_v3_router = String::from("?");
    let failed = router().build_flash_jit(
        &bad,
        FlashProvider::Balancer,
        &None,
        addr(1),
        addr(2),
        500,
        -120,
        60,
        U256::from_u64(10),
        3,
        true,
    );
    assert_eq!(failed, Err(FlashError::BadRouter(DexType::UniswapV3)));
}

#[test]
fn a_carry_is_opened_in_loops() {
    for (leverage, loops, loan) in [(1.0, 1u128, 1000u128), (2.5, 3, 1000), (4.0, 4, 1000), (2.5, 3, 10), (4.0, 4, 2)] {
        let data = router().build_rate_arb_open(
            FlashProvider::Aave,
            addr(1),
            U256::from_u128(loan),
            d(leverage),
            addr(8),
            addr(9),
        );
        let step = loan / loops;
        let mut amounts = vec![step; loops as usize];
        amounts[loops as usize - 1] = loan - (loops - 1) * step;
        assert_eq!(amounts.iter().sum::<u128>(), loan);
        if loan == 10 {
            assert_eq!(amounts, vec![3, 3, 4]);
        }
        let supply = |n: &u128| {
            Token::Bytes(call("supply(address,uint256,address,uint16)", &[a(1), u(*n), a(0x23), u(0)]))
        };
        let borrow = |n: &u128| {
            let args = [a(1), u(*n), u(2), u(0), a(0x23)];
            Token::Bytes(call("borrow(address,uint256,uint256,uint16,address)", &args))
        };
        let strat = encode(&[Token::Tuple(vec![
            a(8),
            a(9),
            u(loops),
            Token::Array(amounts.iter().map(supply).collect()),
            Token::Array(amounts.iter().map(borrow).collect()),
        ])]);
        assert_eq!(data, plan(2, 1, loan, 4, strat, 0));
    }
}

fn carry(debt: u64, supply: u8, borrow: u8) -> RateArbPosition {
    RateArbPosition {
        asset: addr(1),
        supply_proto: addr(supply),
        borrow_proto: addr(borrow),
        notional_usd: d(1.0),
        leverage: d(2.0),
        net_apy: d(0.01),
        health_factor: d(1.5),
        opened_block: 1,
        opened_ts: 2,
        pnl_usd: d(0.0),
        debt_amount_wei: U256::from_u64(debt),
    }
}

#[test]
fn a_carry_is_closed_with_a_loan_of_its_debt() {
    let data = router().build_rate_arb_close(&carry(777, 8, 9)).unwrap();
    let max = Token::Uint(ethers::types::U256::MAX);
    let repay = call("repay(address,uint256,uint256,address)", &[a(1), max.clone(), u(2), a(0x23)]);
    let withdraw = call("withdraw(address,uint256,address)", &[a(1), max, a(0x23)]);
    let strat = encode(&[Token::Tuple(vec![
        a(8),
        a(9),
        Token::Array(vec![Token::Bytes(repay)]),
        Token::Array(vec![Token::Bytes(withdraw)]),
    ])]);
    assert_eq!(data, plan(2, 1, 777, 5, strat, 0));
}

#[test]
fn a_carry_without_protocol_or_debt_is_not_closed() {
    assert_eq!(router().build_rate_arb_close(&carry(7, 0, 9)), Err(FlashError::ZeroProtocol));
    assert_eq!(router().build_rate_arb_close(&carry(7, 8, 0)), Err(FlashError::ZeroProtocol));
    assert_eq!(router().build_rate_arb_close(&carry(0, 0, 0)), Err(FlashError::ZeroProtocol));
    assert_eq!(router().build_rate_arb_close(&carry(0, 8, 9)), Err(FlashError::ZeroDebt));
}

#[test]
fn amounts_survive_the_way_into_a_token() {
    let n = U256 { w0: 1, w1: 2, w2: 3, w3: 4 };
    let data = encode_execute_params(FlashProvider::Aave, vec![], vec![n], 0, vec![], U256::zero(), addr(1));
    let expected = call(
        EXECUTE,
        &[Token::Tuple(vec![
            u(2),
            Token::Array(vec![]),
            Token::Array(vec![Token::Uint(wide(n))]),
            u(0),
            Token::Bytes(vec![]),
            u(0),
            a(1),
        ])],
    );
    assert_eq!(data, expected);
}
