use corvus::u256::{u128_at, U256};

type Wide = ethers::types::U256;

fn wide(x: U256) -> Wide {
    ethers::types::U256([x.w0, x.w1, x.w2, x.w3])
}

fn narrow(x: Wide) -> U256 {
    U256 { w0: x.0[0], w1: x.0[1], w2: x.0[2], w3: x.0[3] }
}

fn samples() -> Vec<Wide> {
    let mut all = vec![
        Wide::zero(),
        Wide::one(),
        Wide::MAX,
        Wide::MAX - 1,
        Wide::from(u64::MAX),
        Wide::from(u128::MAX),
        Wide::from(u128::MAX) + 1,
        Wide::from(10).pow(Wide::from(18)),
        Wide::from(10).pow(Wide::from(60)),
    ];
    let mut seed = Wide::from(0x9e37_79b9_7f4a_7c15u64);
    for k in 0..200usize {
        seed = seed.overflowing_mul(Wide::from(6364136223846793005u64)).0.overflowing_add(Wide::from(1442695040888963407u64)).0;
        all.push(seed >> (k % 256));
    }
    all
}

#[test]
fn integers_agree_with_the_reference_arithmetic() {
    for a in samples() {
        assert_eq!(narrow(a).is_zero(), a.is_zero());
        assert_eq!(narrow(a).fits_u128(), a <= Wide::from(u128::MAX));
        if narrow(a).fits_u128() {
            assert_eq!(narrow(a).as_u128(), a.as_u128());
            assert_eq!(wide(U256::from_u128(a.as_u128())), a);
        }
        for k in [1u64, 2, 3, 40, 60, 95, 99, 100, 1000, 1005, u64::MAX] {
            let product = a.checked_mul(Wide::from(k));
            assert_eq!(narrow(a).checked_times(k).map(wide), product);
            if let Some(p) = product {
                assert_eq!(wide(narrow(a).times(k)), p);
            }
            assert_eq!(wide(narrow(a).over(k)), a / Wide::from(k));
        }
        assert_eq!(wide(narrow(a).over_q96()), a >> 96);
        assert_eq!(wide(narrow(a).rest_q96()), a % (Wide::one() << 96));
        let mut bytes = [0u8; 32];
        a.to_big_endian(&mut bytes);
        assert_eq!(wide(U256::from_big_endian(&bytes)), a);
        for b in samples() {
            assert_eq!(narrow(a).is_below(&narrow(b)), a < b);
            assert_eq!(wide(narrow(a).min(narrow(b))), a.min(b));
            assert_eq!(wide(narrow(a).saturating_add(narrow(b))), a.saturating_add(b));
            if b <= a {
                assert_eq!(wide(narrow(a).minus(narrow(b))), a - b);
            }
        }
    }
}

#[test]
fn short_big_endian_bytes_are_read() {
    assert!(U256::from_big_endian(&[]).is_zero());
    assert_eq!(U256::from_big_endian(&[1, 2]).as_u128(), 258);
    assert_eq!(wide(U256::max_value()), Wide::MAX);
    assert_eq!(wide(U256::from_u64(7)), Wide::from(7));
}

#[test]
fn sixteen_bytes_are_read_from_a_place() {
    let bytes: Vec<u8> = (0u8..40).collect();
    let expected = u128::from_be_bytes(bytes[5..21].try_into().unwrap());
    assert_eq!(u128_at(&bytes, 5), expected);
}
