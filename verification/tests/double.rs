use corvus::double::arithmetic::{from_u128, from_u256};
use corvus::double::Double;
use corvus::u256::U256;

fn d(x: f64) -> Double {
    Double { bits: x.to_bits() }
}

fn f(x: Double) -> f64 {
    f64::from_bits(x.bits)
}

struct Words(u64);

impl Words {
    fn next(&mut self) -> u64 {
        self.0 ^= self.0 << 13;
        self.0 ^= self.0 >> 7;
        self.0 ^= self.0 << 17;
        self.0
    }
}

fn special() -> Vec<f64> {
    vec![
        0.0,
        -0.0,
        1.0,
        -1.0,
        1.5,
        0.1,
        0.3,
        3.0,
        10.0,
        1e18,
        1e27,
        1.0 / 3.0,
        2.0f64.powi(52),
        2.0f64.powi(53),
        2.0f64.powi(53) - 1.0,
        2.0f64.powi(96),
        2.0f64.powi(128),
        f64::MAX,
        f64::MIN,
        f64::MIN_POSITIVE,
        f64::from_bits(1),
        f64::from_bits(0x000f_ffff_ffff_ffff),
        f64::from_bits(0x8000_0000_0000_0001),
        f64::INFINITY,
        f64::NEG_INFINITY,
        f64::NAN,
        f64::EPSILON,
        1.0 + f64::EPSILON,
        1.0 - f64::EPSILON / 2.0,
    ]
}

fn pairs() -> Vec<(f64, f64)> {
    let mut all = Vec::new();
    for a in special() {
        for b in special() {
            all.push((a, b));
        }
    }
    let mut words = Words(0x9e37_79b9_7f4a_7c15);
    for _ in 0..20_000 {
        let a = words.next();
        let b = words.next();
        all.push((f64::from_bits(a), f64::from_bits(b)));
        // Numbers of similar size, where sums cancel and round.
        let near = (a & 0x800f_ffff_ffff_ffff) | ((0x3f0 + (a >> 57)) << 52);
        let next = (b & 0x800f_ffff_ffff_ffff) | ((0x3f0 + (b >> 57)) << 52);
        all.push((f64::from_bits(near), f64::from_bits(next)));
        // Subnormal numbers.
        all.push((f64::from_bits(a & 0x801f_ffff_ffff_ffff), f64::from_bits(b & 0x801f_ffff_ffff_ffff)));
    }
    all
}

fn same(a: Double, b: f64) -> bool {
    if b.is_nan() {
        a.is_nan()
    } else {
        a.bits == b.to_bits()
    }
}

#[test]
fn sums_round_as_the_machine_does() {
    for (a, b) in pairs() {
        assert!(same(d(a).add(d(b)), a + b), "{:?} + {:?}", a, b);
        assert!(same(d(a).sub(d(b)), a - b), "{:?} - {:?}", a, b);
    }
}

#[test]
fn products_round_as_the_machine_does() {
    for (a, b) in pairs() {
        assert!(same(d(a).mul(d(b)), a * b), "{:?} * {:?}", a, b);
    }
}

#[test]
fn quotients_round_as_the_machine_does() {
    for (a, b) in pairs() {
        assert!(same(d(a).div(d(b)), a / b), "{:?} / {:?}", a, b);
    }
}

#[test]
fn order_is_that_of_the_machine() {
    for (a, b) in pairs() {
        assert_eq!(d(a).is_below(d(b)), a < b);
        assert_eq!(d(a).is_at_most(d(b)), a <= b);
        assert_eq!(d(a).is_zero(), a == 0.0);
        assert_eq!(d(a).is_nan(), a.is_nan());
        let least = f(d(a).min(d(b)));
        let greatest = f(d(a).max(d(b)));
        assert!(least == a.min(b) || (least.is_nan() && a.min(b).is_nan()));
        assert!(greatest == a.max(b) || (greatest.is_nan() && a.max(b).is_nan()));
    }
}

#[test]
fn order_laws_hold_on_values() {
    let (a, b, c) = (d(-1.5), d(0.25), d(1e300));
    assert!(!a.is_below(a));
    assert!(a.is_below(b) && b.is_below(c) && a.is_below(c));
    assert!(!b.is_below(a));
    assert!(!d(f64::NAN).is_below(a) && !a.is_below(d(f64::NAN)));
    assert!(!d(f64::NAN).is_at_most(d(f64::NAN)));
}

#[test]
fn whole_parts_are_those_of_the_machine() {
    let mut words = Words(0x1234_5678_9abc_def1);
    let mut all = special();
    for _ in 0..20_000 {
        all.push(f64::from_bits(words.next()));
        let w = words.next();
        all.push(f64::from_bits((w & 0x000f_ffff_ffff_ffff) | ((0x3f0 + (w >> 56)) << 52)));
    }
    for x in all {
        assert_eq!(d(x).to_u128(), x as u128, "{:?}", x);
        assert_eq!(d(x).to_u64(), x as u64, "{:?}", x);
        assert_eq!(d(x).ceil_to_u8(), x.ceil() as u8, "{:?}", x);
        assert_eq!(d(x).abs().bits, x.abs().to_bits());
    }
}

#[test]
fn integers_convert_as_the_machine_does() {
    let mut words = Words(0xdead_beef_cafe_f00d);
    let mut all: Vec<u128> = vec![0, 1, 2, 3, u64::MAX as u128, u128::MAX, u128::MAX - 1, 1 << 127, 1 << 53];
    for k in 0..128 {
        all.push(1u128 << k);
        all.push((1u128 << k).wrapping_sub(1));
        all.push((1u128 << k).wrapping_add(1));
    }
    for _ in 0..20_000 {
        let wide = (words.next() as u128) << 64 | words.next() as u128;
        all.push(wide >> (words.next() % 128));
    }
    for n in all {
        assert_eq!(from_u128(n).bits, (n as f64).to_bits(), "{}", n);
    }
}

#[test]
fn growth_laws_hold_on_values() {
    let amounts = [0.0, 1e-300, 0.1, 0.3, 1.0, 7.7, 1e18, 1e200];
    for x in amounts {
        for y in amounts {
            assert!(d(x).is_at_most(d(x).add(d(y))));
            if y >= 1.0 {
                assert!(d(x).is_at_most(d(x).mul(d(y))));
                assert!(d(x).div(d(y)).is_at_most(d(x)));
            }
            if y <= 1.0 {
                assert!(d(x).mul(d(y)).is_at_most(d(x)));
            }
            if x <= y && y > 0.0 {
                assert!(d(x).div(d(y)).is_at_most(d(1.0)));
                assert!(d(y).sub(d(x)).is_at_most(d(y)));
            }
            assert_eq!(d(x).mul(d(y)).bits, d(y).mul(d(x)).bits);
        }
    }
}

#[test]
fn wide_integers_convert_to_the_nearest_double() {
    let mut words = Words(0x1234_5678_9abc_def1);
    let mut all = vec![[0u64; 4], [u64::MAX; 4], [0, 0, 1, 0], [1, 0, 0, 1], [0, 0, 0, 1 << 63]];
    // Halfway between two doubles, and just beside the middle.
    all.push([0, 0, 0, (1 << 63) | (1 << 10)]);
    all.push([1, 0, 0, (1 << 63) | (1 << 10)]);
    all.push([0, 0, 0, (1 << 63) | (3 << 10)]);
    all.push([0, 1 << 11, 1, 0]);
    all.push([1, 1 << 11, 1, 0]);
    for k in 0..400usize {
        let mut w = [words.next(), words.next(), words.next(), words.next()];
        for high in w.iter_mut().skip(k % 4 + 1) {
            *high = 0;
        }
        w[k % 4] >>= k % 61;
        all.push(w);
    }
    for w in all {
        let expected: f64 = ethers::types::U256(w).to_string().parse().unwrap();
        let got = from_u256(U256 { w0: w[0], w1: w[1], w2: w[2], w3: w[3] });
        assert_eq!(got.bits, expected.to_bits(), "{:?}", w);
    }
}

#[test]
fn counting_is_exact_on_values() {
    for n in [0u128, 1, 2, 1000, (1 << 53) - 2] {
        assert_eq!(from_u128(n).add(d(1.0)).bits, from_u128(n + 1).bits);
        assert_eq!(from_u128(n + 1).sub(d(1.0)).bits, from_u128(n).bits);
    }
    for n in [-1.0, -2.0, -1000.0, 1.0 - 2.0f64.powi(53)] {
        assert_eq!(d(n).add(d(1.0)).sub(d(1.0)).bits, d(n).bits);
    }
}
