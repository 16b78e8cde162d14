//! Unsigned 256-bit integers, the amounts of the chain.

use vstd::arithmetic::div_mod::{
    lemma_fundamental_div_mod, lemma_fundamental_div_mod_converse,
};
use vstd::prelude::*;

verus! {

/// An unsigned 256-bit integer, as four 64-bit words, the least significant first.
#[derive(Clone, Copy, Debug, PartialEq, Eq, Structural)]
pub struct U256 {
    pub w0: u64,
    pub w1: u64,
    pub w2: u64,
    pub w3: u64,
}

/// Two to the power 256.
pub open spec fn limit() -> int {
    0x1_0000_0000_0000_0000_0000_0000_0000_0000_0000_0000_0000_0000_0000_0000_0000_0000int
}

/// The integer whose big-endian digits in base 256 are `bytes`.
pub open spec fn big_endian(bytes: Seq<u8>) -> nat
    decreases bytes.len(),
{
    if bytes.len() == 0 {
        0
    } else {
        big_endian(bytes.drop_last()) * 256 + bytes.last() as nat
    }
}

impl View for U256 {
    type V = nat;

    open spec fn view(&self) -> nat {
        (self.w0 + 0x1_0000_0000_0000_0000 * self.w1
            + 0x1_0000_0000_0000_0000_0000_0000_0000_0000int * self.w2
            + 0x1_0000_0000_0000_0000_0000_0000_0000_0000_0000_0000_0000_0000int
            * self.w3) as nat
    }
}

/// The 256-bit integer of the given value.
pub open spec fn u256_of(n: nat) -> U256 {
    choose|u: U256| u@ == n
}

/// The words of a 256-bit integer, worked out from its value.
proof fn lemma_words(x: U256)
    ensures
        ({
            let m = 0x1_0000_0000_0000_0000int;
            let v = x@ as int;
            &&& x.w0 == v % m
            &&& x.w1 == (v / m) % m
            &&& x.w2 == (v / m / m) % m
            &&& x.w3 == v / m / m / m
        }),
{
    let m = 0x1_0000_0000_0000_0000int;
    let c = x.w3 as int;
    let b = x.w2 + m * c;
    let a = x.w1 + m * b;
    assert(x@ == x.w0 + m * a);
    lemma_fundamental_div_mod_converse(x@ as int, m, a, x.w0 as int);
    lemma_fundamental_div_mod_converse(a, m, b, x.w1 as int);
    lemma_fundamental_div_mod_converse(b, m, c, x.w2 as int);
}

/// A 256-bit integer is the one of its value.
pub proof fn lemma_u256_of(u: U256)
    ensures
        u256_of(u@) == u,
{
    lemma_words(u);
    lemma_words(u256_of(u@));
}

/// Every value below the limit has a 256-bit integer.
pub proof fn lemma_u256_value(n: nat)
    requires
        n < limit(),
    ensures
        u256_of(n)@ == n,
{
    let m = 0x1_0000_0000_0000_0000int;
    let (a, b, c) = (n as int / m, n as int / m / m, n as int / m / m / m);
    lemma_fundamental_div_mod(n as int, m);
    lemma_fundamental_div_mod(a, m);
    lemma_fundamental_div_mod(b, m);
    let u = U256 {
        w0: (n as int % m) as u64,
        w1: (a % m) as u64,
        w2: (b % m) as u64,
        w3: c as u64,
    };
    assert(u@ == n);
}

/// A product, word by word.
proof fn lemma_times(x: U256, k: int)
    ensures
        x@ * k == x.w0 * k + 0x1_0000_0000_0000_0000 * (x.w1 * k)
            + 0x1_0000_0000_0000_0000_0000_0000_0000_0000int * (x.w2 * k)
            + 0x1_0000_0000_0000_0000_0000_0000_0000_0000_0000_0000_0000_0000int * (x.w3 * k),
{
    let a = 0x1_0000_0000_0000_0000int;
    let b = 0x1_0000_0000_0000_0000_0000_0000_0000_0000int;
    let c = 0x1_0000_0000_0000_0000_0000_0000_0000_0000_0000_0000_0000_0000int;
    let (p, q, r, s) = (x.w0 as int, a * x.w1, b * x.w2, c * x.w3);
    assert((p + q + r + s) * k == p * k + q * k + r * k + s * k) by (nonlinear_arith);
    assert((a * x.w1) * k == a * (x.w1 * k)) by (nonlinear_arith);
    assert((b * x.w2) * k == b * (x.w2 * k)) by (nonlinear_arith);
    assert((c * x.w3) * k == c * (x.w3 * k)) by (nonlinear_arith);
}

impl U256 {
    pub fn zero() -> (r: U256)
        ensures
            r@ == 0,
    {
        U256 { w0: 0, w1: 0, w2: 0, w3: 0 }
    }

    /// The greatest 256-bit integer.
    pub fn max_value() -> (r: U256)
        ensures
            r@ == limit() - 1,
    {
        U256 { w0: u64::MAX, w1: u64::MAX, w2: u64::MAX, w3: u64::MAX }
    }

    pub fn from_u64(n: u64) -> (r: U256)
        ensures
            r@ == n,
    {
        U256 { w0: n, w1: 0, w2: 0, w3: 0 }
    }

    pub fn from_u128(n: u128) -> (r: U256)
        ensures
            r@ == n,
    {
        let low: u64 = (n % 0x1_0000_0000_0000_0000) as u64;
        let high: u64 = (n / 0x1_0000_0000_0000_0000) as u64;
        U256 { w0: low, w1: high, w2: 0, w3: 0 }
    }

    pub fn is_zero(&self) -> (r: bool)
        ensures
            r == (self@ == 0),
    {
        self.w0 == 0 && self.w1 == 0 && self.w2 == 0 && self.w3 == 0
    }

    /// `self < other`.
    pub fn is_below(&self, other: &U256) -> (r: bool)
        ensures
            r == (self@ < other@),
    {
        if self.w3 != other.w3 {
            self.w3 < other.w3
        } else if self.w2 != other.w2 {
            self.w2 < other.w2
        } else if self.w1 != other.w1 {
            self.w1 < other.w1
        } else {
            self.w0 < other.w0
        }
    }

    /// The smaller of two integers.
    pub fn min(self, other: U256) -> (r: U256)
        ensures
            r@ == if self@ <= other@ {
                self@
            } else {
                other@
            },
    {
        if other.is_below(&self) {
            other
        } else {
            self
        }
    }

    /// Whether the integer has no more than 128 bits.
    pub fn fits_u128(&self) -> (r: bool)
        ensures
            r == (self@ <= u128::MAX),
    {
        self.w2 == 0 && self.w3 == 0
    }

    /// The integer as a 128-bit one.
    pub fn as_u128(&self) -> (r: u128)
        requires
            self@ <= u128::MAX,
        ensures
            r == self@,
    {
        self.w0 as u128 + self.w1 as u128 * 0x1_0000_0000_0000_0000
    }

    /// The sum, without its carry, and the carry.
    fn add_words(a: u64, b: u64, carry: u64) -> (r: (u64, u64))
        requires
            carry <= 1,
        ensures
            r.0 + 0x1_0000_0000_0000_0000 * r.1 == a + b + carry,
            r.1 <= 1,
    {
        let sum: u128 = a as u128 + b as u128 + carry as u128;
        ((sum % 0x1_0000_0000_0000_0000) as u64, (sum / 0x1_0000_0000_0000_0000) as u64)
    }

    /// The sum, held at the greatest 256-bit integer.
    pub fn saturating_add(self, other: U256) -> (r: U256)
        ensures
            r@ == if self@ + other@ < limit() {
                self@ + other@
            } else {
                (limit() - 1) as nat
            },
    {
        let (w0, c0) = U256::add_words(self.w0, other.w0, 0);
        let (w1, c1) = U256::add_words(self.w1, other.w1, c0);
        let (w2, c2) = U256::add_words(self.w2, other.w2, c1);
        let (w3, c3) = U256::add_words(self.w3, other.w3, c2);
        let sum: U256 = U256 { w0, w1, w2, w3 };
        assert(sum@ + limit() * c3 == self@ + other@);
        if c3 == 0 {
            sum
        } else {
            U256::max_value()
        }
    }

    /// The difference of two words and what was borrowed for it.
    fn sub_words(a: u64, b: u64, borrow: u64) -> (r: (u64, u64))
        requires
            borrow <= 1,
        ensures
            r.0 as int - 0x1_0000_0000_0000_0000 * r.1 == a - b - borrow,
            r.1 <= 1,
    {
        let need: u128 = b as u128 + borrow as u128;
        if a as u128 >= need {
            ((a as u128 - need) as u64, 0)
        } else {
            ((0x1_0000_0000_0000_0000 + a as u128 - need) as u64, 1)
        }
    }

    /// The difference of two integers.
    pub fn minus(self, other: U256) -> (r: U256)
        requires
            other@ <= self@,
        ensures
            r@ == self@ - other@,
    {
        let (w0, b0) = U256::sub_words(self.w0, other.w0, 0);
        let (w1, b1) = U256::sub_words(self.w1, other.w1, b0);
        let (w2, b2) = U256::sub_words(self.w2, other.w2, b1);
        let (w3, b3) = U256::sub_words(self.w3, other.w3, b2);
        let rest: U256 = U256 { w0, w1, w2, w3 };
        assert(rest@ - limit() * b3 == self@ - other@);
        rest
    }

    /// The product of two words plus a carry, without the carry that it gives, and that carry.
    fn mul_words(a: u64, k: u64, carry: u64) -> (r: (u64, u64))
        ensures
            r.0 + 0x1_0000_0000_0000_0000 * r.1 == a * k + carry,
    {
        assert(0 <= a * k <= 0xffff_ffff_ffff_ffff * 0xffff_ffff_ffff_ffff) by (nonlinear_arith)
            requires
                0 <= a <= 0xffff_ffff_ffff_ffff,
                0 <= k <= 0xffff_ffff_ffff_ffff,
        ;
        let product: u128 = a as u128 * k as u128 + carry as u128;
        ((product % 0x1_0000_0000_0000_0000) as u64, (product / 0x1_0000_0000_0000_0000) as u64)
    }

    /// The product by a word, or nothing where it has more than 256 bits.
    pub fn checked_times(self, k: u64) -> (r: Option<U256>)
        ensures
            r is Some <==> self@ * k < limit(),
            r matches Some(p) ==> p@ == self@ * k,
    {
        let (w0, c0) = U256::mul_words(self.w0, k, 0);
        let (w1, c1) = U256::mul_words(self.w1, k, c0);
        let (w2, c2) = U256::mul_words(self.w2, k, c1);
        let (w3, c3) = U256::mul_words(self.w3, k, c2);
        let product: U256 = U256 { w0, w1, w2, w3 };
        proof {
            lemma_times(self, k as int);
            assert(product@ + limit() * c3 == self@ * k);
        }
        if c3 == 0 {
            Some(product)
        } else {
            None
        }
    }

    /// The product by a word.
    pub fn times(self, k: u64) -> (r: U256)
        requires
            self@ * k < limit(),
        ensures
            r@ == self@ * k,
    {
        match self.checked_times(k) {
            Some(p) => p,
            None => U256::zero(),
        }
    }

    /// One step of a long division: the next word of the quotient, and the next remainder.
    fn div_words(rem: u64, w: u64, k: u64) -> (r: (u64, u64))
        requires
            rem < k,
        ensures
            rem * 0x1_0000_0000_0000_0000 + w == k * r.0 + r.1,
            r.1 < k,
    {
        let current: u128 = rem as u128 * 0x1_0000_0000_0000_0000 + w as u128;
        let q: u128 = current / k as u128;
        let rest: u128 = current % k as u128;
        proof {
            lemma_fundamental_div_mod(current as int, k as int);
            assert(q < 0x1_0000_0000_0000_0000) by (nonlinear_arith)
                requires
                    current == k * q + rest,
                    current < k * 0x1_0000_0000_0000_0000,
                    rest >= 0,
                    k > 0,
            ;
        }
        (q as u64, rest as u64)
    }

    /// The quotient by a word.
    pub fn over(self, k: u64) -> (r: U256)
        requires
            k > 0,
        ensures
            r@ == self@ / k as nat,
    {
        let (q3, r3) = U256::div_words(0, self.w3, k);
        let (q2, r2) = U256::div_words(r3, self.w2, k);
        let (q1, r1) = U256::div_words(r2, self.w1, k);
        let (q0, r0) = U256::div_words(r1, self.w0, k);
        let quotient: U256 = U256 { w0: q0, w1: q1, w2: q2, w3: q3 };
        proof {
            lemma_times(quotient, k as int);
            assert(self@ == quotient@ * k + r0) by {
                assert(k * q0 == q0 * k && k * q1 == q1 * k && k * q2 == q2 * k && k * q3 == q3 * k)
                    by (nonlinear_arith);
            }
            assert(quotient@ * k == k * quotient@) by (nonlinear_arith);
            lemma_fundamental_div_mod_converse(self@ as int, k as int, quotient@ as int, r0 as int);
        }
        quotient
    }

    /// The integer whose big-endian digits in base 256 are `bytes`.
    pub fn from_big_endian(bytes: &[u8]) -> (r: U256)
        requires
            bytes@.len() <= 32,
        ensures
            r@ == big_endian(bytes@),
    {
        let mut acc: U256 = U256::zero();
        let mut i: usize = 0;
        assert(bytes@.take(0) =~= Seq::<u8>::empty());
        while i < bytes.len()
            invariant
                i <= bytes@.len() <= 32,
                acc@ == big_endian(bytes@.take(i as int)),
            decreases bytes@.len() - i,
        {
            proof {
                lemma_big_endian_bound(bytes@.take(i as int));
                lemma_bytes_fit(i as nat);
                assert(bytes@.take(i + 1).drop_last() =~= bytes@.take(i as int));
                assert(bytes@.take(i + 1).last() == bytes@[i as int]);
            }
            acc = acc.times(256).saturating_add(U256::from_u64(bytes[i] as u64));
            i = i + 1;
        }
        assert(bytes@.take(i as int) =~= bytes@);
        acc
    }

    /// The integer divided by two to the power 96.
    pub fn over_q96(self) -> (r: U256)
        ensures
            r@ == self@ / 0x1_0000_0000_0000_0000_0000_0000nat,
    {
        let half: u64 = 0x1_0000_0000;
        let w0: u64 = self.w1 / half + (self.w2 % half) * half;
        let w1: u64 = self.w2 / half + (self.w3 % half) * half;
        let w2: u64 = self.w3 / half;
        let r: U256 = U256 { w0, w1, w2, w3: 0 };
        proof {
            let q = 0x1_0000_0000_0000_0000_0000_0000int;
            let low = self.w0 + 0x1_0000_0000_0000_0000 * (self.w1 % half);
            assert(self@ == q * r@ + low);
            lemma_fundamental_div_mod_converse(self@ as int, q, r@ as int, low);
        }
        r
    }

    /// The remainder of the division by two to the power 96.
    pub fn rest_q96(self) -> (r: U256)
        ensures
            r@ == self@ % 0x1_0000_0000_0000_0000_0000_0000nat,
    {
        let half: u64 = 0x1_0000_0000;
        let r: U256 = U256 { w0: self.w0, w1: self.w1 % half, w2: 0, w3: 0 };
        proof {
            let q = 0x1_0000_0000_0000_0000_0000_0000int;
            let up = self.w1 / half + 0x1_0000_0000 * self.w2 + 0x1_0000_0000_0000_0000_0000_0000int * self.w3;
            assert(self@ == q * up + r@);
            lemma_fundamental_div_mod_converse(self@ as int, q, up, r@ as int);
        }
        r
    }
}

/// The integer that some bytes stand for, bounded by their number.
pub proof fn lemma_big_endian_bound(bytes: Seq<u8>)
    ensures
        big_endian(bytes) < vstd::arithmetic::power::pow(256, bytes.len()),
    decreases bytes.len(),
{
    vstd::arithmetic::power::lemma_pow0(256);
    if bytes.len() > 0 {
        let n = (bytes.len() - 1) as nat;
        lemma_big_endian_bound(bytes.drop_last());
        reveal(vstd::arithmetic::power::pow);
        let p = vstd::arithmetic::power::pow(256, n);
        assert(vstd::arithmetic::power::pow(256, bytes.len()) == 256 * p);
    }
}

/// Up to thirty-one bytes leave room for one more.
proof fn lemma_bytes_fit(n: nat)
    requires
        n <= 31,
    ensures
        vstd::arithmetic::power::pow(256, n) * 256 <= limit(),
{
    vstd::arithmetic::power::lemma_pow_adds(256, n, 1);
    vstd::arithmetic::power::lemma_pow1(256);
    if n < 31 {
        vstd::arithmetic::power::lemma_pow_increases(256, n + 1, 32);
    }
    lemma_pow_32();
}

proof fn lemma_pow_double(n: nat, v: int)
    requires
        vstd::arithmetic::power::pow(256, n) == v,
    ensures
        vstd::arithmetic::power::pow(256, n + n) == v * v,
{
    vstd::arithmetic::power::lemma_pow_adds(256, n, n);
}

proof fn lemma_pow_32()
    ensures
        vstd::arithmetic::power::pow(256, 16) == 0x1_0000_0000_0000_0000_0000_0000_0000_0000int,
        vstd::arithmetic::power::pow(256, 32) == limit(),
{
    vstd::arithmetic::power::lemma_pow1(256);
    lemma_pow_double(1, 256);
    lemma_pow_double(2, 0x1_0000);
    lemma_pow_double(4, 0x1_0000_0000);
    lemma_pow_double(8, 0x1_0000_0000_0000_0000);
    lemma_pow_double(16, 0x1_0000_0000_0000_0000_0000_0000_0000_0000int);
}

/// The 128-bit integer whose sixteen big-endian bytes start at `at`.
pub fn u128_at(bytes: &[u8], at: usize) -> (r: u128)
    requires
        at + 16 <= bytes@.len(),
    ensures
        r == big_endian(bytes@.subrange(at as int, at + 16)),
{
    let n: usize = bytes.len();
    assert(at + 16 <= n);
    let part: &[u8] = vstd::slice::slice_subrange(bytes, at, at + 16);
    proof {
        lemma_big_endian_bound(part@);
        lemma_pow_32();
    }
    U256::from_big_endian(part).as_u128()
}

/// Bytes in front count 256 times as much for each byte behind them; so zeros in front count
/// nothing, and a single byte is its own value.
pub proof fn law_bytes_in_front_count_more(front: Seq<u8>, back: Seq<u8>)
    ensures
        big_endian(front + back) == big_endian(front) * vstd::arithmetic::power::pow(256, back.len())
            + big_endian(back),
        back.len() == 1 ==> big_endian(back) == back[0],
        (forall|i: int| 0 <= i < front.len() ==> front[i] == 0) ==> big_endian(front + back)
            == big_endian(back),
    decreases back.len(), front.len(),
{
    if back.len() == 0 {
        vstd::arithmetic::power::lemma_pow0(256);
        assert(front + back =~= front);
        if front.len() > 0 && (forall|i: int| 0 <= i < front.len() ==> front[i] == 0) {
            law_bytes_in_front_count_more(front.drop_last(), back);
            assert(front.drop_last() + back =~= front.drop_last());
        }
    } else {
        let rest = back.drop_last();
        law_bytes_in_front_count_more(front, rest);
        assert((front + back).drop_last() =~= front + rest);
        assert((front + back).last() == back.last());
        if back.len() == 1 {
            assert(rest =~= Seq::<u8>::empty());
            assert(big_endian(rest) == 0);
        }
        let w = vstd::arithmetic::power::pow(256, rest.len());
        vstd::arithmetic::power::lemma_pow1(256);
        vstd::arithmetic::power::lemma_pow_adds(256, rest.len(), 1);
        let f = big_endian(front) as int;
        assert((f * w) * 256 == f * (w * 256)) by (nonlinear_arith);
    }
}

} // verus!
