//! The open carries and how healthy they are.

use crate::double::arithmetic::{from_u256, nearest_to_integer};
use crate::double::constants::{ETHER, ONE};
use crate::double::exact::{
    law_nothing_is_shared, law_own_share, law_quotient_grows, law_wide_conversion,
};
use crate::double::growth::{lemma_ether, lemma_integer_is_exact};
use crate::double::order::lemma_one;
use crate::double::Double;
use crate::shared::abi::room::group_room;
use crate::shared::abi::{
    abi_encoding, address_token, call_data, encode_call, selector, token_values, AbiValue,
};
use crate::shared::address::Address;
use crate::shared::flash_loan::depths::CallRequest;
use crate::strategies::rate_arb::RateArbPosition;
use crate::u256::{big_endian, limit, U256};
use vstd::prelude::*;

verus! {

/// The carries that a map holds.
pub uninterp spec fn positions_of(m: dashmap::DashMap<Address, RateArbPosition>) -> Map<
    Address,
    RateArbPosition,
>;

/// Calls `dashmap::DashMap::new`: a map that holds nothing.
#[verifier::external_body]
fn new_positions() -> (r: dashmap::DashMap<Address, RateArbPosition>)
    ensures
        positions_of(r) == (Map::<Address, RateArbPosition>::empty()),
{
    dashmap::DashMap::new()
}

/// Calls `dashmap::DashMap::insert`: sets the value of one key.
#[verifier::external_body]
fn insert_position(m: &mut dashmap::DashMap<Address, RateArbPosition>, key: Address, value: RateArbPosition)
    ensures
        positions_of(*final(m)) == positions_of(*old(m)).insert(key, value),
{
    m.insert(key, value);
}

/// Calls `dashmap::DashMap::remove`: takes one key out, if it is there.
#[verifier::external_body]
fn take_position(m: &mut dashmap::DashMap<Address, RateArbPosition>, key: Address)
    ensures
        positions_of(*final(m)) == positions_of(*old(m)).remove(key),
{
    m.remove(&key);
}

/// Calls `dashmap::DashMap::get`: the value of a key, if it is there.
#[verifier::external_body]
fn position_at(m: &dashmap::DashMap<Address, RateArbPosition>, key: Address) -> (r: Option<RateArbPosition>)
    ensures
        r is Some <==> positions_of(*m).dom().contains(key),
        r matches Some(p) ==> p == positions_of(*m)[key],
{
    m.get(&key).map(|e| *e.value())
}

/// Calls `dashmap::DashMap::iter`: the values, each key's once. In which order they come is left
/// open.
#[verifier::external_body]
fn position_entries(m: &dashmap::DashMap<Address, RateArbPosition>) -> (r: Vec<(Address, RateArbPosition)>)
    ensures
        (forall|i: int|
            0 <= i < r@.len() ==> positions_of(*m).dom().contains((#[trigger] r@[i]).0)
                && positions_of(*m)[r@[i].0] == r@[i].1),
        (forall|i: int, j: int| 0 <= i < j < r@.len() ==> (#[trigger] r@[i]).0 != (#[trigger] r@[j]).0),
        (forall|k: Address|
            #[trigger] positions_of(*m).dom().contains(k) ==> exists|i: int|
                0 <= i < r@.len() && (#[trigger] r@[i]).0 == k),
{
    m.iter().map(|e| (*e.key(), *e.value())).collect()
}

/// The open carries, by their asset.
pub struct HealthFactorMonitor {
    positions: dashmap::DashMap<Address, RateArbPosition>,
    aave_pool: Address,
}

impl View for HealthFactorMonitor {
    type V = Map<Address, RateArbPosition>;

    closed spec fn view(&self) -> Map<Address, RateArbPosition> {
        positions_of(self.positions)
    }
}

/// Whether every carry stands under its own asset.
pub open spec fn keyed_by_asset(m: Map<Address, RateArbPosition>) -> bool {
    forall|k: Address| #[trigger] m.dom().contains(k) ==> m[k].asset == k
}

/// Whether a list holds every carry of a map once, and nothing else.
pub open spec fn lists(list: Seq<RateArbPosition>, m: Map<Address, RateArbPosition>) -> bool {
    &&& forall|i: int|
        0 <= i < list.len() ==> m.dom().contains((#[trigger] list[i]).asset) && m[list[i].asset]
            == list[i]
    &&& forall|i: int, j: int|
        0 <= i < j < list.len() ==> (#[trigger] list[i]).asset != (#[trigger] list[j]).asset
    &&& forall|k: Address| #[trigger]
        m.dom().contains(k) ==> exists|i: int| 0 <= i < list.len() && (#[trigger] list[i]).asset == k
}

/// The carries, all with the same health factor.
pub open spec fn with_health(m: Map<Address, RateArbPosition>, hf: Double) -> Map<
    Address,
    RateArbPosition,
> {
    Map::new(
        |k: Address| m.dom().contains(k),
        |k: Address| RateArbPosition { health_factor: hf, ..m[k] },
    )
}

/// Why a reply tells no health factor: it has this many bytes.
#[derive(Clone, Copy, Debug, PartialEq, Eq, Structural)]
pub struct ShortReply(pub usize);

/// The calldata that asks for the account of the contract.
pub open spec fn account_data(account: Seq<u8>) -> Seq<u8> {
    call_data("getUserAccountData(address)"@, seq![AbiValue::Address(account)])
}

/// The health factor in a reply: the sixth word, in units of 10 to the power -18.
pub open spec fn told_health(reply: Seq<u8>) -> Double {
    nearest_to_integer(big_endian(reply.subrange(160, 192))).over(Double { bits: ETHER })
}

impl HealthFactorMonitor {
    /// The pool that carries are held at.
    pub closed spec fn pool(self) -> Address {
        self.aave_pool
    }

    /// Whether every carry stands under its own asset.
    pub open spec fn well_formed(self) -> bool {
        keyed_by_asset(self@)
    }

    /// A monitor without carries.
    pub fn new(aave_pool: Address) -> (r: HealthFactorMonitor)
        ensures
            r.well_formed(),
            r@ == Map::<Address, RateArbPosition>::empty(),
            r.pool() == aave_pool,
    {
        HealthFactorMonitor { positions: new_positions(), aave_pool }
    }

    /// Takes a carry in; it replaces another one of the same asset.
    pub fn register_position(&mut self, pos: RateArbPosition)
        requires
            old(self).well_formed(),
        ensures
            final(self).well_formed(),
            final(self)@ == old(self)@.insert(pos.asset, pos),
            final(self).pool() == old(self).pool(),
    {
        insert_position(&mut self.positions, pos.asset, pos);
    }

    /// Takes several carries in, one after the other.
    pub fn register_all(&mut self, list: &Vec<RateArbPosition>)
        requires
            old(self).well_formed(),
        ensures
            final(self).well_formed(),
            final(self)@ == registered(old(self)@, list@),
            final(self).pool() == old(self).pool(),
    {
        let n: usize = list.len();
        let mut i: usize = 0;
        assert(list@.take(0) =~= Seq::empty());
        while i < n
            invariant
                n == list@.len(),
                i <= n,
                self.well_formed(),
                self@ == registered(old(self)@, list@.take(i as int)),
                self.pool() == old(self).pool(),
            decreases n - i,
        {
            self.register_position(list[i]);
            i = i + 1;
            assert(list@.take(i as int).drop_last() =~= list@.take(i - 1));
        }
        assert(list@.take(n as int) =~= list@);
    }

    /// Takes the carry of an asset out, if there is one.
    pub fn remove_position(&mut self, asset: Address)
        requires
            old(self).well_formed(),
        ensures
            final(self).well_formed(),
            final(self)@ == old(self)@.remove(asset),
            final(self).pool() == old(self).pool(),
    {
        take_position(&mut self.positions, asset);
    }

    /// All carries, in no particular order.
    pub fn get_rate_arb_positions(&self) -> (r: Vec<RateArbPosition>)
        requires
            self.well_formed(),
        ensures
            lists(r@, self@),
    {
        let entries: Vec<(Address, RateArbPosition)> = position_entries(&self.positions);
        let mut r: Vec<RateArbPosition> = Vec::new();
        let n: usize = entries.len();
        let mut i: usize = 0;
        while i < n
            invariant
                n == entries@.len(),
                i <= n,
                r@.len() == i,
                forall|j: int| 0 <= j < i ==> #[trigger] r@[j] == entries@[j].1,
            decreases n - i,
        {
            r.push(entries[i].1);
            i = i + 1;
        }
        proof {
            assert forall|j: int| 0 <= j < r@.len() implies (#[trigger] r@[j]).asset == entries@[j].0 by {
                assert(self@.dom().contains(entries@[j].0));
            }
            assert forall|k: Address| #[trigger] self@.dom().contains(k) implies exists|j: int|
                0 <= j < r@.len() && (#[trigger] r@[j]).asset == k by {
                let j = choose|j: int| 0 <= j < entries@.len() && (#[trigger] entries@[j]).0 == k;
                assert(r@[j].asset == k);
            }
        }
        r
    }

    /// Notes the health factor of the carry of an asset, if there is one.
    pub fn update_hf(&mut self, asset: Address, live_hf: Double)
        requires
            old(self).well_formed(),
        ensures
            final(self).well_formed(),
            final(self)@ == if old(self)@.dom().contains(asset) {
                old(self)@.insert(
                    asset,
                    RateArbPosition { health_factor: live_hf, ..old(self)@[asset] },
                )
            } else {
                old(self)@
            },
            final(self).pool() == old(self).pool(),
    {
        match position_at(&self.positions, asset) {
            Some(pos) => {
                let mut pos: RateArbPosition = pos;
                pos.health_factor = live_hf;
                insert_position(&mut self.positions, asset, pos);
            },
            None => {},
        }
    }

    /// The call that asks the pool for the account of the contract.
    pub fn account_call(&self, flash_executor: Address) -> (r: CallRequest)
        ensures
            r.to == self.pool(),
            r.data@ == account_data(flash_executor@),
    {
        let tokens: Vec<ethers::abi::Token> = vec![address_token(flash_executor)];
        proof {
            broadcast use group_room;

            assert(token_values(tokens@) =~= seq![AbiValue::Address(flash_executor@)]);
        }
        CallRequest { to: self.aave_pool, data: encode_call("getUserAccountData(address)", &tokens) }
    }

    /// Takes the pool's reply: all carries get the health factor that it tells. An account without
    /// debt has the greatest word.
    pub fn refresh_hf_from_chain(&mut self, reply: &[u8]) -> (r: Result<Double, ShortReply>)
        requires
            old(self).well_formed(),
        ensures
            final(self).well_formed(),
            r is Ok <==> reply@.len() >= 192,
            r matches Ok(hf) ==> hf == told_health(reply@) && final(self)@ == with_health(
                old(self)@,
                hf,
            ),
            r matches Err(e) ==> e == ShortReply(reply@.len() as usize) && final(self)@ == old(self)@,
            final(self).pool() == old(self).pool(),
    {
        if reply.len() < 192 {
            return Err(ShortReply(reply.len()));
        }
        let word: &[u8] = vstd::slice::slice_subrange(reply, 160, 192);
        let hf_ray: U256 = U256::from_big_endian(word);
        let hf: Double = from_u256(hf_ray).div(Double { bits: ETHER });
        let ghost before = self@;
        let entries: Vec<(Address, RateArbPosition)> = position_entries(&self.positions);
        let n: usize = entries.len();
        let mut i: usize = 0;
        while i < n
            invariant
                n == entries@.len(),
                i <= n,
                keyed_by_asset(before),
                self.aave_pool == old(self).aave_pool,
                self@.dom() == before.dom(),
                forall|j: int|
                    0 <= j < n ==> before.dom().contains((#[trigger] entries@[j]).0)
                        && before[entries@[j].0] == entries@[j].1,
                forall|a: int, b: int|
                    0 <= a < b < n ==> (#[trigger] entries@[a]).0 != (#[trigger] entries@[b]).0,
                forall|j: int|
                    0 <= j < i ==> self@[(#[trigger] entries@[j]).0] == (RateArbPosition {
                        health_factor: hf,
                        ..before[entries@[j].0]
                    }),
            decreases n - i,
        {
            let mut pos: RateArbPosition = entries[i].1;
            pos.health_factor = hf;
            let ghost last = self@;
            insert_position(&mut self.positions, entries[i].0, pos);
            proof {
                assert(self@ == last.insert(entries@[i as int].0, pos));
                assert(self@.dom() =~= before.dom());
            }
            i = i + 1;
        }
        proof {
            assert forall|k: Address| before.dom().contains(k) implies self@[k] == with_health(
                before,
                hf,
            )[k] by {
                let j = choose|j: int| 0 <= j < entries@.len() && (#[trigger] entries@[j]).0 == k;
                assert(self@[entries@[j].0] == with_health(before, hf)[k]);
            }
            assert(self@ =~= with_health(before, hf));
        }
        Ok(hf)
    }
}

/// The carries after some were taken in one after the other.
pub open spec fn registered(m: Map<Address, RateArbPosition>, list: Seq<RateArbPosition>) -> Map<
    Address,
    RateArbPosition,
>
    decreases list.len(),
{
    if list.len() == 0 {
        m
    } else {
        registered(m, list.drop_last()).insert(list.last().asset, list.last())
    }
}

/// What is registered after the first entries of a list.
proof fn lemma_registered(list: Seq<RateArbPosition>)
    requires
        forall|i: int, j: int|
            0 <= i < j < list.len() ==> (#[trigger] list[i]).asset != (#[trigger] list[j]).asset,
    ensures
        forall|k: Address| #[trigger]
            registered(Map::empty(), list).dom().contains(k) <==> exists|i: int|
                0 <= i < list.len() && (#[trigger] list[i]).asset == k,
        forall|i: int|
            0 <= i < list.len() ==> registered(Map::empty(), list)[(#[trigger] list[i]).asset] == list[i],
    decreases list.len(),
{
    if list.len() > 0 {
        let rest = list.drop_last();
        assert forall|i: int, j: int| 0 <= i < j < rest.len() implies (#[trigger] rest[i]).asset != (
        #[trigger] rest[j]).asset by {
            assert(list[i].asset != list[j].asset);
        }
        lemma_registered(rest);
        let all = registered(Map::empty(), list);
        let n = list.len() as int;
        assert forall|k: Address| #[trigger] all.dom().contains(k) <==> exists|i: int|
            0 <= i < list.len() && (#[trigger] list[i]).asset == k by {
            if registered(Map::empty(), rest).dom().contains(k) {
                let i = choose|i: int| 0 <= i < rest.len() && (#[trigger] rest[i]).asset == k;
                assert(list[i].asset == k);
            }
            if all.dom().contains(k) && k == list.last().asset {
                assert(list[n - 1].asset == k);
            }
            if exists|i: int| 0 <= i < list.len() && (#[trigger] list[i]).asset == k {
                let i = choose|i: int| 0 <= i < list.len() && (#[trigger] list[i]).asset == k;
                if i < n - 1 {
                    assert(rest[i].asset == k);
                }
            }
        }
        assert forall|i: int| 0 <= i < list.len() implies all[(#[trigger] list[i]).asset] == list[i] by {
            if i < n - 1 {
                assert(rest[i] == list[i]);
                assert(list[i].asset != list[n - 1].asset);
            }
        }
    }
}

/// Carries survive a restart: what was listed and is registered again with a new monitor is what
/// was there before.
pub proof fn law_positions_survive(m: Map<Address, RateArbPosition>, list: Seq<RateArbPosition>)
    requires
        lists(list, m),
    ensures
        registered(Map::empty(), list) == m,
{
    lemma_registered(list);
    let back = registered(Map::empty(), list);
    assert forall|k: Address| back.dom().contains(k) == m.dom().contains(k) by {
        if back.dom().contains(k) {
            let i = choose|i: int| 0 <= i < list.len() && (#[trigger] list[i]).asset == k;
            assert(m.dom().contains(list[i].asset));
        }
    }
    assert forall|k: Address| back.dom().contains(k) implies back[k] == m[k] by {
        let i = choose|i: int| 0 <= i < list.len() && (#[trigger] list[i]).asset == k;
        assert(back[list[i].asset] == list[i]);
        assert(m[list[i].asset] == list[i]);
    }
    assert(back =~= m);
}

/// Everyone who lists the same carries sees the same ones, in whatever order.
pub proof fn law_listings_agree(
    m: Map<Address, RateArbPosition>,
    one: Seq<RateArbPosition>,
    other: Seq<RateArbPosition>,
    pos: RateArbPosition,
)
    requires
        lists(one, m),
        lists(other, m),
    ensures
        one.contains(pos) <==> other.contains(pos),
{
    lemma_listed(m, one, pos);
    lemma_listed(m, other, pos);
}

/// A list of carries holds those of the map, and no others.
proof fn lemma_listed(m: Map<Address, RateArbPosition>, list: Seq<RateArbPosition>, pos: RateArbPosition)
    requires
        lists(list, m),
    ensures
        list.contains(pos) <==> m.dom().contains(pos.asset) && m[pos.asset] == pos,
{
    if list.contains(pos) {
        let i = choose|i: int| 0 <= i < list.len() && list[i] == pos;
        assert(m.dom().contains(list[i].asset) && m[list[i].asset] == list[i]);
    }
    if m.dom().contains(pos.asset) && m[pos.asset] == pos {
        let i = choose|i: int| 0 <= i < list.len() && (#[trigger] list[i]).asset == pos.asset;
        assert(list[i] == pos);
    }
}

/// A carry that is taken in is listed from then on in place of any other one of its asset; all
/// other carries are listed as before, and no asset is listed twice.
pub proof fn law_register_replaces(
    m: Map<Address, RateArbPosition>,
    before: Seq<RateArbPosition>,
    taken_in: RateArbPosition,
    after: Seq<RateArbPosition>,
    pos: RateArbPosition,
)
    requires
        lists(before, m),
        lists(after, m.insert(taken_in.asset, taken_in)),
    ensures
        after.contains(pos) <==> pos == taken_in || (before.contains(pos) && pos.asset
            != taken_in.asset),
        forall|i: int, j: int|
            0 <= i < j < after.len() ==> (#[trigger] after[i]).asset != (#[trigger] after[j]).asset,
{
    lemma_listed(m, before, pos);
    lemma_listed(m.insert(taken_in.asset, taken_in), after, pos);
}

/// A carry of a new asset that is taken in and taken out again leaves no trace.
pub proof fn law_remove_undoes_register(m: Map<Address, RateArbPosition>, pos: RateArbPosition)
    requires
        !m.dom().contains(pos.asset),
    ensures
        m.insert(pos.asset, pos).remove(pos.asset) == m,
{
    assert(m.insert(pos.asset, pos).remove(pos.asset) =~= m);
}

/// What is saved after a carry was closed, or opened, is what a restart brings back: a closed carry
/// stays closed, an opened one is there, and all others are as they were.
pub proof fn law_saved_carries_come_back(
    m: Map<Address, RateArbPosition>,
    pos: RateArbPosition,
    closed: Seq<RateArbPosition>,
    opened: Seq<RateArbPosition>,
)
    requires
        lists(closed, m.remove(pos.asset)),
        lists(opened, m.insert(pos.asset, pos)),
    ensures
        registered(Map::empty(), closed) == m.remove(pos.asset),
        !registered(Map::empty(), closed).dom().contains(pos.asset),
        registered(Map::empty(), opened) == m.insert(pos.asset, pos),
{
    law_positions_survive(m.remove(pos.asset), closed);
    law_positions_survive(m.insert(pos.asset, pos), opened);
}

/// The health factor is read from the sixth word of a reply alone; a greater word is no lower
/// health factor, and nothing is read as none.
pub proof fn law_told_health_grows(reply: Seq<u8>, other: Seq<u8>)
    requires
        reply.len() >= 192,
        other.len() >= 192,
        big_endian(reply.subrange(160, 192)) <= big_endian(other.subrange(160, 192)) < limit(),
    ensures
        told_health(reply).at_most(told_health(other)),
        big_endian(reply.subrange(160, 192)) == 0 ==> told_health(reply).zero(),
        (forall|i: int| 160 <= i < 192 ==> #[trigger] reply[i] == other[i]) ==> told_health(reply)
            == told_health(other),
        big_endian(reply.subrange(160, 192)) == 1_000_000_000_000_000_000 ==> told_health(reply) == (
        Double { bits: ONE }),
        big_endian(reply.subrange(160, 192)) > 1_000_000_000_000_000_000 ==> (Double {
            bits: ONE,
        }).at_most(told_health(reply)),
{
    let ether = Double { bits: ETHER };
    let (n, k) = (big_endian(reply.subrange(160, 192)), big_endian(other.subrange(160, 192)));
    law_wide_conversion(n, k);
    law_quotient_grows(nearest_to_integer(n), nearest_to_integer(k), ether);
    if n > 1_000_000_000_000_000_000 {
        law_wide_conversion(1_000_000_000_000_000_000, n);
        lemma_ether();
        law_quotient_grows(ether, nearest_to_integer(n), ether);
    }
    if n == 0 {
        lemma_integer_is_exact(0);
        lemma_one();
        law_nothing_is_shared(nearest_to_integer(0), ether);
    }
    if forall|i: int| 160 <= i < 192 ==> #[trigger] reply[i] == other[i] {
        assert(reply.subrange(160, 192) =~= other.subrange(160, 192));
    }
    lemma_ether();
    law_own_share(ether);
}

/// A new health factor is that of every carry, and nothing else of a carry changes.
pub proof fn law_health_is_shared(m: Map<Address, RateArbPosition>, hf: Double, asset: Address)
    ensures
        with_health(m, hf).dom() == m.dom(),
        m.dom().contains(asset) ==> with_health(m, hf)[asset].health_factor == hf,
        m.dom().contains(asset) ==> m[asset] == (RateArbPosition {
            health_factor: m[asset].health_factor,
            ..with_health(m, hf)[asset]
        }),
        keyed_by_asset(m) ==> keyed_by_asset(with_health(m, hf)),
{
    assert(with_health(m, hf).dom() =~= m.dom());
}

/// A lending pool is asked by the selector of its question and the account.
pub proof fn law_question_holds_the_account(account: Seq<u8>)
    ensures
        account_data(account) == selector("getUserAccountData(address)"@) + abi_encoding(
            seq![AbiValue::Address(account)],
        ),
{
}

} // verus!
