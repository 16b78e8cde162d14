//! Counters and gauges.

use crate::double::arithmetic::{from_u128, nearest_to_integer};
use crate::double::chain::{lemma_positive, positive};
use crate::double::constants::{NINETY_NINE, ONE, TWO};
use crate::double::exact::{
    countable, law_constants, law_nothing_more, law_own_share, law_whole_difference, law_whole_sum,
};
use crate::double::growth::{
    law_conversion_is_monotone, law_counting_is_exact, law_quotient_shrinks, law_share_is_at_most_one,
    lemma_integer_is_amount, lemma_integer_is_exact, whole_number,
};
use crate::double::order::{lemma_one, lemma_words};
use crate::double::{lemma_units_zero, Double};
use vstd::prelude::*;
use vstd::string::*;

verus! {

/// The double 1.1, below which a health factor calls for an emergency.
pub const HF_EMERGENCY: u64 = 0x3ff1_9999_9999_999a;

/// The double 1.2, below which a health factor is watched.
pub const HF_WARNING: u64 = 0x3ff3_3333_3333_3333;

/// A total for one list of labels.
pub struct TallyEntry {
    pub labels: Vec<String>,
    pub total: Double,
}

/// Totals, one for each list of labels that has come up.
pub struct Tally {
    entries: Vec<TallyEntry>,
}

/// The texts of some labels.
pub open spec fn label_texts(labels: Seq<String>) -> Seq<Seq<char>> {
    Seq::new(labels.len(), |i: int| labels[i]@)
}

/// The texts of some borrowed labels.
pub open spec fn borrowed_texts(labels: Seq<&str>) -> Seq<Seq<char>> {
    Seq::new(labels.len(), |i: int| labels[i]@)
}

impl View for Tally {
    type V = Map<Seq<Seq<char>>, Double>;

    closed spec fn view(&self) -> Map<Seq<Seq<char>>, Double> {
        Map::new(|k: Seq<Seq<char>>| self.has(k), |k: Seq<Seq<char>>| self.entries@[self.at(k)].total)
    }
}

/// What a total has grown to; a total that has not come up yet starts at zero.
pub open spec fn grown(totals: Map<Seq<Seq<char>>, Double>, labels: Seq<Seq<char>>, by: Double) -> Map<
    Seq<Seq<char>>,
    Double,
> {
    let before = if totals.dom().contains(labels) {
        totals[labels]
    } else {
        Double { bits: 0 }
    };
    totals.insert(labels, before.plus(by))
}

impl Tally {
    spec fn has(&self, labels: Seq<Seq<char>>) -> bool {
        exists|i: int|
            0 <= i < self.entries@.len() && label_texts(#[trigger] self.entries@[i].labels@)
                == labels
    }

    spec fn at(&self, labels: Seq<Seq<char>>) -> int {
        choose|i: int|
            0 <= i < self.entries@.len() && label_texts(#[trigger] self.entries@[i].labels@)
                == labels
    }

    #[verifier::type_invariant]
    spec fn distinct(&self) -> bool {
        forall|i: int, j: int|
            0 <= i < j < self.entries@.len() ==> label_texts(#[trigger] self.entries@[i].labels@)
                != label_texts(#[trigger] self.entries@[j].labels@)
    }

    pub fn new() -> (r: Tally)
        ensures
            r@ == Map::<Seq<Seq<char>>, Double>::empty(),
    {
        let r = Tally { entries: Vec::new() };
        assert(r@ =~= Map::<Seq<Seq<char>>, Double>::empty());
        r
    }

    /// The labels at a place below `count`.
    pub closed spec fn labels_at(&self, i: int) -> Seq<Seq<char>> {
        label_texts(self.entries@[i].labels@)
    }

    /// The number of totals, and of the places that they stand at: every total has one place.
    pub fn count(&self) -> (r: usize)
        ensures
            r == self@.len(),
            self@.dom().finite(),
            forall|i: int| 0 <= i < r ==> self@.dom().contains(#[trigger] self.labels_at(i)),
            forall|i: int, j: int|
                0 <= i < j < r ==> #[trigger] self.labels_at(i) != #[trigger] self.labels_at(j),
            forall|k: Seq<Seq<char>>| #[trigger]
                self@.dom().contains(k) ==> exists|i: int| 0 <= i < r && #[trigger] self.labels_at(i) == k,
    {
        proof {
            use_type_invariant(self);
            self.lemma_count(self.entries@.len());
            self.lemma_places();
        }
        self.entries.len()
    }

    /// The labels and the total at a place below `count`.
    pub fn entry(&self, i: usize) -> (r: &TallyEntry)
        requires
            i < self@.len(),
        ensures
            label_texts(r.labels@) == self.labels_at(i as int),
            self@.dom().contains(self.labels_at(i as int)),
            self@[self.labels_at(i as int)] == r.total,
    {
        proof {
            use_type_invariant(self);
            self.lemma_count(self.entries@.len());
        }
        let r = &self.entries[i];
        proof {
            self.lemma_at(i as int);
        }
        r
    }

    /// Every total has one place.
    proof fn lemma_places(&self)
        requires
            self.distinct(),
        ensures
            forall|i: int|
                0 <= i < self.entries@.len() ==> self@.dom().contains(#[trigger] self.labels_at(i)),
            forall|i: int, j: int|
                0 <= i < j < self.entries@.len() ==> #[trigger] self.labels_at(i)
                    != #[trigger] self.labels_at(j),
            forall|k: Seq<Seq<char>>| #[trigger]
                self@.dom().contains(k) ==> exists|i: int|
                    0 <= i < self.entries@.len() && #[trigger] self.labels_at(i) == k,
    {
        assert forall|i: int| 0 <= i < self.entries@.len() implies self@.dom().contains(
            #[trigger] self.labels_at(i),
        ) by {
            self.lemma_at(i);
        }
        assert forall|i: int, j: int| 0 <= i < j < self.entries@.len() implies #[trigger] self.labels_at(i)
            != #[trigger] self.labels_at(j) by {
            assert(label_texts(self.entries@[i].labels@) != label_texts(self.entries@[j].labels@));
        }
        assert forall|k: Seq<Seq<char>>| #[trigger] self@.dom().contains(k) implies exists|i: int|
            0 <= i < self.entries@.len() && #[trigger] self.labels_at(i) == k by {
            assert(self.has(k));
            assert(self.labels_at(self.at(k)) == k);
        }
    }

    proof fn lemma_at(&self, i: int)
        requires
            0 <= i < self.entries@.len(),
            self.distinct(),
        ensures
            self.has(label_texts(self.entries@[i].labels@)),
            self.at(label_texts(self.entries@[i].labels@)) == i,
    {
        let k = label_texts(self.entries@[i].labels@);
        assert(self.has(k));
        let j = self.at(k);
        if j < i {
            assert(label_texts(self.entries@[j].labels@) != label_texts(self.entries@[i].labels@));
        } else if i < j {
            assert(label_texts(self.entries@[i].labels@) != label_texts(self.entries@[j].labels@));
        }
    }

    /// There are as many totals as places.
    proof fn lemma_count(&self, n: nat)
        requires
            self.distinct(),
            n <= self.entries@.len(),
        ensures
            self.keys(n).finite(),
            self.keys(n).len() == n,
            self@.dom().finite(),
            n == self.entries@.len() ==> self@.len() == n,
        decreases n,
    {
        if n == 0 {
            assert(self.keys(0) =~= Set::empty());
        } else {
            let m = (n - 1) as nat;
            self.lemma_count(m);
            let k = label_texts(self.entries@[m as int].labels@);
            assert(self.keys(n) =~= self.keys(m).insert(k));
            if self.keys(m).contains(k) {
                let i = choose|i: int|
                    0 <= i < m && label_texts(#[trigger] self.entries@[i].labels@) == k;
                assert(label_texts(self.entries@[i].labels@) != label_texts(
                    self.entries@[m as int].labels@,
                ));
            }
        }
        if n == self.entries@.len() {
            assert(self@.dom() =~= self.keys(n));
        } else if n == 0 {
            self.lemma_finite(self.entries@.len());
            assert(self@.dom() =~= self.keys(self.entries@.len()));
        }
    }

    proof fn lemma_finite(&self, n: nat)
        requires
            n <= self.entries@.len(),
        ensures
            self.keys(n).finite(),
        decreases n,
    {
        if n == 0 {
            assert(self.keys(0) =~= Set::empty());
        } else {
            let m = (n - 1) as nat;
            self.lemma_finite(m);
            assert(self.keys(n) =~= self.keys(m).insert(
                label_texts(self.entries@[m as int].labels@),
            ));
        }
    }

    /// The labels at the first `n` places.
    spec fn keys(&self, n: nat) -> Set<Seq<Seq<char>>> {
        Set::new(
            |k: Seq<Seq<char>>|
                exists|i: int|
                    0 <= i < n && label_texts(#[trigger] self.entries@[i].labels@) == k,
        )
    }

    /// Adds to the total of some labels.
    pub fn grow(&mut self, labels: &Vec<&str>, by: Double)
        ensures
            final(self)@ == grown(old(self)@, borrowed_texts(labels@), by),
    {
        proof {
            use_type_invariant(&*self);
        }
        let ghost before = *self;
        let ghost key = borrowed_texts(labels@);
        let mut entries: Vec<TallyEntry> = Vec::new();
        std::mem::swap(&mut entries, &mut self.entries);
        let n: usize = entries.len();
        let mut i: usize = 0;
        while i < n
            invariant
                n == entries@.len(),
                i <= n,
                entries@ == before.entries@,
                before == *old(self),
                before.distinct(),
                self.entries@.len() == 0,
                key == borrowed_texts(labels@),
                forall|j: int| 0 <= j < i ==> label_texts(#[trigger] entries@[j].labels@) != key,
            decreases n - i,
        {
            if same_labels(&entries[i].labels, labels) {
                let total: Double = entries[i].total.add(by);
                let old_entry = &entries[i].labels;
                let kept: Vec<String> = copy_labels(old_entry);
                entries.set(i, TallyEntry { labels: kept, total });
                let ghost after = Tally { entries };
                proof {
                    lemma_replaced(before, after, i as int, by);
                }
                self.entries = entries;
                return ;
            }
            i = i + 1;
        }
        let mut owned: Vec<String> = Vec::new();
        let m: usize = labels.len();
        let mut j: usize = 0;
        while j < m
            invariant
                m == labels@.len(),
                j <= m,
                owned@.len() == j,
                forall|k: int| 0 <= k < j ==> #[trigger] owned@[k]@ == labels@[k]@,
            decreases m - j,
        {
            owned.push(String::from_str(labels[j]));
            j = j + 1;
        }
        assert(label_texts(owned@) =~= key);
        let total: Double = Double { bits: 0 }.add(by);
        entries.push(TallyEntry { labels: owned, total });
        let ghost after = Tally { entries };
        proof {
            lemma_appended(before, after, key, by);
        }
        self.entries = entries;
    }
}

/// One total replaced by a greater one.
proof fn lemma_replaced(before: Tally, after: Tally, i: int, by: Double)
    requires
        before.distinct(),
        0 <= i < before.entries@.len(),
        after.entries@.len() == before.entries@.len(),
        forall|j: int|
            0 <= j < before.entries@.len() && j != i ==> #[trigger] after.entries@[j]
                == before.entries@[j],
        label_texts(after.entries@[i].labels@) == label_texts(before.entries@[i].labels@),
        after.entries@[i].total == before.entries@[i].total.plus(by),
    ensures
        after.distinct(),
        after@ == grown(before@, label_texts(before.entries@[i].labels@), by),
{
    let key = label_texts(before.entries@[i].labels@);
    assert forall|j: int| 0 <= j < before.entries@.len() implies label_texts(
        #[trigger] after.entries@[j].labels@,
    ) == label_texts(before.entries@[j].labels@) by {}
    assert(after.distinct()) by {
        assert forall|a: int, b: int| 0 <= a < b < after.entries@.len() implies label_texts(
            #[trigger] after.entries@[a].labels@,
        ) != label_texts(#[trigger] after.entries@[b].labels@) by {
            assert(label_texts(before.entries@[a].labels@) != label_texts(
                before.entries@[b].labels@,
            ));
        }
    }
    before.lemma_at(i);
    after.lemma_at(i);
    let expected = grown(before@, key, by);
    assert forall|k: Seq<Seq<char>>| after@.dom().contains(k) == expected.dom().contains(k) by {
        if after.has(k) {
            let j = after.at(k);
            assert(label_texts(before.entries@[j].labels@) == k);
            assert(before.has(k));
        }
        if before.has(k) {
            let j = before.at(k);
            assert(label_texts(after.entries@[j].labels@) == k);
            assert(after.has(k));
        }
    }
    assert forall|k: Seq<Seq<char>>| after@.dom().contains(k) implies after@[k] == expected[k] by {
        let j = after.at(k);
        assert(label_texts(after.entries@[j].labels@) == k);
        before.lemma_at(j);
        if j != i {
            assert(k != key) by {
                if i < j {
                    assert(label_texts(before.entries@[i].labels@) != label_texts(
                        before.entries@[j].labels@,
                    ));
                } else {
                    assert(label_texts(before.entries@[j].labels@) != label_texts(
                        before.entries@[i].labels@,
                    ));
                }
            }
            assert(after.entries@[j] == before.entries@[j]);
        }
    }
    assert(after@ =~= expected);
}

/// One total added.
proof fn lemma_appended(before: Tally, after: Tally, key: Seq<Seq<char>>, by: Double)
    requires
        before.distinct(),
        !before.has(key),
        after.entries@.len() == before.entries@.len() + 1,
        forall|j: int|
            0 <= j < before.entries@.len() ==> #[trigger] after.entries@[j] == before.entries@[j],
        label_texts(after.entries@.last().labels@) == key,
        after.entries@.last().total == (Double { bits: 0 }).plus(by),
    ensures
        after.distinct(),
        after@ == grown(before@, key, by),
{
    let n = before.entries@.len() as int;
    assert(after.distinct()) by {
        assert forall|a: int, b: int| 0 <= a < b < after.entries@.len() implies label_texts(
            #[trigger] after.entries@[a].labels@,
        ) != label_texts(#[trigger] after.entries@[b].labels@) by {
            assert(after.entries@[a] == before.entries@[a]);
            if b < n {
                assert(after.entries@[b] == before.entries@[b]);
                assert(label_texts(before.entries@[a].labels@) != label_texts(
                    before.entries@[b].labels@,
                ));
            } else if label_texts(before.entries@[a].labels@) == key {
                assert(before.has(key));
            }
        }
    }
    let expected = grown(before@, key, by);
    after.lemma_at(n);
    assert forall|k: Seq<Seq<char>>| after@.dom().contains(k) == expected.dom().contains(k) by {
        if after.has(k) {
            let j = after.at(k);
            if j < n {
                assert(after.entries@[j] == before.entries@[j]);
                assert(before.has(k));
            }
        }
        if before.has(k) {
            let j = before.at(k);
            assert(after.entries@[j] == before.entries@[j]);
            assert(after.has(k));
        }
    }
    assert forall|k: Seq<Seq<char>>| after@.dom().contains(k) implies after@[k] == expected[k] by {
        let j = after.at(k);
        if j < n {
            assert(after.entries@[j] == before.entries@[j]);
            before.lemma_at(j);
            assert(k != key);
        }
    }
    assert(after@ =~= expected);
}

/// Whether owned and borrowed labels have the same texts.
fn same_labels(a: &Vec<String>, b: &Vec<&str>) -> (r: bool)
    ensures
        r == (label_texts(a@) == borrowed_texts(b@)),
{
    if a.len() != b.len() {
        assert(label_texts(a@).len() != borrowed_texts(b@).len());
        return false;
    }
    let n: usize = a.len();
    let mut i: usize = 0;
    while i < n
        invariant
            n == a@.len(),
            n == b@.len(),
            i <= n,
            forall|j: int| 0 <= j < i ==> #[trigger] a@[j]@ == b@[j]@,
        decreases n - i,
    {
        let other: String = String::from_str(b[i]);
        if a[i] != other {
            assert(label_texts(a@)[i as int] != borrowed_texts(b@)[i as int]);
            return false;
        }
        i = i + 1;
    }
    assert(label_texts(a@) =~= borrowed_texts(b@));
    true
}

fn copy_labels(labels: &Vec<String>) -> (r: Vec<String>)
    ensures
        label_texts(r@) == label_texts(labels@),
{
    let mut r: Vec<String> = Vec::new();
    let n: usize = labels.len();
    let mut i: usize = 0;
    while i < n
        invariant
            n == labels@.len(),
            i <= n,
            r@.len() == i,
            forall|j: int| 0 <= j < i ==> #[trigger] r@[j]@ == labels@[j]@,
        decreases n - i,
    {
        r.push(labels[i].clone());
        i = i + 1;
    }
    assert(label_texts(r@) =~= label_texts(labels@));
    r
}

/// What the engine has counted and measured. A gauge holds the last value it was set to.
pub struct Metrics {
    /// Whether the gauges have got their first values.
    pub initialised: bool,
    /// The trades that were made.
    pub trade_count: u64,
    /// The profit of all trades, in dollars.
    pub profit_total: Double,
    /// The profit of the trades of each strategy, in dollars.
    pub strategy_profit: Tally,
    /// The share of the transactions that were included.
    pub inclusion_rate: Double,
    /// The ether that is left for gas.
    pub gas_reserve_eth: Double,
    /// The lowest health factor of the open carries.
    pub rate_arb_min_hf: Double,
    /// The transactions and bundles that were handed in.
    pub submission_count: u64,
    /// The simulations of each strategy, by their result.
    pub sim_results: Tally,
    /// The latency of the node, in milliseconds.
    pub node_ipc_latency: Double,
    /// The latency of submissions, in milliseconds.
    pub sub_latency_ms: Double,
    /// The open carries.
    pub active_positions: Double,
    /// The transactions that were broadcast.
    pub submitted_total: u64,
    /// The transactions that were confirmed.
    pub included_total: u64,
}

/// What `Metrics` holds, each tally as its totals by label.
pub struct Measures {
    pub initialised: bool,
    pub trade_count: int,
    pub profit_total: Double,
    pub strategy_profit: Map<Seq<Seq<char>>, Double>,
    pub inclusion_rate: Double,
    pub gas_reserve_eth: Double,
    pub rate_arb_min_hf: Double,
    pub submission_count: int,
    pub sim_results: Map<Seq<Seq<char>>, Double>,
    pub node_ipc_latency: Double,
    pub sub_latency_ms: Double,
    pub active_positions: Double,
    pub submitted_total: int,
    pub included_total: int,
}

impl View for Metrics {
    type V = Measures;

    open spec fn view(&self) -> Measures {
        Measures {
            initialised: self.initialised,
            trade_count: self.trade_count as int,
            profit_total: self.profit_total,
            strategy_profit: self.strategy_profit@,
            inclusion_rate: self.inclusion_rate,
            gas_reserve_eth: self.gas_reserve_eth,
            rate_arb_min_hf: self.rate_arb_min_hf,
            submission_count: self.submission_count as int,
            sim_results: self.sim_results@,
            node_ipc_latency: self.node_ipc_latency,
            sub_latency_ms: self.sub_latency_ms,
            active_positions: self.active_positions,
            submitted_total: self.submitted_total as int,
            included_total: self.included_total as int,
        }
    }
}

/// A 64-bit count after one more.
pub open spec fn counted(n: int) -> int {
    (n + 1) % 0x1_0000_0000_0000_0000
}

/// What is measured before anything has happened.
pub open spec fn no_measures() -> Measures {
    let zero = Double { bits: 0 };
    Measures {
        initialised: false,
        trade_count: 0,
        profit_total: zero,
        strategy_profit: Map::empty(),
        inclusion_rate: zero,
        gas_reserve_eth: zero,
        rate_arb_min_hf: zero,
        submission_count: 0,
        sim_results: Map::empty(),
        node_ipc_latency: zero,
        sub_latency_ms: zero,
        active_positions: zero,
        submitted_total: 0,
        included_total: 0,
    }
}

/// What is measured after the gauges have got their first values, which they get once.
pub open spec fn after_init(m: Measures) -> Measures {
    if m.initialised {
        m
    } else {
        Measures {
            initialised: true,
            rate_arb_min_hf: Double { bits: NINETY_NINE },
            inclusion_rate: Double { bits: 0 },
            gas_reserve_eth: Double { bits: 0 },
            ..m
        }
    }
}

/// What is measured after a trade.
pub open spec fn after_trade(m: Measures, strategy: Seq<char>, profit_usd: Double) -> Measures {
    Measures {
        trade_count: counted(m.trade_count),
        profit_total: m.profit_total.plus(profit_usd),
        strategy_profit: grown(m.strategy_profit, seq![strategy], profit_usd),
        ..m
    }
}

/// What is measured after a transaction or a bundle was handed in.
pub open spec fn after_submission(m: Measures) -> Measures {
    Measures {
        submission_count: counted(m.submission_count),
        submitted_total: counted(m.submitted_total),
        ..m
    }
}

/// The share of the transactions that were confirmed: at most one, since a transaction that is
/// sent again is confirmed without being counted as submitted.
pub open spec fn included_share(included: nat, submitted: nat) -> Double {
    nearest_to_integer(included).over(nearest_to_integer(submitted)).lesser(Double { bits: ONE })
}

/// What is measured after a transaction was confirmed: the share of confirmed transactions is
/// taken anew, where any was broadcast.
pub open spec fn after_inclusion(m: Measures) -> Measures {
    let included = counted(m.included_total);
    Measures {
        included_total: included,
        inclusion_rate: if m.submitted_total > 0 {
            included_share(included as nat, m.submitted_total as nat)
        } else {
            m.inclusion_rate
        },
        ..m
    }
}

/// What is measured after a simulation.
pub open spec fn after_simulation(m: Measures, strategy: Seq<char>, result: Seq<char>) -> Measures {
    Measures {
        sim_results: grown(m.sim_results, seq![strategy, result], Double { bits: ONE }),
        ..m
    }
}

/// What is measured after a carry was opened.
pub open spec fn after_open(m: Measures) -> Measures {
    Measures { active_positions: m.active_positions.plus(Double { bits: ONE }), ..m }
}

/// What is measured after a carry was closed.
pub open spec fn after_close(m: Measures) -> Measures {
    Measures { active_positions: m.active_positions.minus(Double { bits: ONE }), ..m }
}

impl Metrics {
    pub fn new() -> (r: Metrics)
        ensures
            r@ == no_measures(),
    {
        let zero = Double { bits: 0 };
        Metrics {
            initialised: false,
            trade_count: 0,
            profit_total: zero,
            strategy_profit: Tally::new(),
            inclusion_rate: zero,
            gas_reserve_eth: zero,
            rate_arb_min_hf: zero,
            submission_count: 0,
            sim_results: Tally::new(),
            node_ipc_latency: zero,
            sub_latency_ms: zero,
            active_positions: zero,
            submitted_total: 0,
            included_total: 0,
        }
    }
}

/// Gives the gauges their first values; a second call does nothing.
pub fn init(m: &mut Metrics)
    ensures
        final(m)@ == after_init(old(m)@),
{
    if !m.initialised {
        m.initialised = true;
        m.rate_arb_min_hf = Double { bits: NINETY_NINE };
        m.inclusion_rate = Double { bits: 0 };
        m.gas_reserve_eth = Double { bits: 0 };
    }
}

/// Counts a trade and its profit.
pub fn record_trade(m: &mut Metrics, strategy: &str, profit_usd: Double)
    ensures
        final(m)@ == after_trade(old(m)@, strategy@, profit_usd),
{
    m.trade_count = m.trade_count.wrapping_add(1);
    m.profit_total = m.profit_total.add(profit_usd);
    let labels: Vec<&str> = vec![strategy];
    assert(borrowed_texts(labels@) =~= seq![strategy@]);
    m.strategy_profit.grow(&labels, profit_usd);
}

/// Counts a transaction or a bundle that was handed in.
pub fn record_submission(m: &mut Metrics)
    ensures
        final(m)@ == after_submission(old(m)@),
{
    m.submission_count = m.submission_count.wrapping_add(1);
    m.submitted_total = m.submitted_total.wrapping_add(1);
}

/// Counts a confirmed transaction and takes the share of confirmed transactions anew.
pub fn record_inclusion(m: &mut Metrics)
    ensures
        final(m)@ == after_inclusion(old(m)@),
{
    m.included_total = m.included_total.wrapping_add(1);
    if m.submitted_total > 0 {
        let included: Double = from_u128(m.included_total as u128);
        let submitted: Double = from_u128(m.submitted_total as u128);
        m.inclusion_rate = included.div(submitted).min(Double { bits: ONE });
    }
}

/// Counts a simulation by its strategy and its result.
pub fn record_sim_result(m: &mut Metrics, strategy: &str, result: &str)
    ensures
        final(m)@ == after_simulation(old(m)@, strategy@, result@),
{
    let labels: Vec<&str> = vec![strategy, result];
    assert(borrowed_texts(labels@) =~= seq![strategy@, result@]);
    m.sim_results.grow(&labels, Double { bits: ONE });
}

/// How a health factor is to be taken.
#[derive(Clone, Copy, Debug, PartialEq, Eq, Structural)]
pub enum HealthAlert {
    Emergency,
    Warning,
}

/// How a health factor is to be taken, where it is too low.
pub open spec fn health_alert(hf: Double) -> Option<HealthAlert> {
    if hf.below(Double { bits: HF_EMERGENCY }) {
        Some(HealthAlert::Emergency)
    } else if hf.below(Double { bits: HF_WARNING }) {
        Some(HealthAlert::Warning)
    } else {
        None
    }
}

/// Notes the lowest health factor, and tells how it is to be taken.
pub fn alert_hf(m: &mut Metrics, hf: Double) -> (r: Option<HealthAlert>)
    ensures
        final(m)@ == (Measures { rate_arb_min_hf: hf, ..old(m)@ }),
        r == health_alert(hf),
{
    m.rate_arb_min_hf = hf;
    if hf.is_below(Double { bits: HF_EMERGENCY }) {
        Some(HealthAlert::Emergency)
    } else if hf.is_below(Double { bits: HF_WARNING }) {
        Some(HealthAlert::Warning)
    } else {
        None
    }
}

/// Counts an open carry; the strategy is for the log alone.
pub fn record_position_open(m: &mut Metrics, _strategy: &str)
    ensures
        final(m)@ == after_open(old(m)@),
{
    m.active_positions = m.active_positions.add(Double { bits: ONE });
}

/// Counts a closed carry; the strategy is for the log alone.
pub fn record_position_close(m: &mut Metrics, _strategy: &str)
    ensures
        final(m)@ == after_close(old(m)@),
{
    m.active_positions = m.active_positions.sub(Double { bits: ONE });
}

/// Notes the ether that is left for gas, and tells whether it is less than one.
pub fn update_gas_reserve(m: &mut Metrics, eth: Double) -> (r: bool)
    ensures
        final(m)@ == (Measures { gas_reserve_eth: eth, ..old(m)@ }),
        r == eth.below(Double { bits: ONE }),
{
    m.gas_reserve_eth = eth;
    eth.is_below(Double { bits: ONE })
}

/// Notes the latency of the node.
pub fn update_ipc_latency(m: &mut Metrics, ms: Double)
    ensures
        final(m)@ == (Measures { node_ipc_latency: ms, ..old(m)@ }),
{
    m.node_ipc_latency = ms;
}

/// Notes the share of the transactions that were included.
pub fn update_inclusion_rate(m: &mut Metrics, rate: Double)
    ensures
        final(m)@ == (Measures { inclusion_rate: rate, ..old(m)@ }),
{
    m.inclusion_rate = rate;
}

/// A carry that is opened and closed again leaves the number of open carries as it was, and so
/// does one that is closed and opened again, while that number has at most fifty-three bits. It is
/// below zero where carries were closed that an earlier run had opened.
pub proof fn law_open_and_close_cancel(m: Measures, n: int)
    requires
        -0x20_0000_0000_0000 < n,
        n + 1 < 0x20_0000_0000_0000,
    ensures
        m.active_positions == whole_number(n) ==> after_close(after_open(m)) == m,
        m.active_positions == whole_number(n + 1) ==> after_open(after_close(m)) == m,
{
    law_counting_is_exact(n);
}

/// The share of confirmed transactions is between zero and one, however many were confirmed and
/// broadcast, and it is their quotient while no more are confirmed than were broadcast.
pub proof fn law_inclusion_rate_is_a_share(m: Measures)
    requires
        0 <= m.included_total < 0x1_0000_0000_0000_0000,
        0 < m.submitted_total < 0x1_0000_0000_0000_0000,
    ensures
        after_inclusion(m).inclusion_rate.at_most(Double { bits: ONE }),
        (Double { bits: 0 }).at_most(after_inclusion(m).inclusion_rate),
        m.included_total < m.submitted_total ==> after_inclusion(m).inclusion_rate
            == nearest_to_integer((m.included_total + 1) as nat).over(
            nearest_to_integer(m.submitted_total as nat),
        ),
{
    let (i, s) = (counted(m.included_total) as nat, m.submitted_total as nat);
    lemma_integer_is_amount(i);
    lemma_integer_is_amount(s);
    lemma_integer_is_exact(1);
    law_conversion_is_monotone(1, s);
    lemma_one();
    law_quotient_shrinks(nearest_to_integer(i), nearest_to_integer(s));
    if m.included_total < m.submitted_total {
        law_conversion_is_monotone(i, s);
        law_share_is_at_most_one(nearest_to_integer(i), nearest_to_integer(s));
    }
}

/// The gauges get their first values once: a second start changes nothing, whatever was measured
/// in between.
pub proof fn law_init_once(m: Measures)
    ensures
        after_init(after_init(m)) == after_init(m),
        after_init(m).initialised,
        m.initialised ==> after_init(m) == m,
{
}

/// A trade is counted once; its profit is added to the total and to that of its strategy, and
/// nothing else changes.
pub proof fn law_trade_is_counted(m: Measures, strategy: Seq<char>, other: Seq<char>, profit_usd: Double)
    requires
        0 <= m.trade_count < 0xffff_ffff_ffff_ffff,
        strategy != other,
    ensures
        ({
            let after = after_trade(m, strategy, profit_usd);
            let (mine, others) = (seq![strategy], seq![other]);
            &&& after.trade_count == m.trade_count + 1
            &&& after.profit_total == m.profit_total.plus(profit_usd)
            &&& after.strategy_profit.dom() == m.strategy_profit.dom().insert(mine)
            &&& m.strategy_profit.dom().contains(mine) ==> after.strategy_profit[mine]
                == m.strategy_profit[mine].plus(profit_usd)
            &&& m.strategy_profit.dom().contains(others) ==> after.strategy_profit[others]
                == m.strategy_profit[others]
            &&& after == (Measures {
                trade_count: after.trade_count,
                profit_total: after.profit_total,
                strategy_profit: after.strategy_profit,
                ..m
            })
        }),
{
    assert(seq![strategy][0] == strategy && seq![other][0] == other);
    let after = after_trade(m, strategy, profit_usd);
    assert(after.strategy_profit.dom() =~= m.strategy_profit.dom().insert(seq![strategy]));
}

/// The first profit of a strategy is its total.
pub proof fn law_first_profit_is_the_total(m: Measures, strategy: Seq<char>, profit_usd: Double)
    requires
        !m.strategy_profit.dom().contains(seq![strategy]),
        positive(profit_usd),
    ensures
        after_trade(m, strategy, profit_usd).strategy_profit[seq![strategy]] == profit_usd,
{
    lemma_units_zero(0);
    law_nothing_more(Double { bits: 0 }, profit_usd);
}

/// A submission adds one to both counts of submissions, and changes nothing else; a confirmation
/// adds one to the confirmed ones, and changes nothing else but their share.
pub proof fn law_submissions_are_counted(m: Measures)
    requires
        0 <= m.submission_count < 0xffff_ffff_ffff_ffff,
        0 <= m.submitted_total < 0xffff_ffff_ffff_ffff,
        0 <= m.included_total < 0xffff_ffff_ffff_ffff,
    ensures
        after_submission(m) == (Measures {
            submission_count: m.submission_count + 1,
            submitted_total: m.submitted_total + 1,
            ..m
        }),
        after_inclusion(m).included_total == m.included_total + 1,
        after_inclusion(m) == (Measures {
            included_total: m.included_total + 1,
            inclusion_rate: after_inclusion(m).inclusion_rate,
            ..m
        }),
        m.submitted_total == 0 ==> after_inclusion(m).inclusion_rate == m.inclusion_rate,
        m.submitted_total == m.included_total + 1 ==> after_inclusion(m).inclusion_rate == (Double {
            bits: ONE,
        }),
{
    if m.submitted_total == m.included_total + 1 {
        let s = m.submitted_total as nat;
        lemma_integer_is_amount(s);
        lemma_integer_is_exact(1);
        law_conversion_is_monotone(1, s);
        lemma_one();
        lemma_positive(nearest_to_integer(s));
        law_own_share(nearest_to_integer(s));
    }
}

/// A simulation adds one to the count of its strategy and its result, and to no other.
pub proof fn law_simulation_is_counted(
    m: Measures,
    strategy: Seq<char>,
    result: Seq<char>,
    labels: Seq<Seq<char>>,
    n: nat,
)
    requires
        n + 1 < countable(),
    ensures
        ({
            let after = after_simulation(m, strategy, result);
            let mine = seq![strategy, result];
            &&& after == (Measures { sim_results: after.sim_results, ..m })
            &&& after.sim_results.dom().contains(mine)
            &&& m.sim_results.dom().contains(mine) && m.sim_results[mine] == nearest_to_integer(n)
                ==> after.sim_results[mine] == nearest_to_integer(n + 1)
            &&& !m.sim_results.dom().contains(mine) ==> after.sim_results[mine] == (Double {
                bits: ONE,
            })
            &&& labels != mine ==> after.sim_results.dom().contains(labels)
                == m.sim_results.dom().contains(labels)
            &&& labels != mine && m.sim_results.dom().contains(labels) ==> after.sim_results[labels]
                == m.sim_results[labels]
        }),
{
    law_constants();
    law_whole_sum(n, 1);
    lemma_units_zero(0);
    lemma_one();
    lemma_positive(Double { bits: ONE });
    law_nothing_more(Double { bits: 0 }, Double { bits: ONE });
}

/// Opening a carry adds one to those that are open, closing one takes one off, and neither changes
/// anything else.
pub proof fn law_open_carries_are_counted(m: Measures, n: nat)
    requires
        n + 1 < countable(),
    ensures
        m.active_positions == nearest_to_integer(n) ==> after_open(m) == (Measures {
            active_positions: nearest_to_integer(n + 1),
            ..m
        }),
        m.active_positions == nearest_to_integer(n + 1) ==> after_close(m) == (Measures {
            active_positions: nearest_to_integer(n),
            ..m
        }),
{
    law_constants();
    law_whole_sum(n, 1);
    law_whole_difference(n + 1, 1);
}

/// A lower health factor is never taken more lightly; a health factor of one or less is an
/// emergency, one below eleven tenths is one too, one from there to twelve tenths is watched, and
/// from two on there is no alert.
pub proof fn law_alerts_grow(hf: Double, lower: Double)
    requires
        lower.at_most(hf),
    ensures
        health_alert(hf) is Some ==> health_alert(lower) is Some,
        health_alert(hf) == Some(HealthAlert::Emergency) ==> health_alert(lower) == Some(
            HealthAlert::Emergency,
        ),
        hf.at_most(Double { bits: ONE }) ==> health_alert(hf) == Some(HealthAlert::Emergency),
        (Double { bits: TWO }).at_most(hf) ==> health_alert(hf) is None,
        health_alert(hf) is Some <==> hf.below(Double { bits: HF_WARNING }),
        health_alert(hf) == Some(HealthAlert::Emergency) <==> hf.below(
            Double { bits: HF_EMERGENCY },
        ),
{
    lemma_words(ONE, HF_EMERGENCY);
    lemma_words(HF_EMERGENCY, HF_WARNING);
    lemma_words(HF_WARNING, TWO);
}

/// Before anything has happened nothing is counted and nothing gained; the first start sets the
/// lowest health factor to ninety-nine and takes no count back.
pub proof fn law_measures_start_at_nothing(m: Measures)
    ensures
        ({
            let none = no_measures();
            &&& !none.initialised
            &&& none.trade_count == 0 && none.submission_count == 0 && none.submitted_total == 0
                && none.included_total == 0
            &&& none.profit_total.zero() && none.inclusion_rate.zero() && none.gas_reserve_eth.zero()
                && none.active_positions.zero()
            &&& none.node_ipc_latency.zero() && none.sub_latency_ms.zero()
            &&& forall|k: Seq<Seq<char>>| !(#[trigger] none.strategy_profit.dom().contains(k))
            &&& forall|k: Seq<Seq<char>>| !(#[trigger] none.sim_results.dom().contains(k))
        }),
        !m.initialised ==> {
            &&& after_init(m).rate_arb_min_hf == nearest_to_integer(99)
            &&& after_init(m).inclusion_rate.zero() && after_init(m).gas_reserve_eth.zero()
        },
        after_init(m) == (Measures {
            initialised: true,
            rate_arb_min_hf: after_init(m).rate_arb_min_hf,
            inclusion_rate: after_init(m).inclusion_rate,
            gas_reserve_eth: after_init(m).gas_reserve_eth,
            ..m
        }),
{
    lemma_units_zero(0);
    law_constants();
}

} // verus!
