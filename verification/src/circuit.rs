//! Circuit breakers: a strategy that keeps failing is paused.

use crate::shared::text::{numeral, write_numeral};
use vstd::prelude::*;
use vstd::string::*;

verus! {

/// The failures after which a strategy is paused.
pub const REVERT_THRESHOLD: u32 = 25;

/// The failures after which the liquidity strategy is paused: each of its failures costs more.
pub const REVERT_THRESHOLD_JIT: u32 = 10;

/// The successes in a row that make earlier failures forgotten.
pub const RESET_CONSEC_THRESHOLD: u32 = 3;

/// The failures of one strategy that count, and its successes in a row.
pub struct Breaker {
    reverts: u32,
    consec: u32,
}

/// What a breaker has counted.
pub struct BreakerCounts {
    pub reverts: int,
    pub consec: int,
}

impl View for Breaker {
    type V = BreakerCounts;

    closed spec fn view(&self) -> BreakerCounts {
        BreakerCounts { reverts: self.reverts as int, consec: self.consec as int }
    }
}

/// What is counted after a failure: the count of failures is a 32-bit one.
pub open spec fn after_revert(c: BreakerCounts) -> BreakerCounts {
    BreakerCounts { reverts: (c.reverts + 1) % 0x1_0000_0000, consec: 0 }
}

/// What is counted after a success.
pub open spec fn after_success(c: BreakerCounts) -> BreakerCounts {
    if c.consec + 1 >= RESET_CONSEC_THRESHOLD {
        BreakerCounts { reverts: 0, consec: 0 }
    } else {
        BreakerCounts { reverts: c.reverts, consec: c.consec + 1 }
    }
}

impl Breaker {
    #[verifier::type_invariant]
    spec fn bounded(self) -> bool {
        self.consec < RESET_CONSEC_THRESHOLD
    }

    pub fn new() -> (r: Breaker)
        ensures
            r@ == (BreakerCounts { reverts: 0, consec: 0 }),
    {
        Breaker { reverts: 0, consec: 0 }
    }

    /// The failures that count.
    pub fn reverts(&self) -> (r: u32)
        ensures
            r == self@.reverts,
    {
        self.reverts
    }
}

/// Whether the strategy of a breaker is paused.
pub fn circuit_tripped(breaker: &Breaker, threshold: u32) -> (r: bool)
    ensures
        r == (breaker@.reverts >= threshold),
{
    breaker.reverts >= threshold
}

/// Whether the strategy of a breaker is paused, and the alert that is sent where it is.
pub fn circuit_tripped_alert(breaker: &Breaker, threshold: u32, label: &str) -> (r: Option<String>)
    ensures
        r is Some <==> breaker@.reverts >= threshold,
        r matches Some(text) ==> text@ == label@ + " tripped after "@ + numeral(
            breaker@.reverts as nat,
            10,
        ) + " consecutive reverts"@,
{
    if breaker.reverts >= threshold {
        let mut text: String = String::from_str(label);
        text.append(" tripped after ");
        let count: String = write_numeral(breaker.reverts as u64, 10);
        text.append(count.as_str());
        text.append(" consecutive reverts");
        Some(text)
    } else {
        None
    }
}

/// Counts a failure.
pub fn record_revert(breaker: &mut Breaker)
    ensures
        final(breaker)@ == after_revert(old(breaker)@),
{
    let reverts: u32 = breaker.reverts.wrapping_add(1);
    *breaker = Breaker { reverts, consec: 0 };
}

/// Counts a success: only several in a row make earlier failures forgotten.
pub fn record_success(breaker: &mut Breaker)
    ensures
        final(breaker)@ == after_success(old(breaker)@),
{
    proof {
        use_type_invariant(&*breaker);
    }
    let consec: u32 = breaker.consec + 1;
    if consec >= RESET_CONSEC_THRESHOLD {
        *breaker = Breaker { reverts: 0, consec: 0 };
    } else {
        let reverts: u32 = breaker.reverts;
        *breaker = Breaker { reverts, consec };
    }
}

/// What is counted after a sequence of outcomes, `true` for a success.
pub open spec fn after_all(c: BreakerCounts, outcomes: Seq<bool>) -> BreakerCounts
    decreases outcomes.len(),
{
    if outcomes.len() == 0 {
        c
    } else {
        let before = after_all(c, outcomes.drop_last());
        if outcomes.last() {
            after_success(before)
        } else {
            after_revert(before)
        }
    }
}

/// The failures among some outcomes.
pub open spec fn failures(outcomes: Seq<bool>) -> nat
    decreases outcomes.len(),
{
    if outcomes.len() == 0 {
        0
    } else {
        failures(outcomes.drop_last()) + if outcomes.last() {
            0nat
        } else {
            1nat
        }
    }
}

/// Whether among the outcomes no three successes stand in a row.
pub open spec fn flaky(outcomes: Seq<bool>) -> bool {
    forall|i: int|
        #![trigger outcomes[i]]
        2 <= i < outcomes.len() ==> !(outcomes[i] && outcomes[i - 1] && outcomes[i - 2])
}

/// The successes at the end of some outcomes.
spec fn streak(outcomes: Seq<bool>) -> nat
    decreases outcomes.len(),
{
    if outcomes.len() == 0 || !outcomes.last() {
        0
    } else {
        streak(outcomes.drop_last()) + 1
    }
}

/// Where no three successes stand in a row, the streak stays short, and every failure counts.
proof fn lemma_flaky(outcomes: Seq<bool>)
    requires
        flaky(outcomes),
        failures(outcomes) < 0x1_0000_0000,
    ensures
        streak(outcomes) <= 2,
        after_all(BreakerCounts { reverts: 0, consec: 0 }, outcomes) == (BreakerCounts {
            reverts: failures(outcomes) as int,
            consec: streak(outcomes) as int,
        }),
    decreases outcomes.len(),
{
    if outcomes.len() > 0 {
        let rest = outcomes.drop_last();
        assert(flaky(rest)) by {
            assert forall|i: int| #![trigger rest[i]] 2 <= i < rest.len() implies !(rest[i] && rest[i
                - 1] && rest[i - 2]) by {
                assert(rest[i] == outcomes[i]);
            }
        }
        lemma_flaky(rest);
        if outcomes.last() && streak(rest) == 2 {
            let n = outcomes.len() as int;
            assert(rest.len() > 0 && rest.last());
            let front = rest.drop_last();
            assert(streak(front) == 1);
            assert(front.len() > 0 && front.last());
            assert(outcomes[n - 1] && outcomes[n - 2] && outcomes[n - 3]);
        }
    }
}

/// A strategy whose successes never come three in a row is paused once its failures reach the
/// threshold, however many single successes stand between them.
pub proof fn law_flaky_strategy_trips(outcomes: Seq<bool>, threshold: u32)
    requires
        flaky(outcomes),
        failures(outcomes) < 0x1_0000_0000,
    ensures
        after_all(BreakerCounts { reverts: 0, consec: 0 }, outcomes).reverts >= threshold
            <==> failures(outcomes) >= threshold,
{
    lemma_flaky(outcomes);
}

/// Three successes in a row clear the failures, whatever was counted before.
pub proof fn law_three_successes_clear(c: BreakerCounts)
    requires
        0 <= c.consec < RESET_CONSEC_THRESHOLD,
    ensures
        after_all(c, seq![true, true, true]).reverts == 0,
{
    let three = seq![true, true, true];
    let two = seq![true, true];
    let one = seq![true];
    let none = Seq::<bool>::empty();
    assert(three.drop_last() =~= two && two.drop_last() =~= one && one.drop_last() =~= none);
    assert(after_all(c, none) == c);
    assert(after_all(c, one) == after_success(c));
    assert(after_all(c, two) == after_success(after_success(c)));
}

/// A failure ends every run of successes.
pub proof fn law_failure_ends_the_streak(c: BreakerCounts)
    ensures
        after_revert(c).consec == 0,
{
}

/// Each failure counts once, however many single successes or pairs of them stand around it: one
/// or two successes in a row clear nothing.
pub proof fn law_failures_are_not_forgotten_early(c: BreakerCounts)
    requires
        0 <= c.reverts < 0xffff_ffff,
    ensures
        after_revert(c).reverts == c.reverts + 1,
        c.consec == 0 ==> after_success(c).reverts == c.reverts && after_success(c).consec == 1,
        c.consec == 0 ==> after_success(after_success(c)).reverts == c.reverts
            && after_success(after_success(c)).consec == 2,
        c.consec == 2 ==> after_success(c).reverts == 0 && after_success(c).consec == 0,
        after_success(after_revert(c)).reverts == c.reverts + 1,
{
}

} // verus!
