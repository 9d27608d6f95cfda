//! The oracle price aggregator.
//!
//! Price votes are collected over a rolling vote period, keyed by validator
//! operator address; on crossing a period boundary the cross-validator
//! average per denomination is computed over the non-negligible submissions,
//! abstentions (negligible submissions) and drift outliers are reported as
//! events, stale validators are purged, and the window is reset.  The
//! period computation reads only the collected window, so its result cannot
//! depend on the order in which votes arrived (see
//! [`lemma_average_order_independent`]).

use vstd::prelude::*;
use vstd::arithmetic::div_mod::lemma_div_is_ordered;
use vstd::arithmetic::div_mod::lemma_div_multiples_vanish;
use crate::coins::{parse_coins, spec_parse_coins, Coin, AMOUNT_SCALE};
use crate::messages::{Event, MessagePriceAbstain, MessagePriceDrift, MessageTX};
use crate::text::{str_eq, string_is};
use crate::types::{BlockMsg, MsgValue, TXandResult};

verus! {

/// Blocks a validator may stay unseen before it is purged from the
/// last-seen record at a period boundary.
pub const LAGGY_WINDOW: u64 = 100;

/// Most coins one vote may list, and most validators one window may hold:
/// far beyond any chain's denomination or validator count, and small enough
/// that every aggregate fits in machine integers.
pub const WINDOW_CAP: usize = 0xffff_ffff;

/// The oracle parameters fetched once at creation.  Fractions are in
/// millionths.
pub struct OracleParams {
    /// Blocks per vote period.
    pub vote_period: u64,
    pub vote_threshold: u64,
    /// Largest allowed relative drift from the average, in millionths.
    pub reward_band: u64,
    pub reward_distribution_window: u64,
    pub slash_fraction: u64,
    pub slash_window: u64,
    pub min_valid_per_window: u64,
    /// Amounts below this many millionths count as "no vote".
    pub epsilon: u64,
}

/// One validator's latest vote in the current window.
#[derive(Debug)]
pub struct VoteEntry {
    pub operator: String,
    /// The submitted coin vector.
    pub coins: Vec<Coin>,
    /// The transaction the vote arrived in, for attribution.
    pub txhash: String,
}

/// When a validator's vote was last seen; kept across windows.
#[derive(Debug)]
pub struct SeenVote {
    pub operator: String,
    pub height: u64,
}

/// The oracle price aggregation actor.
pub struct OracleActor {
    pub vote_period: u64,
    pub vote_threshold: u64,
    pub reward_band: u64,
    pub reward_distribution_window: u64,
    pub slash_fraction: u64,
    pub slash_window: u64,
    pub min_valid_per_window: u64,
    pub epsilon: u64,
    pub last_avg_at_height: u64,
    pub validator_vote_last_seen: Vec<SeenVote>,
    pub validator_vote_prices: Vec<VoteEntry>,
}

/// No two window entries share an operator address.
pub open spec fn unique_ops(w: Seq<VoteEntry>) -> bool {
    forall|i: int, j: int|
        0 <= i < j < w.len() ==> (#[trigger] w[i]).operator@ != (#[trigger] w[j]).operator@
}

/// No two last-seen entries share an operator address.
pub open spec fn unique_seen(s: Seq<SeenVote>) -> bool {
    forall|i: int, j: int|
        0 <= i < j < s.len() ==> (#[trigger] s[i]).operator@ != (#[trigger] s[j]).operator@
}

impl OracleActor {
    /// The aggregator's invariant: operators are unique and the window is
    /// small enough that every aggregate fits in machine integers.
    pub open spec fn wf(&self) -> bool {
        &&& unique_ops(self.validator_vote_prices@)
        &&& unique_seen(self.validator_vote_last_seen@)
        &&& self.validator_vote_prices@.len() <= WINDOW_CAP
        &&& forall|i: int|
            0 <= i < self.validator_vote_prices@.len() ==> (
            #[trigger] self.validator_vote_prices@[i]).coins@.len() <= WINDOW_CAP
    }

    /// A fresh aggregator with the given parameters and an empty window.
    pub fn create(params: OracleParams) -> (r: OracleActor)
        ensures
            r.wf(),
            r.vote_period == params.vote_period,
            r.vote_threshold == params.vote_threshold,
            r.reward_band == params.reward_band,
            r.reward_distribution_window == params.reward_distribution_window,
            r.slash_fraction == params.slash_fraction,
            r.slash_window == params.slash_window,
            r.min_valid_per_window == params.min_valid_per_window,
            r.epsilon == params.epsilon,
            r.last_avg_at_height == 0,
            r.validator_vote_last_seen@.len() == 0,
            r.validator_vote_prices@.len() == 0,
    {
        OracleActor {
            vote_period: params.vote_period,
            vote_threshold: params.vote_threshold,
            reward_band: params.reward_band,
            reward_distribution_window: params.reward_distribution_window,
            slash_fraction: params.slash_fraction,
            slash_window: params.slash_window,
            min_valid_per_window: params.min_valid_per_window,
            epsilon: params.epsilon,
            last_avg_at_height: 0,
            validator_vote_last_seen: Vec::new(),
            validator_vote_prices: Vec::new(),
        }
    }
}

/// Sum over the first `j` coins of the amounts submitted for `denom` that
/// are not negligible.
pub open spec fn coins_sum_upto(cs: Seq<Coin>, j: int, denom: Seq<char>, eps: u64) -> int
    decreases j,
{
    if j <= 0 {
        0
    } else {
        coins_sum_upto(cs, j - 1, denom, eps) + (
        if cs[j - 1].denom@ == denom && cs[j - 1].amount >= eps {
            cs[j - 1].amount as int
        } else {
            0
        })
    }
}

/// Count over the first `j` coins of the non-negligible submissions for
/// `denom`.
pub open spec fn coins_count_upto(cs: Seq<Coin>, j: int, denom: Seq<char>, eps: u64) -> int
    decreases j,
{
    if j <= 0 {
        0
    } else {
        coins_count_upto(cs, j - 1, denom, eps) + (
        if cs[j - 1].denom@ == denom && cs[j - 1].amount >= eps {
            1int
        } else {
            0int
        })
    }
}

/// Sum of the non-negligible submissions for `denom` over the first `i`
/// window entries.
pub open spec fn window_sum_upto(w: Seq<VoteEntry>, i: int, denom: Seq<char>, eps: u64) -> int
    decreases i,
{
    if i <= 0 {
        0
    } else {
        window_sum_upto(w, i - 1, denom, eps) + coins_sum_upto(
            w[i - 1].coins@,
            w[i - 1].coins@.len() as int,
            denom,
            eps,
        )
    }
}

/// Count of the non-negligible submissions for `denom` over the first `i`
/// window entries.
pub open spec fn window_count_upto(w: Seq<VoteEntry>, i: int, denom: Seq<char>, eps: u64) -> int
    decreases i,
{
    if i <= 0 {
        0
    } else {
        window_count_upto(w, i - 1, denom, eps) + coins_count_upto(
            w[i - 1].coins@,
            w[i - 1].coins@.len() as int,
            denom,
            eps,
        )
    }
}

/// Sum of all non-negligible submissions for `denom` in the window.
pub open spec fn window_sum(w: Seq<VoteEntry>, denom: Seq<char>, eps: u64) -> int {
    window_sum_upto(w, w.len() as int, denom, eps)
}

/// Count of all non-negligible submissions for `denom` in the window.
pub open spec fn window_count(w: Seq<VoteEntry>, denom: Seq<char>, eps: u64) -> int {
    window_count_upto(w, w.len() as int, denom, eps)
}

/// The period-boundary average for `denom`: the arithmetic mean, in
/// millionths, of the non-negligible submissions (whole millionths; the
/// division truncates).
pub open spec fn window_average(w: Seq<VoteEntry>, denom: Seq<char>, eps: u64) -> int {
    window_sum(w, denom, eps) / window_count(w, denom, eps)
}

/// Whether a submission drifts: it differs from the average by more than
/// `average * reward_band` (band in millionths).
pub open spec fn is_drift(amount: u64, sum: int, count: int, band: u64) -> bool {
    count > 0 && {
        let avg = sum / count;
        let threshold = (avg * band) / (AMOUNT_SCALE as int);
        let diff = if amount >= avg {
            amount - avg
        } else {
            avg - amount
        };
        diff > threshold
    }
}

/// The abstain events of one entry's first `j` coins: one per negligible
/// submission.
pub open spec fn entry_abstains_upto(height: u64, e: VoteEntry, j: int, eps: u64) -> Seq<Event>
    decreases j,
{
    if j <= 0 {
        Seq::empty()
    } else {
        entry_abstains_upto(height, e, j - 1, eps) + (
        if e.coins@[j - 1].amount < eps {
            seq![
                Event::PriceAbstain(
                    MessagePriceAbstain {
                        height,
                        operator_address: e.operator,
                        denom: e.coins@[j - 1].denom,
                        txhash: e.txhash,
                    },
                ),
            ]
        } else {
            Seq::empty()
        })
    }
}

/// The abstain events of the first `i` window entries.
pub open spec fn window_abstains_upto(height: u64, w: Seq<VoteEntry>, i: int, eps: u64) -> Seq<
    Event,
>
    decreases i,
{
    if i <= 0 {
        Seq::empty()
    } else {
        window_abstains_upto(height, w, i - 1, eps) + entry_abstains_upto(
            height,
            w[i - 1],
            w[i - 1].coins@.len() as int,
            eps,
        )
    }
}

/// All abstain events of a period: one per validator per negligible
/// submission, in window order.
pub open spec fn window_abstains(height: u64, w: Seq<VoteEntry>, eps: u64) -> Seq<Event> {
    window_abstains_upto(height, w, w.len() as int, eps)
}

/// Whether some earlier coin (index below `j`) has this coin's
/// denomination: only the first coin of a denomination is judged.
pub open spec fn earlier_denom(cs: Seq<Coin>, j: int) -> bool {
    exists|k: int| 0 <= k < j && (#[trigger] cs[k]).denom@ == cs[j].denom@
}

/// The drift event judged for coin `j` of entry `e`, if any: the coin must
/// be its denomination's first in the entry, non-negligible, and drifting.
pub open spec fn coin_drift_events(e: VoteEntry, j: int, height: u64, w: Seq<VoteEntry>, eps: u64, band: u64) -> Seq<Event> {
    let c = e.coins@[j];
    let sum = window_sum(w, c.denom@, eps);
    let count = window_count(w, c.denom@, eps);
    if !earlier_denom(e.coins@, j) && c.amount >= eps && is_drift(c.amount, sum, count, band) {
        seq![
            Event::PriceDrift(
                MessagePriceDrift {
                    height,
                    operator_address: e.operator,
                    denom: c.denom,
                    average: (sum / count) as u64,
                    weighted_average: (sum / count) as u64,
                    submitted: c.amount,
                    txhash: e.txhash,
                },
            ),
        ]
    } else {
        Seq::empty()
    }
}

/// The drift events of one entry's first `j` coins.
pub open spec fn entry_drifts_upto(
    height: u64,
    e: VoteEntry,
    j: int,
    w: Seq<VoteEntry>,
    eps: u64,
    band: u64,
) -> Seq<Event>
    decreases j,
{
    if j <= 0 {
        Seq::empty()
    } else {
        entry_drifts_upto(height, e, j - 1, w, eps, band) + coin_drift_events(
            e,
            j - 1,
            height,
            w,
            eps,
            band,
        )
    }
}

/// The drift events of the first `i` window entries.
pub open spec fn window_drifts_upto(
    height: u64,
    w: Seq<VoteEntry>,
    i: int,
    eps: u64,
    band: u64,
) -> Seq<Event>
    decreases i,
{
    if i <= 0 {
        Seq::empty()
    } else {
        window_drifts_upto(height, w, i - 1, eps, band) + entry_drifts_upto(
            height,
            w[i - 1],
            w[i - 1].coins@.len() as int,
            w,
            eps,
            band,
        )
    }
}

/// All drift events of a period: for each validator and each denomination
/// it submitted (judging the first coin of that denomination), one event
/// exactly when the non-negligible submission drifts beyond
/// `average * reward_band`.
pub open spec fn window_drifts(height: u64, w: Seq<VoteEntry>, eps: u64, band: u64) -> Seq<Event> {
    window_drifts_upto(height, w, w.len() as int, eps, band)
}

/// Everything a period boundary reports: the abstains, then the drifts.
pub open spec fn period_events(height: u64, w: Seq<VoteEntry>, eps: u64, band: u64) -> Seq<Event> {
    window_abstains(height, w, eps) + window_drifts(height, w, eps, band)
}

/// Sums are bounded by `count * u64::MAX`, and counts by `j`.
proof fn lemma_coins_sum_bounds(cs: Seq<Coin>, j: int, denom: Seq<char>, eps: u64)
    requires
        0 <= j,
    ensures
        0 <= coins_count_upto(cs, j, denom, eps) <= j,
        0 <= coins_sum_upto(cs, j, denom, eps) <= coins_count_upto(cs, j, denom, eps) * (
        u64::MAX as int),
    decreases j,
{
    if j > 0 {
        lemma_coins_sum_bounds(cs, j - 1, denom, eps);
        let c0 = coins_count_upto(cs, j - 1, denom, eps);
        let c1 = coins_count_upto(cs, j, denom, eps);
        assert(c0 * (u64::MAX as int) <= c1 * (u64::MAX as int)) by (nonlinear_arith)
            requires
                c0 <= c1,
        ;
    }
}

/// Window sums are bounded by `count * u64::MAX`.
proof fn lemma_window_sum_bounds(w: Seq<VoteEntry>, i: int, denom: Seq<char>, eps: u64)
    requires
        0 <= i,
    ensures
        0 <= window_count_upto(w, i, denom, eps),
        0 <= window_sum_upto(w, i, denom, eps) <= window_count_upto(w, i, denom, eps) * (
        u64::MAX as int),
    decreases i,
{
    if i > 0 {
        lemma_window_sum_bounds(w, i - 1, denom, eps);
        let cs = w[i - 1].coins@;
        lemma_coins_sum_bounds(cs, cs.len() as int, denom, eps);
        let a = window_count_upto(w, i - 1, denom, eps);
        let b = coins_count_upto(cs, cs.len() as int, denom, eps);
        assert((a + b) * (u64::MAX as int) == a * (u64::MAX as int) + b * (u64::MAX as int))
            by (nonlinear_arith);
    }
}

/// A positive-count average fits in a `u64`.
pub proof fn lemma_average_fits(w: Seq<VoteEntry>, denom: Seq<char>, eps: u64)
    requires
        window_count(w, denom, eps) > 0,
    ensures
        0 <= window_average(w, denom, eps) <= u64::MAX,
{
    let sum = window_sum(w, denom, eps);
    let count = window_count(w, denom, eps);
    lemma_window_sum_bounds(w, w.len() as int, denom, eps);
    lemma_div_is_ordered(sum, count * (u64::MAX as int), count);
    lemma_div_multiples_vanish(u64::MAX as int, count);
    assert(count * (u64::MAX as int) == (u64::MAX as int) * count) by (nonlinear_arith);
    assert(sum / count >= 0) by (nonlinear_arith)
        requires
            sum >= 0,
            count > 0,
    ;
}

/// Per-denomination running aggregate while a window is folded.
struct DenomAgg {
    denom: String,
    sum: u128,
    count: u128,
}

proof fn lemma_coins_count_monotone(cs: Seq<Coin>, j1: int, j2: int, denom: Seq<char>, eps: u64)
    requires
        0 <= j1 <= j2,
    ensures
        coins_count_upto(cs, j1, denom, eps) <= coins_count_upto(cs, j2, denom, eps),
    decreases j2 - j1,
{
    if j1 < j2 {
        lemma_coins_count_monotone(cs, j1, j2 - 1, denom, eps);
    }
}

proof fn lemma_window_count_monotone(w: Seq<VoteEntry>, i1: int, i2: int, denom: Seq<char>, eps: u64)
    requires
        0 <= i1 <= i2,
    ensures
        window_count_upto(w, i1, denom, eps) <= window_count_upto(w, i2, denom, eps),
    decreases i2 - i1,
{
    if i1 < i2 {
        lemma_window_count_monotone(w, i1, i2 - 1, denom, eps);
        let cs = w[i2 - 1].coins@;
        lemma_coins_sum_bounds(cs, cs.len() as int, denom, eps);
    }
}

/// A counted submission makes the window count positive.
proof fn lemma_count_positive(w: Seq<VoteEntry>, i: int, j: int, denom: Seq<char>, eps: u64)
    requires
        0 <= i < w.len(),
        0 <= j < w[i].coins@.len(),
        w[i].coins@[j].denom@ == denom,
        w[i].coins@[j].amount >= eps,
    ensures
        window_count(w, denom, eps) > 0,
{
    let cs = w[i].coins@;
    lemma_coins_sum_bounds(cs, j, denom, eps);
    assert(coins_count_upto(cs, j + 1, denom, eps) >= 1);
    lemma_coins_count_monotone(cs, j + 1, cs.len() as int, denom, eps);
    lemma_window_sum_bounds(w, i, denom, eps);
    assert(window_count_upto(w, i + 1, denom, eps) >= 1);
    lemma_window_count_monotone(w, i + 1, w.len() as int, denom, eps);
}

/// Counts stay below `i * WINDOW_CAP` when every entry's coin list is
/// capped.
proof fn lemma_count_le_cap(w: Seq<VoteEntry>, i: int, denom: Seq<char>, eps: u64)
    requires
        0 <= i <= w.len(),
        forall|t: int| 0 <= t < w.len() ==> (#[trigger] w[t]).coins@.len() <= WINDOW_CAP,
    ensures
        window_count_upto(w, i, denom, eps) <= i * (WINDOW_CAP as int),
    decreases i,
{
    if i > 0 {
        lemma_count_le_cap(w, i - 1, denom, eps);
        let cs = w[i - 1].coins@;
        lemma_coins_sum_bounds(cs, cs.len() as int, denom, eps);
        assert(coins_count_upto(cs, cs.len() as int, denom, eps) <= WINDOW_CAP as int);
        assert(i * (WINDOW_CAP as int) == (i - 1) * (WINDOW_CAP as int) + WINDOW_CAP as int)
            by (nonlinear_arith);
    }
}

/// Find the aggregate entry for a denomination.
fn find_agg(aggs: &Vec<DenomAgg>, d: &String) -> (r: Option<usize>)
    ensures
        match r {
            Some(k) => k < aggs@.len() && aggs@[k as int].denom@ == d@,
            None => forall|k: int| 0 <= k < aggs@.len() ==> (#[trigger] aggs@[k]).denom@ != d@,
        },
{
    let mut k: usize = 0;
    while k < aggs.len()
        invariant
            k <= aggs@.len(),
            forall|t: int| 0 <= t < k ==> (#[trigger] aggs@[t]).denom@ != d@,
        decreases aggs@.len() - k,
    {
        if str_eq(aggs[k].denom.as_str(), d.as_str()) {
            return Some(k);
        }
        k = k + 1;
    }
    None
}

/// Whether an earlier coin of the same entry already has this coin's
/// denomination.
fn has_earlier_denom(coins: &Vec<Coin>, j: usize) -> (r: bool)
    requires
        j < coins@.len(),
    ensures
        r == earlier_denom(coins@, j as int),
{
    let mut k: usize = 0;
    while k < j
        invariant
            k <= j < coins@.len(),
            forall|t: int| 0 <= t < k ==> (#[trigger] coins@[t]).denom@ != coins@[j as int].denom@,
        decreases j - k,
    {
        if str_eq(coins[k].denom.as_str(), coins[j].denom.as_str()) {
            assert(earlier_denom(coins@, j as int));
            return true;
        }
        k = k + 1;
    }
    false
}

impl OracleActor {
    /// Compute one period's events over the current window: an abstain for
    /// every negligible submission, then a drift for every submission more
    /// than `average * reward_band` from its denomination's average.  The
    /// window itself is left untouched.
    pub fn do_price_averages(&self, height: u64) -> (r: Vec<Event>)
        requires
            self.wf(),
        ensures
            r@ == period_events(
                height,
                self.validator_vote_prices@,
                self.epsilon,
                self.reward_band,
            ),
    {
        let eps = self.epsilon;
        let band = self.reward_band;
        let w = &self.validator_vote_prices;
        let ghost wv = self.validator_vote_prices@;
        let mut out: Vec<Event> = Vec::new();
        // abstains: every negligible submission, in window order
        let mut i: usize = 0;
        proof {
            assert(out@ =~= window_abstains_upto(height, wv, 0, eps));
        }
        while i < w.len()
            invariant
                self.wf(),
                eps == self.epsilon,
                wv == self.validator_vote_prices@,
                w == &self.validator_vote_prices,
                i <= wv.len(),
                out@ == window_abstains_upto(height, wv, i as int, eps),
            decreases wv.len() - i,
        {
            let coins = &w[i].coins;
            let mut j: usize = 0;
            while j < coins.len()
                invariant
                    self.wf(),
                    eps == self.epsilon,
                    wv == self.validator_vote_prices@,
                    w == &self.validator_vote_prices,
                    i < wv.len(),
                    coins == &wv[i as int].coins,
                    j <= coins@.len(),
                    out@ == window_abstains_upto(height, wv, i as int, eps) + entry_abstains_upto(
                        height,
                        wv[i as int],
                        j as int,
                        eps,
                    ),
                decreases coins@.len() - j,
            {
                if coins[j].amount < eps {
                    let e = Event::PriceAbstain(
                        MessagePriceAbstain {
                            height,
                            operator_address: w[i].operator.clone(),
                            denom: coins[j].denom.clone(),
                            txhash: w[i].txhash.clone(),
                        },
                    );
                    let ghost prev = out@;
                    out.push(e);
                    proof {
                        assert(out@ =~= prev + entry_abstains_upto(
                            height,
                            wv[i as int],
                            j as int + 1,
                            eps,
                        ).subrange(
                            entry_abstains_upto(height, wv[i as int], j as int, eps).len() as int,
                            entry_abstains_upto(height, wv[i as int], j as int + 1, eps).len() as int,
                        ));
                        assert(out@ =~= window_abstains_upto(height, wv, i as int, eps)
                            + entry_abstains_upto(height, wv[i as int], j as int + 1, eps));
                    }
                } else {
                    proof {
                        assert(entry_abstains_upto(height, wv[i as int], j as int + 1, eps)
                            =~= entry_abstains_upto(height, wv[i as int], j as int, eps));
                    }
                }
                j = j + 1;
            }
            proof {
                assert(out@ =~= window_abstains_upto(height, wv, i as int + 1, eps));
            }
            i = i + 1;
        }
        let ghost abstains = out@;
        proof {
            assert(abstains == window_abstains(height, wv, eps));
        }
        // aggregate the non-negligible submissions per denomination
        let mut aggs: Vec<DenomAgg> = Vec::new();
        let mut i2: usize = 0;
        while i2 < w.len()
            invariant
                self.wf(),
                eps == self.epsilon,
                wv == self.validator_vote_prices@,
                w == &self.validator_vote_prices,
                i2 <= wv.len(),
                forall|k1: int, k2: int|
                    0 <= k1 < k2 < aggs@.len() ==> (#[trigger] aggs@[k1]).denom@ != (
                    #[trigger] aggs@[k2]).denom@,
                forall|k: int|
                    0 <= k < aggs@.len() ==> (#[trigger] aggs@[k]).sum == window_sum_upto(
                        wv,
                        i2 as int,
                        aggs@[k].denom@,
                        eps,
                    ) && aggs@[k].count == window_count_upto(wv, i2 as int, aggs@[k].denom@, eps),
                forall|d: Seq<char>|
                    window_count_upto(wv, i2 as int, d, eps) > 0 ==> exists|k: int|
                        0 <= k < aggs@.len() && (#[trigger] aggs@[k]).denom@ == d,
            decreases wv.len() - i2,
        {
            let coins = &w[i2].coins;
            let mut j: usize = 0;
            while j < coins.len()
                invariant
                    self.wf(),
                    eps == self.epsilon,
                    wv == self.validator_vote_prices@,
                    w == &self.validator_vote_prices,
                    i2 < wv.len(),
                    coins == &wv[i2 as int].coins,
                    j <= coins@.len(),
                    forall|k1: int, k2: int|
                        0 <= k1 < k2 < aggs@.len() ==> (#[trigger] aggs@[k1]).denom@ != (
                        #[trigger] aggs@[k2]).denom@,
                    forall|k: int|
                        0 <= k < aggs@.len() ==> (#[trigger] aggs@[k]).sum == window_sum_upto(
                            wv,
                            i2 as int,
                            aggs@[k].denom@,
                            eps,
                        ) + coins_sum_upto(coins@, j as int, aggs@[k].denom@, eps) && aggs@[k].count
                            == window_count_upto(wv, i2 as int, aggs@[k].denom@, eps)
                            + coins_count_upto(coins@, j as int, aggs@[k].denom@, eps),
                    forall|d: Seq<char>|
                        window_count_upto(wv, i2 as int, d, eps) + coins_count_upto(
                            coins@,
                            j as int,
                            d,
                            eps,
                        ) > 0 ==> exists|k: int|
                            0 <= k < aggs@.len() && (#[trigger] aggs@[k]).denom@ == d,
                decreases coins@.len() - j,
            {
                let amount = coins[j].amount;
                if amount >= eps {
                    proof {
                        lemma_count_le_cap(wv, i2 as int, coins@[j as int].denom@, eps);
                        lemma_coins_sum_bounds(coins@, j as int, coins@[j as int].denom@, eps);
                        lemma_window_sum_bounds(wv, i2 as int, coins@[j as int].denom@, eps);
                    }
                    match find_agg(&aggs, &coins[j].denom) {
                        Some(k) => {
                            let ghost d = aggs@[k as int].denom@;
                            proof {
                                let a = window_count_upto(wv, i2 as int, d, eps);
                                let b = coins_count_upto(coins@, j as int, d, eps);
                                lemma_coins_count_monotone(coins@, j as int, coins@.len() as int, d, eps);
                                lemma_coins_sum_bounds(coins@, coins@.len() as int, d, eps);
                                lemma_coins_sum_bounds(coins@, j as int, d, eps);
                                lemma_count_le_cap(wv, i2 as int, d, eps);
                                lemma_window_sum_bounds(wv, i2 as int, d, eps);
                                assert(b <= WINDOW_CAP as int);
                                assert(a <= (i2 as int) * (WINDOW_CAP as int));
                                assert(a * (u64::MAX as int) + b * (u64::MAX as int) == (a + b) * (
                                u64::MAX as int)) by (nonlinear_arith);
                                assert((a + b) * (u64::MAX as int) + u64::MAX < u128::MAX)
                                    by (nonlinear_arith)
                                    requires
                                        0 <= a + b,
                                        a <= (i2 as int) * (WINDOW_CAP as int),
                                        b <= WINDOW_CAP as int,
                                        0 <= i2 as int,
                                        (i2 as int) < wv.len(),
                                        wv.len() <= WINDOW_CAP as int,
                                        WINDOW_CAP == 0xffff_ffff,
                                ;
                            }
                            let ghost prev = aggs@;
                            let a = &mut aggs[k];
                            a.sum = a.sum + amount as u128;
                            a.count = a.count + 1;
                            proof {
                                assert forall|t: int|
                                    0 <= t < aggs@.len() implies (#[trigger] aggs@[t]).sum
                                    == window_sum_upto(wv, i2 as int, aggs@[t].denom@, eps)
                                    + coins_sum_upto(coins@, j as int + 1, aggs@[t].denom@, eps) by {
                                    let dt = aggs@[t].denom@;
                                    assert(coins_sum_upto(coins@, j as int + 1, dt, eps)
                                        == coins_sum_upto(coins@, j as int, dt, eps) + (
                                    if coins@[j as int].denom@ == dt && coins@[j as int].amount
                                        >= eps {
                                        coins@[j as int].amount as int
                                    } else {
                                        0int
                                    }));
                                    if t != k {
                                        assert(aggs@[t].denom@ != d);
                                    }
                                }
                                assert forall|t: int|
                                    0 <= t < aggs@.len() implies (#[trigger] aggs@[t]).count
                                    == window_count_upto(wv, i2 as int, aggs@[t].denom@, eps)
                                    + coins_count_upto(coins@, j as int + 1, aggs@[t].denom@, eps) by {
                                    let dt = aggs@[t].denom@;
                                    assert(coins_count_upto(coins@, j as int + 1, dt, eps)
                                        == coins_count_upto(coins@, j as int, dt, eps) + (
                                    if coins@[j as int].denom@ == dt && coins@[j as int].amount
                                        >= eps {
                                        1int
                                    } else {
                                        0int
                                    }));
                                    if t != k {
                                        assert(aggs@[t].denom@ != d);
                                    }
                                }
                                assert forall|d2: Seq<char>|
                                    window_count_upto(wv, i2 as int, d2, eps) + coins_count_upto(
                                        coins@,
                                        j as int + 1,
                                        d2,
                                        eps,
                                    ) > 0 implies exists|t: int|
                                        0 <= t < aggs@.len() && (#[trigger] aggs@[t]).denom@
                                            == d2 by {
                                    assert(coins_count_upto(coins@, j as int + 1, d2, eps)
                                        == coins_count_upto(coins@, j as int, d2, eps) + (
                                    if coins@[j as int].denom@ == d2 && coins@[j as int].amount
                                        >= eps {
                                        1int
                                    } else {
                                        0int
                                    }));
                                    if d2 == d {
                                        assert(aggs@[k as int].denom@ == d2);
                                    } else {
                                        let t0 = choose|t0: int|
                                            0 <= t0 < prev.len() && (#[trigger] prev[t0]).denom@
                                                == d2;
                                        assert(aggs@[t0].denom@ == d2);
                                    }
                                }
                            }
                        },
                        None => {
                            let ghost prev = aggs@;
                            aggs.push(
                                DenomAgg {
                                    denom: coins[j].denom.clone(),
                                    sum: amount as u128,
                                    count: 1,
                                },
                            );
                            proof {
                                let d = coins@[j as int].denom@;
                                assert(window_sum_upto(wv, i2 as int, d, eps) == 0
                                    && window_count_upto(wv, i2 as int, d, eps) == 0
                                    && coins_sum_upto(coins@, j as int, d, eps) == 0
                                    && coins_count_upto(coins@, j as int, d, eps) == 0) by {
                                    lemma_window_sum_bounds(wv, i2 as int, d, eps);
                                    lemma_coins_sum_bounds(coins@, j as int, d, eps);
                                };
                                assert forall|t: int|
                                    0 <= t < aggs@.len() implies (#[trigger] aggs@[t]).sum
                                    == window_sum_upto(wv, i2 as int, aggs@[t].denom@, eps)
                                    + coins_sum_upto(coins@, j as int + 1, aggs@[t].denom@, eps)
                                    && aggs@[t].count == window_count_upto(
                                    wv,
                                    i2 as int,
                                    aggs@[t].denom@,
                                    eps,
                                ) + coins_count_upto(coins@, j as int + 1, aggs@[t].denom@, eps) by {
                                    let dt = aggs@[t].denom@;
                                    assert(coins_sum_upto(coins@, j as int + 1, dt, eps)
                                        == coins_sum_upto(coins@, j as int, dt, eps) + (
                                    if coins@[j as int].denom@ == dt && coins@[j as int].amount
                                        >= eps {
                                        coins@[j as int].amount as int
                                    } else {
                                        0int
                                    }));
                                    assert(coins_count_upto(coins@, j as int + 1, dt, eps)
                                        == coins_count_upto(coins@, j as int, dt, eps) + (
                                    if coins@[j as int].denom@ == dt && coins@[j as int].amount
                                        >= eps {
                                        1int
                                    } else {
                                        0int
                                    }));
                                }
                                assert forall|d2: Seq<char>|
                                    window_count_upto(wv, i2 as int, d2, eps) + coins_count_upto(
                                        coins@,
                                        j as int + 1,
                                        d2,
                                        eps,
                                    ) > 0 implies exists|t: int|
                                        0 <= t < aggs@.len() && (#[trigger] aggs@[t]).denom@
                                            == d2 by {
                                    assert(coins_count_upto(coins@, j as int + 1, d2, eps)
                                        == coins_count_upto(coins@, j as int, d2, eps) + (
                                    if coins@[j as int].denom@ == d2 && coins@[j as int].amount
                                        >= eps {
                                        1int
                                    } else {
                                        0int
                                    }));
                                    if d2 == d {
                                        assert(aggs@[aggs@.len() - 1].denom@ == d2);
                                    } else {
                                        if window_count_upto(wv, i2 as int, d2, eps)
                                            + coins_count_upto(coins@, j as int, d2, eps) > 0 {
                                            let t0 = choose|t0: int|
                                                0 <= t0 < prev.len() && (#[trigger] prev[t0]).denom@
                                                    == d2;
                                            assert(aggs@[t0].denom@ == d2);
                                        }
                                    }
                                }
                            }
                        },
                    }
                } else {
                    proof {
                        assert forall|d: Seq<char>|
                            coins_count_upto(coins@, j as int + 1, d, eps) == coins_count_upto(
                                coins@,
                                j as int,
                                d,
                                eps,
                            ) && coins_sum_upto(coins@, j as int + 1, d, eps) == coins_sum_upto(
                                coins@,
                                j as int,
                                d,
                                eps,
                            ) by {}
                    }
                }
                j = j + 1;
            }
            proof {
                assert forall|k: int|
                    0 <= k < aggs@.len() implies (#[trigger] aggs@[k]).sum == window_sum_upto(
                        wv,
                        i2 as int + 1,
                        aggs@[k].denom@,
                        eps,
                    ) && aggs@[k].count == window_count_upto(
                        wv,
                        i2 as int + 1,
                        aggs@[k].denom@,
                        eps,
                    ) by {
                    let dk = aggs@[k].denom@;
                    assert(window_sum_upto(wv, i2 as int + 1, dk, eps) == window_sum_upto(
                        wv,
                        i2 as int,
                        dk,
                        eps,
                    ) + coins_sum_upto(wv[i2 as int].coins@, wv[i2 as int].coins@.len() as int, dk, eps));
                    assert(window_count_upto(wv, i2 as int + 1, dk, eps) == window_count_upto(
                        wv,
                        i2 as int,
                        dk,
                        eps,
                    ) + coins_count_upto(wv[i2 as int].coins@, wv[i2 as int].coins@.len() as int, dk, eps));
                }
                let i2next = i2 as int + 1;
                assert forall|d2: Seq<char>|
                    #[trigger] window_count_upto(wv, i2next, d2, eps) > 0 implies exists|k: int|
                        0 <= k < aggs@.len() && (#[trigger] aggs@[k]).denom@ == d2 by {
                    assert(window_count_upto(wv, i2next, d2, eps) == window_count_upto(
                        wv,
                        i2 as int,
                        d2,
                        eps,
                    ) + coins_count_upto(wv[i2 as int].coins@, wv[i2 as int].coins@.len() as int, d2, eps));
                }
            }
            i2 = i2 + 1;
        }
        // judge each validator's first coin of every denomination
        let mut i3: usize = 0;
        while i3 < w.len()
            invariant
                self.wf(),
                eps == self.epsilon,
                band == self.reward_band,
                wv == self.validator_vote_prices@,
                w == &self.validator_vote_prices,
                i3 <= wv.len(),
                forall|k: int|
                    0 <= k < aggs@.len() ==> (#[trigger] aggs@[k]).sum == window_sum(
                        wv,
                        aggs@[k].denom@,
                        eps,
                    ) && aggs@[k].count == window_count(wv, aggs@[k].denom@, eps),
                forall|d: Seq<char>|
                    window_count(wv, d, eps) > 0 ==> exists|k: int|
                        0 <= k < aggs@.len() && (#[trigger] aggs@[k]).denom@ == d,
                out@ == abstains + window_drifts_upto(height, wv, i3 as int, eps, band),
                abstains == window_abstains(height, wv, eps),
            decreases wv.len() - i3,
        {
            let coins = &w[i3].coins;
            let mut j: usize = 0;
            while j < coins.len()
                invariant
                    self.wf(),
                    eps == self.epsilon,
                    band == self.reward_band,
                    wv == self.validator_vote_prices@,
                    w == &self.validator_vote_prices,
                    i3 < wv.len(),
                    coins == &wv[i3 as int].coins,
                    j <= coins@.len(),
                    forall|k: int|
                        0 <= k < aggs@.len() ==> (#[trigger] aggs@[k]).sum == window_sum(
                            wv,
                            aggs@[k].denom@,
                            eps,
                        ) && aggs@[k].count == window_count(wv, aggs@[k].denom@, eps),
                    forall|d: Seq<char>|
                        window_count(wv, d, eps) > 0 ==> exists|k: int|
                            0 <= k < aggs@.len() && (#[trigger] aggs@[k]).denom@ == d,
                    out@ == abstains + window_drifts_upto(height, wv, i3 as int, eps, band)
                        + entry_drifts_upto(height, wv[i3 as int], j as int, wv, eps, band),
                    abstains == window_abstains(height, wv, eps),
                decreases coins@.len() - j,
            {
                let ghost d = coins@[j as int].denom@;
                let dup = has_earlier_denom(coins, j);
                let amount = coins[j].amount;
                let mut emitted = false;
                if !dup && amount >= eps {
                    proof {
                        lemma_count_positive(wv, i3 as int, j as int, d, eps);
                    }
                    match find_agg(&aggs, &coins[j].denom) {
                        None => {
                            proof {
                                assert(window_count(wv, d, eps) > 0);
                                assert(false);
                            }
                        },
                        Some(k) => {
                            let sum = aggs[k].sum;
                            let count = aggs[k].count;
                            proof {
                                assert(count == window_count(wv, d, eps));
                                assert(count > 0);
                                lemma_average_fits(wv, d, eps);
                            }
                            let avg = sum / count;
                            proof {
                                assert(avg <= u64::MAX as u128);
                                assert((avg as int) * (band as int) < u128::MAX)
                                    by (nonlinear_arith)
                                    requires
                                        0 <= avg as int <= u64::MAX as int,
                                        0 <= band as int <= u64::MAX as int,
                                ;
                            }
                            let threshold = (avg * band as u128) / (AMOUNT_SCALE as u128);
                            let diff = if amount as u128 >= avg {
                                amount as u128 - avg
                            } else {
                                avg - amount as u128
                            };
                            if diff > threshold {
                                let e = Event::PriceDrift(
                                    MessagePriceDrift {
                                        height,
                                        operator_address: w[i3].operator.clone(),
                                        denom: coins[j].denom.clone(),
                                        average: avg as u64,
                                        weighted_average: avg as u64,
                                        submitted: amount,
                                        txhash: w[i3].txhash.clone(),
                                    },
                                );
                                let ghost prev = out@;
                                out.push(e);
                                emitted = true;
                                proof {
                                    assert(is_drift(
                                        amount,
                                        window_sum(wv, d, eps),
                                        window_count(wv, d, eps),
                                        band,
                                    ));
                                    assert(coin_drift_events(
                                        wv[i3 as int],
                                        j as int,
                                        height,
                                        wv,
                                        eps,
                                        band,
                                    ) =~= seq![out@.last()]);
                                    assert(out@ =~= prev + coin_drift_events(
                                        wv[i3 as int],
                                        j as int,
                                        height,
                                        wv,
                                        eps,
                                        band,
                                    ));
                                }
                            } else {
                                proof {
                                    assert(!is_drift(
                                        amount,
                                        window_sum(wv, d, eps),
                                        window_count(wv, d, eps),
                                        band,
                                    ));
                                }
                            }
                        },
                    }
                }
                proof {
                    if !emitted {
                        assert(coin_drift_events(wv[i3 as int], j as int, height, wv, eps, band)
                            =~= Seq::<Event>::empty());
                    }
                    assert(out@ =~= abstains + window_drifts_upto(height, wv, i3 as int, eps, band)
                        + entry_drifts_upto(height, wv[i3 as int], j as int + 1, wv, eps, band));
                }
                j = j + 1;
            }
            proof {
                assert(out@ =~= abstains + window_drifts_upto(
                    height,
                    wv,
                    i3 as int + 1,
                    eps,
                    band,
                ));
            }
            i3 = i3 + 1;
        }
        proof {
            assert(out@ =~= period_events(height, wv, eps, band));
        }
        out
    }
}


/// Some window entry has this operator.
pub open spec fn has_op(w: Seq<VoteEntry>, op: Seq<char>) -> bool {
    exists|i: int| 0 <= i < w.len() && (#[trigger] w[i]).operator@ == op
}

/// Some last-seen entry has this operator.
pub open spec fn has_seen(s: Seq<SeenVote>, op: Seq<char>) -> bool {
    exists|i: int| 0 <= i < s.len() && (#[trigger] s[i]).operator@ == op
}

/// The entry carries this operator, these coin views and this hash.
pub open spec fn entry_matches(
    e: VoteEntry,
    op: Seq<char>,
    coins: Seq<crate::coins::CoinView>,
    hash: Seq<char>,
) -> bool {
    e.operator@ == op && crate::coins::coin_views(e.coins@) == coins && e.txhash@ == hash
}

/// `w1` is `w0` with one vote recorded: the operator's entry is replaced
/// (overwriting any prior vote in the window), or appended for an unseen
/// operator; a vote beyond the size caps leaves the window unchanged.
pub open spec fn vote_applied(
    w0: Seq<VoteEntry>,
    op: Seq<char>,
    coins: Seq<crate::coins::CoinView>,
    hash: Seq<char>,
    w1: Seq<VoteEntry>,
) -> bool {
    if coins.len() > WINDOW_CAP {
        w1 == w0
    } else if has_op(w0, op) {
        exists|i: int, e: VoteEntry|
            0 <= i < w0.len() && w0[i].operator@ == op && entry_matches(e, op, coins, hash) && w1
                == #[trigger] w0.update(i, e)
    } else if w0.len() >= WINDOW_CAP {
        w1 == w0
    } else {
        exists|e: VoteEntry| entry_matches(e, op, coins, hash) && w1 == #[trigger] w0.push(e)
    }
}

/// `s1` is `s0` with the operator marked as last seen at `height`.
pub open spec fn seen_applied(s0: Seq<SeenVote>, op: Seq<char>, height: u64, s1: Seq<SeenVote>) -> bool {
    if has_seen(s0, op) {
        exists|i: int, e: SeenVote|
            0 <= i < s0.len() && s0[i].operator@ == op && e.operator@ == op && e.height == height
                && s1 == #[trigger] s0.update(i, e)
    } else {
        exists|e: SeenVote| e.operator@ == op && e.height == height && s1 == #[trigger] s0.push(e)
    }
}

/// Whether this message is a decodable aggregate exchange-rate vote with a
/// well-formed quantity string.
pub open spec fn is_recorded_vote(m: BlockMsg) -> bool {
    &&& m.s_type@ == "oracle/MsgAggregateExchangeRateVote"@
    &&& m.value matches MsgValue::ExchangeRateVote(v) && spec_parse_coins(v.exchange_rates@)
        is Some
}

/// The coin views a recorded vote submits.
pub open spec fn vote_coins(m: BlockMsg) -> Seq<crate::coins::CoinView> {
    spec_parse_coins(m.value->ExchangeRateVote_0.exchange_rates@)->Some_0
}

/// The voting validator of a recorded vote.
pub open spec fn vote_operator(m: BlockMsg) -> Seq<char> {
    m.value->ExchangeRateVote_0.validator@
}

/// One message's effect on the window: a recorded vote is applied, any
/// other message leaves it unchanged.
pub open spec fn vote_step(wm: Seq<VoteEntry>, m: BlockMsg, hash: Seq<char>, w1: Seq<VoteEntry>) -> bool {
    if is_recorded_vote(m) {
        vote_applied(wm, vote_operator(m), vote_coins(m), hash, w1)
    } else {
        w1 == wm
    }
}

/// One message's effect on the last-seen record.
pub open spec fn seen_step(sm: Seq<SeenVote>, m: BlockMsg, height: u64, s1: Seq<SeenVote>) -> bool {
    if is_recorded_vote(m) {
        seen_applied(sm, vote_operator(m), height, s1)
    } else {
        s1 == sm
    }
}

/// `w1` is `w0` after recording the messages' votes, in order.
pub open spec fn votes_applied(
    w0: Seq<VoteEntry>,
    msgs: Seq<BlockMsg>,
    hash: Seq<char>,
    w1: Seq<VoteEntry>,
) -> bool
    decreases msgs.len(),
{
    if msgs.len() == 0 {
        w1 == w0
    } else {
        exists|wm: Seq<VoteEntry>|
            votes_applied(w0, msgs.drop_last(), hash, wm) && #[trigger] vote_step(
                wm,
                msgs.last(),
                hash,
                w1,
            )
    }
}

/// `s1` is `s0` after marking the messages' voters as seen.
pub open spec fn seens_applied(
    s0: Seq<SeenVote>,
    msgs: Seq<BlockMsg>,
    height: u64,
    s1: Seq<SeenVote>,
) -> bool
    decreases msgs.len(),
{
    if msgs.len() == 0 {
        s1 == s0
    } else {
        exists|sm: Seq<SeenVote>|
            seens_applied(s0, msgs.drop_last(), height, sm) && #[trigger] seen_step(
                sm,
                msgs.last(),
                height,
                s1,
            )
    }
}

/// The messages of a transaction, when it is a standard envelope.
pub open spec fn tx_msgs(tx: TXandResult) -> Seq<BlockMsg> {
    if tx.tx.s_type@ == "core/StdTx"@ {
        tx.tx.value.msg@
    } else {
        Seq::empty()
    }
}

/// The last-seen record with the entries older than `cutoff` purged,
/// keeping the first `n` entries' survivors in order.
pub open spec fn purge_upto(s: Seq<SeenVote>, n: int, cutoff: u64) -> Seq<SeenVote>
    decreases n,
{
    if n <= 0 {
        Seq::empty()
    } else {
        purge_upto(s, n - 1, cutoff) + (if s[n - 1].height >= cutoff {
            seq![s[n - 1]]
        } else {
            Seq::empty()
        })
    }
}

/// The purge cutoff for a period ending at `height`: validators unseen for
/// more than `LAGGY_WINDOW` blocks are dropped.
pub open spec fn purge_cutoff(height: u64) -> u64 {
    if height >= LAGGY_WINDOW {
        (height - LAGGY_WINDOW) as u64
    } else {
        0
    }
}

impl OracleActor {
    /// All parameter fields are unchanged.
    pub open spec fn params_unchanged(&self, old_self: &OracleActor) -> bool {
        &&& self.vote_period == old_self.vote_period
        &&& self.vote_threshold == old_self.vote_threshold
        &&& self.reward_band == old_self.reward_band
        &&& self.reward_distribution_window == old_self.reward_distribution_window
        &&& self.slash_fraction == old_self.slash_fraction
        &&& self.slash_window == old_self.slash_window
        &&& self.min_valid_per_window == old_self.min_valid_per_window
        &&& self.epsilon == old_self.epsilon
    }

    /// Record one vote in the window, overwriting the operator's previous
    /// entry if any.
    fn upsert_vote(&mut self, operator: String, coins: Vec<Coin>, txhash: String)
        requires
            old(self).wf(),
        ensures
            final(self).wf(),
            final(self).params_unchanged(old(self)),
            final(self).last_avg_at_height == old(self).last_avg_at_height,
            final(self).validator_vote_last_seen@ == old(self).validator_vote_last_seen@,
            vote_applied(
                old(self).validator_vote_prices@,
                operator@,
                crate::coins::coin_views(coins@),
                txhash@,
                final(self).validator_vote_prices@,
            ),
    {
        let ghost w0 = self.validator_vote_prices@;
        let ghost cviews = crate::coins::coin_views(coins@);
        let ghost opv = operator@;
        let ghost hashv = txhash@;
        if coins.len() > WINDOW_CAP {
            return ;
        }
        let len = self.validator_vote_prices.len();
        let mut i: usize = 0;
        while i < len
            invariant
                self == old(self),
                self.wf(),
                w0 == self.validator_vote_prices@,
                len == w0.len(),
                i <= len,
                opv == operator@,
                hashv == txhash@,
                cviews == crate::coins::coin_views(coins@),
                coins@.len() <= WINDOW_CAP,
                forall|t: int| 0 <= t < i ==> (#[trigger] w0[t]).operator@ != opv,
            decreases len - i,
        {
            if str_eq(self.validator_vote_prices[i].operator.as_str(), operator.as_str()) {
                let e = VoteEntry { operator, coins, txhash };
                proof {
                    assert(w0[i as int].operator@ == opv);
                    assert(has_op(w0, opv));
                    assert(e.operator@ == opv && crate::coins::coin_views(e.coins@) == cviews
                        && e.txhash@ == hashv);
                    assert(entry_matches(e, opv, cviews, hashv));
                }
                self.validator_vote_prices[i] = e;
                proof {
                    assert(self.validator_vote_prices@ == w0.update(i as int, e));
                    assert forall|t1: int, t2: int|
                        0 <= t1 < t2 < self.validator_vote_prices@.len() implies (
                    #[trigger] self.validator_vote_prices@[t1]).operator@ != (
                    #[trigger] self.validator_vote_prices@[t2]).operator@ by {
                        assert(w0[t1].operator@ != w0[t2].operator@);
                    }
                }
                return ;
            }
            i = i + 1;
        }
        proof {
            assert(!has_op(w0, opv));
        }
        if len >= WINDOW_CAP {
            return ;
        }
        let e = VoteEntry { operator, coins, txhash };
        proof {
            assert(e.operator@ == opv && crate::coins::coin_views(e.coins@) == cviews && e.txhash@
                == hashv);
            assert(entry_matches(e, opv, cviews, hashv));
        }
        self.validator_vote_prices.push(e);
        proof {
            assert forall|t1: int, t2: int|
                0 <= t1 < t2 < self.validator_vote_prices@.len() implies (
            #[trigger] self.validator_vote_prices@[t1]).operator@ != (
            #[trigger] self.validator_vote_prices@[t2]).operator@ by {
                if t2 < w0.len() {
                    assert(w0[t1].operator@ != w0[t2].operator@);
                } else {
                    assert(w0[t1].operator@ != e.operator@);
                }
            }
        }
    }

    /// Mark an operator as last seen at `height`.
    fn upsert_seen(&mut self, operator: String, height: u64)
        requires
            old(self).wf(),
        ensures
            final(self).wf(),
            final(self).params_unchanged(old(self)),
            final(self).last_avg_at_height == old(self).last_avg_at_height,
            final(self).validator_vote_prices@ == old(self).validator_vote_prices@,
            seen_applied(
                old(self).validator_vote_last_seen@,
                operator@,
                height,
                final(self).validator_vote_last_seen@,
            ),
    {
        let ghost s0 = self.validator_vote_last_seen@;
        let ghost opv = operator@;
        let len = self.validator_vote_last_seen.len();
        let mut i: usize = 0;
        while i < len
            invariant
                self == old(self),
                self.wf(),
                s0 == self.validator_vote_last_seen@,
                len == s0.len(),
                i <= len,
                opv == operator@,
                forall|t: int| 0 <= t < i ==> (#[trigger] s0[t]).operator@ != opv,
            decreases len - i,
        {
            if str_eq(self.validator_vote_last_seen[i].operator.as_str(), operator.as_str()) {
                let e = SeenVote { operator, height };
                proof {
                    assert(s0[i as int].operator@ == opv);
                    assert(has_seen(s0, opv));
                    assert(e.operator@ == opv && e.height == height);
                }
                self.validator_vote_last_seen[i] = e;
                proof {
                    assert(self.validator_vote_last_seen@ == s0.update(i as int, e));
                    assert forall|t1: int, t2: int|
                        0 <= t1 < t2 < self.validator_vote_last_seen@.len() implies (
                    #[trigger] self.validator_vote_last_seen@[t1]).operator@ != (
                    #[trigger] self.validator_vote_last_seen@[t2]).operator@ by {
                        assert(s0[t1].operator@ != s0[t2].operator@);
                    }
                }
                return ;
            }
            i = i + 1;
        }
        proof {
            assert(!has_seen(s0, opv));
        }
        let e = SeenVote { operator, height };
        proof {
            assert(e.operator@ == opv && e.height == height);
        }
        self.validator_vote_last_seen.push(e);
        proof {
            assert forall|t1: int, t2: int|
                0 <= t1 < t2 < self.validator_vote_last_seen@.len() implies (
            #[trigger] self.validator_vote_last_seen@[t1]).operator@ != (
            #[trigger] self.validator_vote_last_seen@[t2]).operator@ by {
                if t2 < s0.len() {
                    assert(s0[t1].operator@ != s0[t2].operator@);
                } else {
                    assert(s0[t1].operator@ != e.operator@);
                }
            }
        }
    }

    /// Handle one transaction event.
    ///
    /// A standard transaction's aggregate exchange-rate votes are recorded
    /// in the window (the latest vote per validator wins); an undecodable
    /// vote is dropped.  When the height crosses the period boundary
    /// (`vote_period` blocks past the last average), the period's abstain
    /// and drift events are computed and returned, validators unseen for
    /// more than `LAGGY_WINDOW` blocks are purged from the last-seen
    /// record, and the window is reset; otherwise nothing is returned.
    pub fn handle(&mut self, msg: &MessageTX) -> (r: Vec<Event>)
        requires
            old(self).wf(),
        ensures
            final(self).wf(),
            final(self).params_unchanged(old(self)),
            exists|w1: Seq<VoteEntry>, s1: Seq<SeenVote>|
                #![trigger votes_applied(
                    old(self).validator_vote_prices@,
                    tx_msgs(msg.tx),
                    msg.tx.txhash@,
                    w1,
                ), seens_applied(
                    old(self).validator_vote_last_seen@,
                    tx_msgs(msg.tx),
                    msg.tx.height,
                    s1,
                )]
                votes_applied(
                    old(self).validator_vote_prices@,
                    tx_msgs(msg.tx),
                    msg.tx.txhash@,
                    w1,
                ) && seens_applied(
                    old(self).validator_vote_last_seen@,
                    tx_msgs(msg.tx),
                    msg.tx.height,
                    s1,
                ) && if msg.tx.height >= old(self).last_avg_at_height + old(self).vote_period {
                    &&& r@ == period_events(
                        msg.tx.height,
                        w1,
                        old(self).epsilon,
                        old(self).reward_band,
                    )
                    &&& final(self).validator_vote_prices@.len() == 0
                    &&& final(self).validator_vote_last_seen@ == purge_upto(
                        s1,
                        s1.len() as int,
                        purge_cutoff(msg.tx.height),
                    )
                    &&& final(self).last_avg_at_height == msg.tx.height
                } else {
                    &&& r@.len() == 0
                    &&& final(self).validator_vote_prices@ == w1
                    &&& final(self).validator_vote_last_seen@ == s1
                    &&& final(self).last_avg_at_height == old(self).last_avg_at_height
                },
    {
        let height = msg.tx.height;
        let ghost w0 = self.validator_vote_prices@;
        let ghost s0 = self.validator_vote_last_seen@;
        let ghost msgs = tx_msgs(msg.tx);
        if string_is(&msg.tx.tx.s_type, "core/StdTx") {
            let mlist = &msg.tx.tx.value.msg;
            proof {
                assert(msgs == mlist@);
            }
            let mut n: usize = 0;
            proof {
                assert(msgs.take(0) =~= Seq::<BlockMsg>::empty());
            }
            while n < mlist.len()
                invariant
                    self.wf(),
                    self.params_unchanged(old(self)),
                    self.last_avg_at_height == old(self).last_avg_at_height,
                    n <= msgs.len(),
                    msgs == mlist@,
                    mlist == &msg.tx.tx.value.msg,
                    w0 == old(self).validator_vote_prices@,
                    s0 == old(self).validator_vote_last_seen@,
                    votes_applied(
                        w0,
                        msgs.take(n as int),
                        msg.tx.txhash@,
                        self.validator_vote_prices@,
                    ),
                    seens_applied(s0, msgs.take(n as int), height, self.validator_vote_last_seen@),
                    height == msg.tx.height,
                decreases msgs.len() - n,
            {
                let ghost wm = self.validator_vote_prices@;
                let ghost sm = self.validator_vote_last_seen@;
                if string_is(&mlist[n].s_type, "oracle/MsgAggregateExchangeRateVote") {
                    match &mlist[n].value {
                        MsgValue::ExchangeRateVote(vote) => {
                            match parse_coins(vote.exchange_rates.as_str()) {
                                Ok(coins) => {
                                    proof {
                                        assert(is_recorded_vote(msgs[n as int]));
                                        assert(vote_coins(msgs[n as int]) == crate::coins::coin_views(
                                            coins@,
                                        ));
                                        assert(vote_operator(msgs[n as int]) == vote.validator@);
                                    }
                                    let ghost cv = crate::coins::coin_views(coins@);
                                    self.upsert_vote(
                                        vote.validator.clone(),
                                        coins,
                                        msg.tx.txhash.clone(),
                                    );
                                    self.upsert_seen(vote.validator.clone(), height);
                                    proof {
                                        assert(vote_applied(
                                            wm,
                                            vote_operator(msgs[n as int]),
                                            vote_coins(msgs[n as int]),
                                            msg.tx.txhash@,
                                            self.validator_vote_prices@,
                                        )) by {
                                            assert(cv == vote_coins(msgs[n as int]));
                                            assert(vote_operator(msgs[n as int])
                                                == vote.validator@);
                                        }
                                        assert(seen_applied(
                                            sm,
                                            vote_operator(msgs[n as int]),
                                            height,
                                            self.validator_vote_last_seen@,
                                        ));
                                    }
                                },
                                Err(_) => {
                                    proof {
                                        assert(!is_recorded_vote(msgs[n as int]));
                                    }
                                },
                            }
                        },
                        MsgValue::Opaque => {
                            proof {
                                assert(!is_recorded_vote(msgs[n as int]));
                            }
                        },
                    }
                } else {
                    proof {
                        assert(!is_recorded_vote(msgs[n as int]));
                    }
                }
                proof {
                    let t1 = msgs.take(n as int + 1);
                    assert(t1.drop_last() =~= msgs.take(n as int));
                    assert(t1.last() == msgs[n as int]);
                    assert(t1.len() == n + 1);
                    assert(votes_applied(w0, t1, msg.tx.txhash@, self.validator_vote_prices@))
                        by {
                        assert(votes_applied(w0, t1.drop_last(), msg.tx.txhash@, wm));
                        assert(vote_step(
                            wm,
                            t1.last(),
                            msg.tx.txhash@,
                            self.validator_vote_prices@,
                        ));
                    }
                    assert(seens_applied(
                        s0,
                        t1,
                        height,
                        self.validator_vote_last_seen@,
                    )) by {
                        assert(seens_applied(s0, t1.drop_last(), height, sm));
                        assert(seen_step(sm, t1.last(), height, self.validator_vote_last_seen@));
                    }
                    assert(msgs.take(n as int + 1) == t1);
                }
                n = n + 1;
            }
            proof {
                assert(msgs.take(msgs.len() as int) =~= msgs);
            }
        } else {
            proof {
                assert(msgs.len() == 0);
            }
        }
        let ghost w1 = self.validator_vote_prices@;
        let ghost s1 = self.validator_vote_last_seen@;
        proof {
            assert(votes_applied(
                old(self).validator_vote_prices@,
                tx_msgs(msg.tx),
                msg.tx.txhash@,
                w1,
            ));
            assert(seens_applied(
                old(self).validator_vote_last_seen@,
                tx_msgs(msg.tx),
                msg.tx.height,
                s1,
            ));
        }
        if height as u128 >= self.last_avg_at_height as u128 + self.vote_period as u128 {
            let events = self.do_price_averages(height);
            let cutoff: u64 = if height >= LAGGY_WINDOW {
                height - LAGGY_WINDOW
            } else {
                0
            };
            assert(cutoff == purge_cutoff(height));
            let mut kept: Vec<SeenVote> = Vec::new();
            let mut t: usize = 0;
            let total = self.validator_vote_last_seen.len();
            while t < total
                invariant
                    t <= total,
                    total == s1.len(),
                    s1 == self.validator_vote_last_seen@,
                    unique_seen(s1),
                    kept@ == purge_upto(s1, t as int, cutoff),
                    forall|a: int|
                        0 <= a < kept@.len() ==> exists|u: int|
                            0 <= u < t && s1[u] == #[trigger] kept@[a],
                    unique_seen(kept@),
                decreases total - t,
            {
                if self.validator_vote_last_seen[t].height >= cutoff {
                    let ghost prev = kept@;
                    let entry = SeenVote {
                        operator: self.validator_vote_last_seen[t].operator.clone(),
                        height: self.validator_vote_last_seen[t].height,
                    };
                    proof {
                        assert(entry == s1[t as int]);
                    }
                    kept.push(entry);
                    proof {
                        assert(kept@ =~= purge_upto(s1, t as int + 1, cutoff));
                        assert forall|t1: int, t2: int|
                            0 <= t1 < t2 < kept@.len() implies (
                        #[trigger] kept@[t1]).operator@ != (#[trigger] kept@[t2]).operator@ by {
                            if t2 == kept@.len() - 1 {
                                let u = choose|u: int| 0 <= u < t && s1[u] == kept@[t1];
                                assert(s1[u].operator@ != s1[t as int].operator@);
                            }
                        }
                        assert forall|a: int|
                            0 <= a < kept@.len() implies exists|u: int|
                                0 <= u < t + 1 && s1[u] == #[trigger] kept@[a] by {
                            if a < prev.len() {
                                let u = choose|u: int| 0 <= u < t && s1[u] == prev[a];
                                assert(s1[u] == kept@[a]);
                            } else {
                                assert(s1[t as int] == kept@[a]);
                            }
                        }
                    }
                } else {
                    proof {
                        assert(kept@ =~= purge_upto(s1, t as int + 1, cutoff));
                    }
                }
                t = t + 1;
            }
            self.validator_vote_last_seen = kept;
            self.validator_vote_prices = Vec::new();
            self.last_avg_at_height = height;
            events
        } else {
            Vec::new()
        }
    }
}

proof fn lemma_window_upto_congruent(
    w1: Seq<VoteEntry>,
    w2: Seq<VoteEntry>,
    i: int,
    d: Seq<char>,
    eps: u64,
)
    requires
        0 <= i <= w1.len(),
        i <= w2.len(),
        forall|t: int| 0 <= t < i ==> w1[t] == w2[t],
    ensures
        window_sum_upto(w1, i, d, eps) == window_sum_upto(w2, i, d, eps),
        window_count_upto(w1, i, d, eps) == window_count_upto(w2, i, d, eps),
    decreases i,
{
    if i > 0 {
        lemma_window_upto_congruent(w1, w2, i - 1, d, eps);
    }
}

/// Removing one window entry removes exactly its contribution to the
/// per-denomination totals.
proof fn lemma_window_sum_remove(w: Seq<VoteEntry>, k: int, d: Seq<char>, eps: u64)
    requires
        0 <= k < w.len(),
    ensures
        window_sum(w, d, eps) == window_sum(w.remove(k), d, eps) + coins_sum_upto(
            w[k].coins@,
            w[k].coins@.len() as int,
            d,
            eps,
        ),
        window_count(w, d, eps) == window_count(w.remove(k), d, eps) + coins_count_upto(
            w[k].coins@,
            w[k].coins@.len() as int,
            d,
            eps,
        ),
    decreases w.len(),
{
    let n = w.len() as int;
    if k == n - 1 {
        assert(w.remove(k) =~= w.take(n - 1));
        lemma_window_upto_congruent(w.remove(k), w, n - 1, d, eps);
    } else {
        let wd = w.drop_last();
        assert(w.remove(k).drop_last() =~= wd.remove(k));
        lemma_window_sum_remove(wd, k, d, eps);
        lemma_window_upto_congruent(wd, w, n - 1, d, eps);
        assert(w.remove(k)[n - 2] == w[n - 1]);
        lemma_window_upto_congruent(w.remove(k).drop_last(), w.remove(k), n - 2, d, eps);
        assert(wd[k] == w[k]);
    }
}

/// The period-boundary totals for a denomination are the same for any two
/// windows holding the same votes, whatever order they arrived in: the
/// average is the arithmetic mean of the non-negligible submissions,
/// independent of submission order.
pub proof fn lemma_average_order_independent(
    w1: Seq<VoteEntry>,
    w2: Seq<VoteEntry>,
    denom: Seq<char>,
    eps: u64,
)
    requires
        w1.to_multiset() == w2.to_multiset(),
    ensures
        window_sum(w1, denom, eps) == window_sum(w2, denom, eps),
        window_count(w1, denom, eps) == window_count(w2, denom, eps),
        window_average(w1, denom, eps) == window_average(w2, denom, eps),
    decreases w1.len(),
{
    broadcast use vstd::seq_lib::group_to_multiset_ensures;
    broadcast use vstd::multiset::group_multiset_axioms;

    if w1.len() == 0 {
        assert(w2.to_multiset().len() == w2.len());
        assert(w2.len() == 0);
    } else {
        let e = w1.last();
        let w1d = w1.drop_last();
        assert(w1d.push(e) =~= w1);
        assert(w1.to_multiset() =~= w1d.to_multiset().insert(e));
        assert(w1.to_multiset().count(e) > 0) by {
            assert(w1d.to_multiset().insert(e).count(e) == w1d.to_multiset().count(e) + 1);
        }
        assert(w2.contains(e));
        let k = choose|k: int| 0 <= k < w2.len() && w2[k] == e;
        assert(w2.remove(k).to_multiset() =~= w2.to_multiset().remove(w2[k]));
        assert(w1d.to_multiset() =~= w1.to_multiset().remove(e)) by {
            assert(w1d.to_multiset().insert(e).remove(e) =~= w1d.to_multiset());
        }
        assert(w1d.to_multiset() == w2.remove(k).to_multiset());
        lemma_average_order_independent(w1d, w2.remove(k), denom, eps);
        lemma_window_sum_remove(w2, k, denom, eps);
        lemma_window_upto_congruent(w1d, w1, w1.len() as int - 1, denom, eps);
        assert(window_sum(w1, denom, eps) == window_sum(w1d, denom, eps) + coins_sum_upto(
            e.coins@,
            e.coins@.len() as int,
            denom,
            eps,
        ));
        assert(window_count(w1, denom, eps) == window_count(w1d, denom, eps) + coins_count_upto(
            e.coins@,
            e.coins@.len() as int,
            denom,
            eps,
        ));
    }
}

/// A negligible submission is reported as an abstention and contributes
/// nothing to its denomination\'s total: coin `j` of entry `i`, being below
/// the epsilon threshold, puts its abstain event among the period\'s events
/// and leaves the sums it would have entered unchanged.
pub proof fn lemma_negligible_abstains(
    height: u64,
    w: Seq<VoteEntry>,
    eps: u64,
    band: u64,
    i: int,
    j: int,
)
    requires
        0 <= i < w.len(),
        0 <= j < w[i].coins@.len(),
        w[i].coins@[j].amount < eps,
    ensures
        period_events(height, w, eps, band).contains(
            Event::PriceAbstain(
                MessagePriceAbstain {
                    height,
                    operator_address: w[i].operator,
                    denom: w[i].coins@[j].denom,
                    txhash: w[i].txhash,
                },
            ),
        ),
        coins_sum_upto(w[i].coins@, j + 1, w[i].coins@[j].denom@, eps) == coins_sum_upto(
            w[i].coins@,
            j,
            w[i].coins@[j].denom@,
            eps,
        ),
        coins_count_upto(w[i].coins@, j + 1, w[i].coins@[j].denom@, eps) == coins_count_upto(
            w[i].coins@,
            j,
            w[i].coins@[j].denom@,
            eps,
        ),
{
    let ev = Event::PriceAbstain(
        MessagePriceAbstain {
            height,
            operator_address: w[i].operator,
            denom: w[i].coins@[j].denom,
            txhash: w[i].txhash,
        },
    );
    lemma_entry_abstains_contains(height, w[i], j + 1, eps, ev);
    lemma_entry_abstains_grows(height, w[i], j + 1, w[i].coins@.len() as int, eps, ev);
    lemma_window_abstains_contains(height, w, i + 1, eps, ev);
    lemma_window_abstains_grows(height, w, i + 1, w.len() as int, eps, ev);
    assert(window_abstains(height, w, eps).contains(ev));
    let idx = choose|t: int|
        0 <= t < window_abstains(height, w, eps).len() && window_abstains(height, w, eps)[t] == ev;
    assert(period_events(height, w, eps, band)[idx] == ev);
}

proof fn lemma_entry_abstains_contains(height: u64, e: VoteEntry, j: int, eps: u64, ev: Event)
    requires
        0 < j <= e.coins@.len(),
        e.coins@[j - 1].amount < eps,
        ev == Event::PriceAbstain(
            MessagePriceAbstain {
                height,
                operator_address: e.operator,
                denom: e.coins@[j - 1].denom,
                txhash: e.txhash,
            },
        ),
    ensures
        entry_abstains_upto(height, e, j, eps).contains(ev),
{
    let prev = entry_abstains_upto(height, e, j - 1, eps);
    assert(entry_abstains_upto(height, e, j, eps)[prev.len() as int] == ev);
}

proof fn lemma_entry_abstains_grows(height: u64, e: VoteEntry, j1: int, j2: int, eps: u64, ev: Event)
    requires
        0 <= j1 <= j2,
        entry_abstains_upto(height, e, j1, eps).contains(ev),
    ensures
        entry_abstains_upto(height, e, j2, eps).contains(ev),
    decreases j2 - j1,
{
    if j1 < j2 {
        let a = entry_abstains_upto(height, e, j2 - 1, eps);
        assert(entry_abstains_upto(height, e, j1, eps).contains(ev));
        lemma_entry_abstains_grows(height, e, j1, j2 - 1, eps, ev);
        let t = choose|t: int| 0 <= t < a.len() && a[t] == ev;
        assert(entry_abstains_upto(height, e, j2, eps)[t] == ev);
    }
}

proof fn lemma_window_abstains_contains(height: u64, w: Seq<VoteEntry>, i: int, eps: u64, ev: Event)
    requires
        0 < i <= w.len(),
        entry_abstains_upto(height, w[i - 1], w[i - 1].coins@.len() as int, eps).contains(ev),
    ensures
        window_abstains_upto(height, w, i, eps).contains(ev),
{
    let prev = window_abstains_upto(height, w, i - 1, eps);
    let ea = entry_abstains_upto(height, w[i - 1], w[i - 1].coins@.len() as int, eps);
    let t = choose|t: int| 0 <= t < ea.len() && ea[t] == ev;
    assert(window_abstains_upto(height, w, i, eps)[prev.len() + t] == ev);
}

proof fn lemma_window_abstains_grows(
    height: u64,
    w: Seq<VoteEntry>,
    i1: int,
    i2: int,
    eps: u64,
    ev: Event,
)
    requires
        0 <= i1 <= i2,
        window_abstains_upto(height, w, i1, eps).contains(ev),
    ensures
        window_abstains_upto(height, w, i2, eps).contains(ev),
    decreases i2 - i1,
{
    if i1 < i2 {
        lemma_window_abstains_grows(height, w, i1, i2 - 1, eps, ev);
        let a = window_abstains_upto(height, w, i2 - 1, eps);
        let t = choose|t: int| 0 <= t < a.len() && a[t] == ev;
        assert(window_abstains_upto(height, w, i2, eps)[t] == ev);
    }
}

/// How many drift events in `evs` name this operator and denomination.
pub open spec fn drift_count_for(evs: Seq<Event>, op: Seq<char>, d: Seq<char>) -> int
    decreases evs.len(),
{
    if evs.len() == 0 {
        0
    } else {
        drift_count_for(evs.drop_last(), op, d) + (
        if evs.last() matches Event::PriceDrift(m) && m.operator_address@ == op && m.denom@ == d {
            1int
        } else {
            0int
        })
    }
}

proof fn lemma_drift_count_add(a: Seq<Event>, b: Seq<Event>, op: Seq<char>, d: Seq<char>)
    ensures
        drift_count_for(a + b, op, d) == drift_count_for(a, op, d) + drift_count_for(b, op, d),
    decreases b.len(),
{
    if b.len() == 0 {
        assert(a + b =~= a);
    } else {
        assert((a + b).drop_last() =~= a + b.drop_last());
        assert((a + b).last() == b.last());
        lemma_drift_count_add(a, b.drop_last(), op, d);
    }
}

/// Whether entry `e` owes one drift event for denomination `d`: its first
/// coin of that denomination is non-negligible and drifts.
pub open spec fn entry_drift_due(e: VoteEntry, d: Seq<char>, w: Seq<VoteEntry>, eps: u64, band: u64) -> bool {
    exists|j: int|
        0 <= j < e.coins@.len() && (#[trigger] e.coins@[j]).denom@ == d && !earlier_denom(
            e.coins@,
            j,
        ) && e.coins@[j].amount >= eps && is_drift(
            e.coins@[j].amount,
            window_sum(w, d, eps),
            window_count(w, d, eps),
            band,
        )
}

proof fn lemma_entry_drift_count(
    height: u64,
    e: VoteEntry,
    j: int,
    w: Seq<VoteEntry>,
    eps: u64,
    band: u64,
    d: Seq<char>,
)
    requires
        0 <= j <= e.coins@.len(),
    ensures
        drift_count_for(entry_drifts_upto(height, e, j, w, eps, band), e.operator@, d) == (
        if exists|t: int|
            0 <= t < j && (#[trigger] e.coins@[t]).denom@ == d && !earlier_denom(e.coins@, t)
                && e.coins@[t].amount >= eps && is_drift(
                e.coins@[t].amount,
                window_sum(w, d, eps),
                window_count(w, d, eps),
                band,
            ) {
            1int
        } else {
            0int
        }),
        forall|op2: Seq<char>|
            op2 != e.operator@ ==> drift_count_for(
                entry_drifts_upto(height, e, j, w, eps, band),
                op2,
                d,
            ) == 0,
    decreases j,
{
    if j == 0 {
    } else {
        lemma_entry_drift_count(height, e, j - 1, w, eps, band, d);
        let prev = entry_drifts_upto(height, e, j - 1, w, eps, band);
        let step = coin_drift_events(e, j - 1, height, w, eps, band);
        assert forall|op2: Seq<char>| true implies drift_count_for(step, op2, d) == (
        if op2 == e.operator@ && e.coins@[j - 1].denom@ == d && !earlier_denom(e.coins@, j - 1)
            && e.coins@[j - 1].amount >= eps && is_drift(
            e.coins@[j - 1].amount,
            window_sum(w, d, eps),
            window_count(w, d, eps),
            band,
        ) {
            1int
        } else {
            0int
        }) by {
            reveal_with_fuel(drift_count_for, 2);
            if step.len() > 0 {
                assert(step.drop_last() =~= Seq::<Event>::empty());
                assert(drift_count_for(step.drop_last(), op2, d) == 0);
            }
        }
        lemma_drift_count_add(prev, step, e.operator@, d);
        assert forall|op2: Seq<char>|
            op2 != e.operator@ implies drift_count_for(
            entry_drifts_upto(height, e, j, w, eps, band),
            op2,
            d,
        ) == 0 by {
            lemma_drift_count_add(prev, step, op2, d);
        }
        if exists|t: int|
            0 <= t < j - 1 && (#[trigger] e.coins@[t]).denom@ == d && !earlier_denom(e.coins@, t)
                && e.coins@[t].amount >= eps && is_drift(
                e.coins@[t].amount,
                window_sum(w, d, eps),
                window_count(w, d, eps),
                band,
            ) {
            let t = choose|t: int|
                0 <= t < j - 1 && (#[trigger] e.coins@[t]).denom@ == d && !earlier_denom(
                    e.coins@,
                    t,
                ) && e.coins@[t].amount >= eps && is_drift(
                    e.coins@[t].amount,
                    window_sum(w, d, eps),
                    window_count(w, d, eps),
                    band,
                );
            if e.coins@[j - 1].denom@ == d && !earlier_denom(e.coins@, j - 1) {
                assert(earlier_denom(e.coins@, j - 1)) by {
                    assert(e.coins@[t].denom@ == e.coins@[j - 1].denom@);
                }
            }
        }
    }
}

/// A validator whose submission drifts beyond the band is reported exactly
/// once per period and denomination: the period\'s events hold one drift
/// event for this operator and denomination when its entry owes one, and
/// none otherwise.
pub proof fn lemma_one_drift_per_denom(
    height: u64,
    w: Seq<VoteEntry>,
    eps: u64,
    band: u64,
    i: int,
    d: Seq<char>,
)
    requires
        unique_ops(w),
        0 <= i < w.len(),
    ensures
        drift_count_for(period_events(height, w, eps, band), w[i].operator@, d) == (
        if entry_drift_due(w[i], d, w, eps, band) {
            1int
        } else {
            0int
        }),
{
    let op = w[i].operator@;
    lemma_abstains_have_no_drifts(height, w, w.len() as int, eps, op, d);
    lemma_drift_count_add(
        window_abstains(height, w, eps),
        window_drifts(height, w, eps, band),
        op,
        d,
    );
    lemma_window_drift_count(height, w, w.len() as int, eps, band, i, d);
}

proof fn lemma_abstains_have_no_drifts(
    height: u64,
    w: Seq<VoteEntry>,
    i: int,
    eps: u64,
    op: Seq<char>,
    d: Seq<char>,
)
    requires
        0 <= i <= w.len(),
    ensures
        drift_count_for(window_abstains_upto(height, w, i, eps), op, d) == 0,
    decreases i,
{
    if i > 0 {
        lemma_abstains_have_no_drifts(height, w, i - 1, eps, op, d);
        lemma_entry_abstains_no_drifts(height, w[i - 1], w[i - 1].coins@.len() as int, eps, op, d);
        lemma_drift_count_add(
            window_abstains_upto(height, w, i - 1, eps),
            entry_abstains_upto(height, w[i - 1], w[i - 1].coins@.len() as int, eps),
            op,
            d,
        );
    }
}

proof fn lemma_entry_abstains_no_drifts(
    height: u64,
    e: VoteEntry,
    j: int,
    eps: u64,
    op: Seq<char>,
    d: Seq<char>,
)
    requires
        0 <= j <= e.coins@.len(),
    ensures
        drift_count_for(entry_abstains_upto(height, e, j, eps), op, d) == 0,
    decreases j,
{
    if j > 0 {
        lemma_entry_abstains_no_drifts(height, e, j - 1, eps, op, d);
        let step = (if e.coins@[j - 1].amount < eps {
            seq![
                Event::PriceAbstain(
                    MessagePriceAbstain {
                        height,
                        operator_address: e.operator,
                        denom: e.coins@[j - 1].denom,
                        txhash: e.txhash,
                    },
                ),
            ]
        } else {
            Seq::<Event>::empty()
        });
        assert(drift_count_for(step, op, d) == 0) by {
            reveal_with_fuel(drift_count_for, 2);
            if step.len() > 0 {
                assert(step.drop_last() =~= Seq::<Event>::empty());
                assert(drift_count_for(step.drop_last(), op, d) == 0);
            }
        }
        lemma_drift_count_add(entry_abstains_upto(height, e, j - 1, eps), step, op, d);
    }
}

proof fn lemma_window_drift_count(
    height: u64,
    w: Seq<VoteEntry>,
    i: int,
    eps: u64,
    band: u64,
    target: int,
    d: Seq<char>,
)
    requires
        unique_ops(w),
        0 <= target < w.len(),
        0 <= i <= w.len(),
    ensures
        drift_count_for(window_drifts_upto(height, w, i, eps, band), w[target].operator@, d) == (
        if target < i && entry_drift_due(w[target], d, w, eps, band) {
            1int
        } else {
            0int
        }),
    decreases i,
{
    let op = w[target].operator@;
    if i > 0 {
        lemma_window_drift_count(height, w, i - 1, eps, band, target, d);
        let e = w[i - 1];
        let cs_len = e.coins@.len() as int;
        lemma_entry_drift_count(height, e, cs_len, w, eps, band, d);
        lemma_drift_count_add(
            window_drifts_upto(height, w, i - 1, eps, band),
            entry_drifts_upto(height, e, cs_len, w, eps, band),
            op,
            d,
        );
        if i - 1 == target {
            assert(drift_count_for(entry_drifts_upto(height, e, cs_len, w, eps, band), op, d) == (
            if entry_drift_due(e, d, w, eps, band) {
                1int
            } else {
                0int
            }));
        } else {
            assert(w[i - 1].operator@ != op);
        }
    }
}

} // verus!
