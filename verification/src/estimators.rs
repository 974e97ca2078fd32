//! Per-lever reward-value estimators.
//!
//! Two strategies share one interface: the sample average, which keeps an
//! exact running sum and count per lever so that its estimate is the exact
//! arithmetic mean of the rewards seen; and the constant-step estimator,
//! an exponential recency-weighted average whose update rounds the product
//! `step * (reward - estimate)` toward zero onto the fixed-point grid.
//!
//! Estimates are handed out as exact fractions, so the argmax over them is
//! decided without any rounding.

use vstd::prelude::*;
use crate::fx::FX_ONE;
use crate::fx::FX_LIM;
use crate::fx::fx_wf;
use crate::fx::clamp_fx_spec;
use crate::fx::clamp_fx;
use crate::fx::div_trunc;
use crate::fx::Frac;
use crate::helper::indices_max;
use crate::helper::max_indices_post;
use crate::helper::all_wf;
use crate::ConfigError;

verus! {

/// Most levers a configuration may ask for.
pub const LEVERS_CAP: usize = 0x1_0000;

/// Most rewards a single lever's visit counter can record; updates beyond
/// that leave the sample-average estimator unchanged.
pub const CNT_CAP: u32 = 0x10_0000;

/// How to build an estimator. Each variant maps to exactly one strategy,
/// so a mismatched construction cannot be written.
#[derive(Clone, Copy, Debug)]
pub enum EstimatorInit {
    SampleAverageInit { nb_levers: usize },
    ConstantStepInit { nb_levers: usize, step: u64 },
}

impl EstimatorInit {
    /// The lever count this configuration asks for.
    pub open spec fn nb_levers_spec(self) -> usize {
        match self {
            EstimatorInit::SampleAverageInit { nb_levers } => nb_levers,
            EstimatorInit::ConstantStepInit { nb_levers, .. } => nb_levers,
        }
    }

    /// Why this configuration must be refused, if it must be. The step of
    /// a constant-step estimator is a fixed-point fraction in `(0, 1]`.
    pub open spec fn check_spec(self) -> Result<(), ConfigError> {
        if self.nb_levers_spec() < 1 {
            Err(ConfigError::ZeroLevers)
        } else if self.nb_levers_spec() > LEVERS_CAP {
            Err(ConfigError::TooManyLevers)
        } else {
            match self {
                EstimatorInit::SampleAverageInit { .. } => Ok(()),
                EstimatorInit::ConstantStepInit { step, .. } => if step < 1 || step > (
                FX_ONE as u64) {
                    Err(ConfigError::StepOutOfRange)
                } else {
                    Ok(())
                },
            }
        }
    }

    pub open spec fn valid(self) -> bool {
        self.check_spec() is Ok
    }

    /// Checks the configuration, reporting the first fault found.
    pub fn check(&self) -> (r: Result<(), ConfigError>)
        ensures
            r == self.check_spec(),
    {
        let nb: usize = match self {
            EstimatorInit::SampleAverageInit { nb_levers } => *nb_levers,
            EstimatorInit::ConstantStepInit { nb_levers, .. } => *nb_levers,
        };
        if nb < 1 {
            Err(ConfigError::ZeroLevers)
        } else if nb > LEVERS_CAP {
            Err(ConfigError::TooManyLevers)
        } else {
            match self {
                EstimatorInit::SampleAverageInit { .. } => Ok(()),
                EstimatorInit::ConstantStepInit { step, .. } => if *step < 1 || *step > (FX_ONE
                    as u64) {
                    Err(ConfigError::StepOutOfRange)
                } else {
                    Ok(())
                },
            }
        }
    }
}

/// The sample-average estimator: per lever, the exact sum of the rewards
/// seen and how many there were. Its estimate is the exact mean.
pub struct SampleAverage {
    pub counts: Vec<u32>,
    pub sums: Vec<i64>,
}

/// The sample-average state is consistent: equal lengths, counters within
/// the cap, and each sum bounded by its count times the scalar range, so
/// no sum can overflow.
pub open spec fn sa_wf(counts: Seq<u32>, sums: Seq<i64>) -> bool {
    &&& counts.len() == sums.len()
    &&& forall|i: int| 0 <= i < counts.len() ==> #[trigger] counts[i] <= CNT_CAP
    &&& forall|i: int|
        0 <= i < counts.len() ==> -(counts[i] * FX_LIM) <= #[trigger] sums[i] <= counts[i] * FX_LIM
}

/// The exact mean of the rewards a lever has seen (0 before any reward).
pub open spec fn sa_estimate_spec(counts: Seq<u32>, sums: Seq<i64>, lever: int) -> Frac {
    if counts[lever] == 0 {
        Frac { num: 0, den: FX_ONE }
    } else {
        Frac { num: sums[lever], den: (counts[lever] * FX_ONE) as i64 }
    }
}

/// One sample-average update: the clamped reward joins the lever's sum and
/// count; a lever at the counter cap is left unchanged.
pub open spec fn sa_update_view(counts: Seq<u32>, sums: Seq<i64>, lever: int, reward: i64) -> (
    Seq<u32>,
    Seq<i64>,
) {
    if counts[lever] < CNT_CAP {
        (
            counts.update(lever, (counts[lever] + 1) as u32),
            sums.update(lever, (sums[lever] + clamp_fx_spec(reward as int)) as i64),
        )
    } else {
        (counts, sums)
    }
}

impl SampleAverage {
    pub open spec fn wf(self) -> bool {
        sa_wf(self.counts@, self.sums@)
    }

    pub open spec fn nb_levers_spec(self) -> usize {
        self.counts.len()
    }

    /// A fresh estimator: every lever at estimate 0, nothing seen yet.
    pub fn new(nb_levers: usize) -> (r: Self)
        ensures
            r.counts@ == Seq::new(nb_levers as nat, |i: int| 0u32),
            r.sums@ == Seq::new(nb_levers as nat, |i: int| 0i64),
            r.wf(),
    {
        let mut counts: Vec<u32> = Vec::new();
        let mut sums: Vec<i64> = Vec::new();
        let mut i: usize = 0;
        while i < nb_levers
            invariant
                i <= nb_levers,
                counts@ =~= Seq::new(i as nat, |k: int| 0u32),
                sums@ =~= Seq::new(i as nat, |k: int| 0i64),
            decreases nb_levers - i,
        {
            counts.push(0);
            sums.push(0);
            i = i + 1;
        }
        proof {
            assert(counts@ =~= Seq::new(nb_levers as nat, |i: int| 0u32));
            assert(sums@ =~= Seq::new(nb_levers as nat, |i: int| 0i64));
        }
        SampleAverage { counts, sums }
    }

    /// The exact mean of what the lever has seen.
    pub fn estimate(&self, lever: usize) -> (r: Frac)
        requires
            self.wf(),
            lever < self.nb_levers_spec(),
        ensures
            r == sa_estimate_spec(self.counts@, self.sums@, lever as int),
            r.wf(),
    {
        let c: u32 = self.counts[lever];
        if c == 0 {
            Frac { num: 0, den: FX_ONE }
        } else {
            Frac { num: self.sums[lever], den: (c as i64) * FX_ONE }
        }
    }

    /// Feeds one observed reward to one lever.
    pub fn update(&mut self, lever: usize, reward: i64)
        requires
            old(self).wf(),
            lever < old(self).nb_levers_spec(),
        ensures
            (final(self).counts@, final(self).sums@) == sa_update_view(
                old(self).counts@,
                old(self).sums@,
                lever as int,
                reward,
            ),
            final(self).wf(),
    {
        let c: u32 = self.counts[lever];
        if c < CNT_CAP {
            let r2: i64 = clamp_fx(reward);
            let s: i64 = self.sums[lever];
            self.counts.set(lever, c + 1);
            self.sums.set(lever, s + r2);
        }
    }
}

/// The constant-step estimator: per lever, a fixed-point estimate moved a
/// fixed fraction of the way toward each new reward.
pub struct ConstantStep {
    pub step: u64,
    pub estimates: Vec<i64>,
}

/// The constant-step state is consistent: the step is a fraction in
/// `(0, 1]` and every estimate is in the scalar range.
pub open spec fn cs_wf(step: u64, estimates: Seq<i64>) -> bool {
    &&& 1 <= step <= FX_ONE as u64
    &&& forall|i: int| 0 <= i < estimates.len() ==> fx_wf(#[trigger] estimates[i])
}

/// One constant-step move: `e + step * (reward - e)`, with the product
/// truncated toward zero onto the fixed-point grid, then clamped.
pub open spec fn cs_next_spec(step: u64, e: i64, reward: i64) -> int {
    clamp_fx_spec(e + div_trunc(step * (clamp_fx_spec(reward as int) - e), FX_ONE as int))
}

/// One constant-step update of the whole estimate vector.
pub open spec fn cs_update_view(step: u64, estimates: Seq<i64>, lever: int, reward: i64) -> Seq<
    i64,
> {
    estimates.update(lever, cs_next_spec(step, estimates[lever], reward) as i64)
}

impl ConstantStep {
    pub open spec fn wf(self) -> bool {
        cs_wf(self.step, self.estimates@)
    }

    pub open spec fn nb_levers_spec(self) -> usize {
        self.estimates.len()
    }

    /// A fresh estimator: every lever at estimate 0.
    pub fn new(nb_levers: usize, step: u64) -> (r: Self)
        requires
            1 <= step <= FX_ONE as u64,
        ensures
            r.step == step,
            r.estimates@ == Seq::new(nb_levers as nat, |i: int| 0i64),
            r.wf(),
    {
        let mut estimates: Vec<i64> = Vec::new();
        let mut i: usize = 0;
        while i < nb_levers
            invariant
                i <= nb_levers,
                estimates@ =~= Seq::new(i as nat, |k: int| 0i64),
            decreases nb_levers - i,
        {
            estimates.push(0);
            i = i + 1;
        }
        proof {
            assert(estimates@ =~= Seq::new(nb_levers as nat, |i: int| 0i64));
        }
        ConstantStep { step, estimates }
    }

    /// The current estimate, as an exact fraction on the fixed-point grid.
    pub fn estimate(&self, lever: usize) -> (r: Frac)
        requires
            self.wf(),
            lever < self.nb_levers_spec(),
        ensures
            r == Frac::from_fx_spec(self.estimates@[lever as int]),
            r.wf(),
    {
        Frac { num: self.estimates[lever], den: FX_ONE }
    }

    /// Moves the lever's estimate a fixed fraction toward the reward.
    pub fn update(&mut self, lever: usize, reward: i64)
        requires
            old(self).wf(),
            lever < old(self).nb_levers_spec(),
        ensures
            final(self).step == old(self).step,
            final(self).estimates@ == cs_update_view(
                old(self).step,
                old(self).estimates@,
                lever as int,
                reward,
            ),
            final(self).wf(),
    {
        let e: i64 = self.estimates[lever];
        let r2: i64 = clamp_fx(reward);
        let d: i64 = r2 - e;
        let md: u64 = if d >= 0 {
            d as u64
        } else {
            (-(d as i128)) as u64
        };
        proof {
            assert(md <= 0x800_0000_0000u64 * 2);
            assert((self.step as int) * (md as int) <= 0x1_0000_0000 * (0x800_0000_0000 * 2)
                && (self.step as int) * (md as int) >= 0 && (md >= 1 ==> (self.step as int) * (
            md as int) >= 1)) by (nonlinear_arith)
                requires
                    1 <= self.step <= 0x1_0000_0000,
                    0 <= md <= 0x800_0000_0000 * 2;
        }
        let q: u64 = (((self.step as u128) * (md as u128)) / (FX_ONE as u128)) as u64;
        proof {
            let p = (self.step as int) * (md as int);
            assert((self.step as int) * ((r2 - e) as int) == (if d >= 0 {
                p
            } else {
                -p
            })) by (nonlinear_arith)
                requires
                    d == r2 - e,
                    md == (if d >= 0 { d as int } else { -(d as int) }),
                    p == (self.step as int) * (md as int);
            assert(div_trunc((self.step as int) * ((r2 - e) as int), FX_ONE as int) == (if d >= 0 {
                q as int
            } else {
                -(q as int)
            }));
        }
        let e2: i64 = if d >= 0 {
            e + (q as i64)
        } else {
            e - (q as i64)
        };
        let e3: i64 = clamp_fx(e2);
        self.estimates.set(lever, e3);
        proof {
            assert(final(self).estimates@ =~= cs_update_view(
                old(self).step,
                old(self).estimates@,
                lever as int,
                reward,
            ));
        }
    }
}

/// A value estimator: one of the two strategies, dispatched exhaustively.
pub enum Estimator {
    SampleAverage(SampleAverage),
    ConstantStep(ConstantStep),
}

impl Estimator {
    pub open spec fn wf(self) -> bool {
        match self {
            Estimator::SampleAverage(sa) => sa.wf(),
            Estimator::ConstantStep(cs) => cs.wf(),
        }
    }

    pub open spec fn nb_levers_spec(self) -> usize {
        match self {
            Estimator::SampleAverage(sa) => sa.nb_levers_spec(),
            Estimator::ConstantStep(cs) => cs.nb_levers_spec(),
        }
    }

    /// The current estimate of one lever, as an exact fraction.
    pub open spec fn estimate_spec(self, lever: int) -> Frac {
        match self {
            Estimator::SampleAverage(sa) => sa_estimate_spec(sa.counts@, sa.sums@, lever),
            Estimator::ConstantStep(cs) => Frac::from_fx_spec(cs.estimates@[lever]),
        }
    }

    /// The whole estimate vector.
    pub open spec fn estimates_spec(self) -> Seq<Frac> {
        Seq::new(self.nb_levers_spec() as nat, |i: int| self.estimate_spec(i))
    }

    /// What one update leaves behind.
    pub open spec fn update_post(pre: Estimator, post: Estimator, lever: int, reward: i64) -> bool {
        match (pre, post) {
            (Estimator::SampleAverage(p), Estimator::SampleAverage(q)) => (q.counts@, q.sums@)
                == sa_update_view(p.counts@, p.sums@, lever, reward),
            (Estimator::ConstantStep(p), Estimator::ConstantStep(q)) => q.step == p.step
                && q.estimates@ == cs_update_view(p.step, p.estimates@, lever, reward),
            _ => false,
        }
    }

    /// The number of levers this estimator tracks.
    pub fn nb_levers(&self) -> (n: usize)
        ensures
            n == self.nb_levers_spec(),
    {
        match self {
            Estimator::SampleAverage(sa) => sa.counts.len(),
            Estimator::ConstantStep(cs) => cs.estimates.len(),
        }
    }

    /// Gives the current estimate of the required lever.
    pub fn estimate(&self, lever: usize) -> (r: Frac)
        requires
            self.wf(),
            lever < self.nb_levers_spec(),
        ensures
            r == self.estimate_spec(lever as int),
            r.wf(),
    {
        match self {
            Estimator::SampleAverage(sa) => sa.estimate(lever),
            Estimator::ConstantStep(cs) => cs.estimate(lever),
        }
    }

    /// Updates the estimate of the lever according to the reward.
    pub fn update(&mut self, lever: usize, reward: i64)
        requires
            old(self).wf(),
            lever < old(self).nb_levers_spec(),
        ensures
            Estimator::update_post(*old(self), *final(self), lever as int, reward),
            final(self).wf(),
            final(self).nb_levers_spec() == old(self).nb_levers_spec(),
    {
        match self {
            Estimator::SampleAverage(sa) => sa.update(lever, reward),
            Estimator::ConstantStep(cs) => cs.update(lever, reward),
        }
    }

    /// Gives all estimates.
    pub fn all(&self, nb_levers: usize) -> (r: Vec<Frac>)
        requires
            self.wf(),
            nb_levers == self.nb_levers_spec(),
        ensures
            r@ == self.estimates_spec(),
            all_wf(r@),
    {
        let mut r: Vec<Frac> = Vec::new();
        let mut i: usize = 0;
        while i < nb_levers
            invariant
                i <= nb_levers,
                self.wf(),
                nb_levers == self.nb_levers_spec(),
                r@ =~= self.estimates_spec().take(i as int),
            decreases nb_levers - i,
        {
            r.push(self.estimate(i));
            i = i + 1;
        }
        proof {
            assert(r@ =~= self.estimates_spec());
            assert forall|i: int| 0 <= i < r@.len() implies (#[trigger] r@[i]).wf() by {
                assert(r@[i] == self.estimate_spec(i));
            }
        }
        r
    }

    /// Finds the list of levers with the best estimate: every index whose
    /// estimate equals the maximum, in increasing order.
    pub fn optimal(&self, nb_levers: usize) -> (r: Vec<usize>)
        requires
            self.wf(),
            nb_levers == self.nb_levers_spec(),
        ensures
            max_indices_post(self.estimates_spec(), r@),
    {
        let vals = self.all(nb_levers);
        indices_max(&vals)
    }
}

/// An estimator exactly as its configuration builds it, before any
/// update: every estimate 0, nothing seen.
pub open spec fn estimator_fresh(e: Estimator, init: EstimatorInit) -> bool {
    match (init, e) {
        (EstimatorInit::SampleAverageInit { nb_levers }, Estimator::SampleAverage(sa)) => {
            &&& sa.counts@ == Seq::new(nb_levers as nat, |i: int| 0u32)
            &&& sa.sums@ == Seq::new(nb_levers as nat, |i: int| 0i64)
        },
        (EstimatorInit::ConstantStepInit { nb_levers, step }, Estimator::ConstantStep(cs)) => {
            &&& cs.step == step
            &&& cs.estimates@ == Seq::new(nb_levers as nat, |i: int| 0i64)
        },
        _ => false,
    }
}

/// Builds the estimator a configuration describes, refusing an invalid
/// configuration. Each variant maps to exactly one strategy.
pub fn create_estimator(init: &EstimatorInit) -> (r: Result<Estimator, ConfigError>)
    ensures
        match r {
            Ok(est) => init.valid() && est.wf() && est.nb_levers_spec()
                == init.nb_levers_spec() && estimator_fresh(est, *init),
            Err(e) => init.check_spec() == Err::<(), ConfigError>(e),
        },
{
    match init.check() {
        Ok(_) => match init {
            EstimatorInit::SampleAverageInit { nb_levers } => Ok(
                Estimator::SampleAverage(SampleAverage::new(*nb_levers)),
            ),
            EstimatorInit::ConstantStepInit { nb_levers, step } => Ok(
                Estimator::ConstantStep(ConstantStep::new(*nb_levers, *step)),
            ),
        },
        Err(e) => Err(e),
    }
}

/// The sum of a reward sequence.
pub open spec fn sum_i64(rs: Seq<i64>) -> int {
    rs.fold_left(0int, |acc: int, r: i64| acc + r)
}

/// A sample-average state after feeding a lever the rewards of `rs`,
/// one at a time, oldest first.
pub open spec fn sa_feed_view(counts: Seq<u32>, sums: Seq<i64>, lever: int, rs: Seq<i64>) -> (
    Seq<u32>,
    Seq<i64>,
)
    decreases rs.len(),
{
    if rs.len() == 0 {
        (counts, sums)
    } else {
        let prev = sa_feed_view(counts, sums, lever, rs.drop_last());
        sa_update_view(prev.0, prev.1, lever, rs.last())
    }
}

/// The sum of rewards within the scalar range is bounded by the range
/// times the count.
proof fn lemma_sum_bound(rs: Seq<i64>)
    requires
        forall|i: int| 0 <= i < rs.len() ==> fx_wf(#[trigger] rs[i]),
    ensures
        -(rs.len() * FX_LIM) <= sum_i64(rs) <= rs.len() * FX_LIM,
    decreases rs.len(),
{
    if rs.len() > 0 {
        lemma_sum_bound(rs.drop_last());
    }
}

/// Feeding `rs` to one lever adds `rs.len()` to its counter and the sum of
/// `rs` to its running sum, and touches nothing else.
proof fn lemma_sa_feed_state(counts: Seq<u32>, sums: Seq<i64>, lever: int, rs: Seq<i64>)
    requires
        sa_wf(counts, sums),
        0 <= lever < counts.len(),
        counts[lever] + rs.len() <= CNT_CAP,
        forall|i: int| 0 <= i < rs.len() ==> fx_wf(#[trigger] rs[i]),
    ensures
        sa_feed_view(counts, sums, lever, rs).0 =~= counts.update(
            lever,
            (counts[lever] + rs.len()) as u32,
        ),
        sa_feed_view(counts, sums, lever, rs).1 =~= sums.update(
            lever,
            (sums[lever] + sum_i64(rs)) as i64,
        ),
    decreases rs.len(),
{
    if rs.len() == 0 {
        assert(counts.update(lever, (counts[lever] + 0) as u32) =~= counts);
        assert(sums.update(lever, (sums[lever] + sum_i64(rs)) as i64) =~= sums);
    } else {
        let dl = rs.drop_last();
        lemma_sa_feed_state(counts, sums, lever, dl);
        lemma_sum_bound(dl);
        lemma_sum_bound(rs);
        let prev = sa_feed_view(counts, sums, lever, dl);
        assert(prev.0[lever] == counts[lever] + dl.len());
        assert(fx_wf(rs.last()));
        assert(clamp_fx_spec(rs.last() as int) == rs.last() as int);
        assert(sum_i64(rs) == sum_i64(dl) + rs.last());
    }
}

/// Law: a sample-average estimator fed any sequence of representable
/// rewards on one lever holds, on that lever, exactly the arithmetic mean
/// of the sequence, as the exact fraction `sum / count`; and feeding the
/// same rewards in any other order leaves the identical state.
pub proof fn lemma_sample_average_is_mean(nb: usize, lever: usize, rs1: Seq<i64>, rs2: Seq<i64>)
    requires
        (lever as int) < nb,
        rs1.len() <= CNT_CAP,
        forall|i: int| 0 <= i < rs1.len() ==> fx_wf(#[trigger] rs1[i]),
        rs2.to_multiset() == rs1.to_multiset(),
    ensures
        ({
            let fresh_counts = Seq::new(nb as nat, |i: int| 0u32);
            let fresh_sums = Seq::new(nb as nat, |i: int| 0i64);
            let fed = sa_feed_view(fresh_counts, fresh_sums, lever as int, rs1);
            &&& rs1.len() >= 1 ==> sa_estimate_spec(fed.0, fed.1, lever as int) == (Frac {
                num: sum_i64(rs1) as i64,
                den: (rs1.len() * FX_ONE) as i64,
            })
            &&& rs1.len() == 0 ==> sa_estimate_spec(fed.0, fed.1, lever as int) == (Frac {
                num: 0,
                den: FX_ONE,
            })
            &&& sa_feed_view(fresh_counts, fresh_sums, lever as int, rs2) == fed
        }),
{
    broadcast use vstd::seq_lib::group_to_multiset_ensures;

    let fresh_counts = Seq::new(nb as nat, |i: int| 0u32);
    let fresh_sums = Seq::new(nb as nat, |i: int| 0i64);
    assert(sa_wf(fresh_counts, fresh_sums));
    assert(rs2.len() == rs1.len()) by {
        assert(rs1.to_multiset().len() == rs1.len());
        assert(rs2.to_multiset().len() == rs2.len());
    }
    assert forall|i: int| 0 <= i < rs2.len() implies fx_wf(#[trigger] rs2[i]) by {
        assert(rs2.to_multiset().count(rs2[i]) > 0);
        assert(rs1.to_multiset().count(rs2[i]) > 0);
        assert(rs1.contains(rs2[i]));
        let j = choose|j: int| 0 <= j < rs1.len() && rs1[j] == rs2[i];
        assert(fx_wf(rs1[j]));
    }
    lemma_sa_feed_state(fresh_counts, fresh_sums, lever as int, rs1);
    lemma_sa_feed_state(fresh_counts, fresh_sums, lever as int, rs2);
    let f = |acc: int, r: i64| acc + r;
    assert(vstd::seq_lib::commutative_foldl(f)) by {
        assert forall|x: i64, y: i64, v: int| #[trigger] f(f(v, x), y) == f(f(v, y), x) by {}
    }
    vstd::seq_lib::lemma_fold_left_permutation(rs1, rs2, f, 0int);
    assert(sum_i64(rs2) == sum_i64(rs1));
    assert(sa_feed_view(fresh_counts, fresh_sums, lever as int, rs2) == sa_feed_view(
        fresh_counts,
        fresh_sums,
        lever as int,
        rs1,
    ));
}

/// An integer power.
pub open spec fn pow_int(b: int, k: nat) -> int
    decreases k,
{
    if k == 0 {
        1int
    } else {
        b * pow_int(b, (k - 1) as nat)
    }
}

/// The ideal constant-step recurrence `e' = e + a * (r - e)` with
/// `a = step / FX_ONE`, started at 0 and carried out in exact real
/// arithmetic; written as the integer numerator over the common
/// denominator `FX_ONE ^ rs.len()`. The executable update follows this
/// recurrence, rounding each move onto the fixed-point grid.
pub open spec fn cs_ideal_num(step: int, rs: Seq<i64>) -> int
    decreases rs.len(),
{
    if rs.len() == 0 {
        0int
    } else {
        (FX_ONE - step) * cs_ideal_num(step, rs.drop_last()) + step * pow_int(
            FX_ONE as int,
            (rs.len() - 1) as nat,
        ) * (rs.last() as int)
    }
}

/// The closed-form recency weighting `Σ a (1-a)^(n-1-i) r_i`, summed from
/// position `i` on, written over the common denominator `FX_ONE ^ n`.
pub open spec fn cs_closed_from(step: int, rs: Seq<i64>, i: nat) -> int
    decreases rs.len() - i,
{
    if i >= rs.len() {
        0int
    } else {
        step * pow_int(FX_ONE - step, (rs.len() - 1 - i) as nat) * pow_int(FX_ONE as int, i)
            * (rs[i as int] as int) + cs_closed_from(step, rs, i + 1)
    }
}

/// Dropping the last reward scales every earlier closed-form term by one
/// factor of `FX_ONE - step`.
proof fn lemma_cs_closed_drop(step: int, rs: Seq<i64>, i: nat)
    requires
        rs.len() >= 1,
        i <= rs.len() - 1,
    ensures
        cs_closed_from(step, rs, i) == (FX_ONE - step) * cs_closed_from(step, rs.drop_last(), i)
            + step * pow_int(FX_ONE as int, (rs.len() - 1) as nat) * (rs.last() as int),
    decreases rs.len() - i,
{
    let n = rs.len() as int;
    let dl = rs.drop_last();
    if i == n - 1 {
        assert(cs_closed_from(step, rs, i) == step * pow_int(FX_ONE - step, 0) * pow_int(
            FX_ONE as int,
            i,
        ) * (rs[i as int] as int) + cs_closed_from(step, rs, i + 1));
        assert(cs_closed_from(step, rs, i + 1) == 0);
        assert(cs_closed_from(step, dl, i) == 0);
        assert(pow_int(FX_ONE - step, 0) == 1);
        assert(step * 1 * pow_int(FX_ONE as int, i) * (rs[i as int] as int) == step
            * pow_int(FX_ONE as int, (n - 1) as nat) * (rs.last() as int)) by {
            assert(rs[i as int] == rs.last());
            assert(step * 1 == step);
        }
        assert((FX_ONE - step) * 0 == 0) by (nonlinear_arith);
    } else {
        lemma_cs_closed_drop(step, rs, i + 1);
        let wdl = pow_int(FX_ONE - step, (n - 2 - i) as nat);
        assert(pow_int(FX_ONE - step, (n - 1 - i) as nat) == (FX_ONE - step) * wdl);
        let fi = pow_int(FX_ONE as int, i);
        let ri = rs[i as int] as int;
        assert(dl[i as int] == rs[i as int]);
        assert(step * ((FX_ONE - step) * wdl) * fi * ri == (FX_ONE - step) * (step * wdl * fi
            * ri)) by (nonlinear_arith);
        assert((FX_ONE - step) * (step * wdl * fi * ri) + (FX_ONE - step) * cs_closed_from(
            step,
            dl,
            i + 1,
        ) == (FX_ONE - step) * (step * wdl * fi * ri + cs_closed_from(step, dl, i + 1)))
            by (nonlinear_arith);
    }
}

/// Law: the ideal constant-step recurrence equals the closed-form recency
/// weighting: after rewards `r_1 .. r_n` the ideal estimate is
/// `(1-a)^n * 0 + Σ a (1-a)^(n-i) r_i`, both sides written over the
/// common denominator `FX_ONE ^ n`.
pub proof fn lemma_constant_step_closed_form(step: int, rs: Seq<i64>)
    ensures
        cs_ideal_num(step, rs) == cs_closed_from(step, rs, 0),
    decreases rs.len(),
{
    if rs.len() > 0 {
        lemma_constant_step_closed_form(step, rs.drop_last());
        lemma_cs_closed_drop(step, rs, 0);
    }
}

} // verus!
