//! Decision policies: the exploration rules over an embedded estimator.
//!
//! The ε-greedy policy explores with a configured probability (a uniform
//! lever) and otherwise exploits (a uniform choice among the levers whose
//! estimate attains the maximum). The upper-confidence-bound policy scores
//! each lever as `estimate + c * sqrt(log2(time) / count)` in fixed point
//! (an unvisited lever scores above every visited one) and chooses
//! uniformly among the top scorers; its per-lever visit counter and its
//! time counter advance on every update.

use vstd::prelude::*;
use crate::fx::FX_ONE;
use crate::fx::fx_wf;
use crate::fx::clamp_fx_spec;
use crate::fx::clamp_fx;
use crate::fx::fx_mul_spec;
use crate::fx::fx_mul;
use crate::fx::frac_to_fx_spec;
use crate::fx::frac_to_fx;
use crate::fx::sqrt_floor;
use crate::fx::lemma_sqrt_floor_unique;
use crate::fx::isqrt_u128;
use crate::fx::floor_log2;
use crate::fx::log2_spec;
use crate::fx::Frac;
use crate::helper::fx_fracs;
use crate::helper::fx_to_fracs;
use crate::helper::indices_max;
use crate::helper::is_max_pos;
use crate::rng::Randomness;
use crate::estimators::Estimator;
use crate::estimators::EstimatorInit;
use crate::estimators::create_estimator;
use crate::estimators::estimator_fresh;
use crate::estimators::LEVERS_CAP;
use crate::estimators::CNT_CAP;
use crate::ConfigError;

verus! {

/// How to build a policy. `expl_proba` is a fixed-point probability in
/// `[0, 1]`; `step` is the fixed-point confidence scale of the bound.
#[derive(Clone, Copy, Debug)]
pub enum PolicyInit {
    EGreedyInit { nb_levers: usize, expl_proba: u64, est: EstimatorInit },
    UCBInit { nb_levers: usize, step: i64, est: EstimatorInit },
}

/// Why an ε-greedy configuration must be refused, if it must be.
pub open spec fn egreedy_check_spec(nb_levers: usize, expl_proba: u64, est: EstimatorInit) -> Result<
    (),
    ConfigError,
> {
    if nb_levers < 1 {
        Err(ConfigError::ZeroLevers)
    } else if nb_levers > LEVERS_CAP {
        Err(ConfigError::TooManyLevers)
    } else if expl_proba > FX_ONE as u64 {
        Err(ConfigError::ProbOutOfRange)
    } else if est.check_spec() is Err {
        est.check_spec()
    } else if est.nb_levers_spec() != nb_levers {
        Err(ConfigError::MismatchedLevers)
    } else {
        Ok(())
    }
}

/// Why an upper-confidence-bound configuration must be refused.
pub open spec fn ucb_check_spec(nb_levers: usize, step: i64, est: EstimatorInit) -> Result<
    (),
    ConfigError,
> {
    if nb_levers < 1 {
        Err(ConfigError::ZeroLevers)
    } else if nb_levers > LEVERS_CAP {
        Err(ConfigError::TooManyLevers)
    } else if !fx_wf(step) {
        Err(ConfigError::ScaleOutOfRange)
    } else if est.check_spec() is Err {
        est.check_spec()
    } else if est.nb_levers_spec() != nb_levers {
        Err(ConfigError::MismatchedLevers)
    } else {
        Ok(())
    }
}

impl PolicyInit {
    pub open spec fn nb_levers_spec(self) -> usize {
        match self {
            PolicyInit::EGreedyInit { nb_levers, .. } => nb_levers,
            PolicyInit::UCBInit { nb_levers, .. } => nb_levers,
        }
    }

    pub open spec fn check_spec(self) -> Result<(), ConfigError> {
        match self {
            PolicyInit::EGreedyInit { nb_levers, expl_proba, est } => egreedy_check_spec(
                nb_levers,
                expl_proba,
                est,
            ),
            PolicyInit::UCBInit { nb_levers, step, est } => ucb_check_spec(nb_levers, step, est),
        }
    }

    pub open spec fn valid(self) -> bool {
        self.check_spec() is Ok
    }
}

/// The ε-greedy policy.
pub struct EGreedy {
    pub nb_levers: usize,
    pub expl_proba: u64,
    pub estimator: Estimator,
}

impl EGreedy {
    /// Consistent state: lever count in range, probability at most one,
    /// and an estimator of matching width.
    pub open spec fn wf(self) -> bool {
        &&& 1 <= self.nb_levers <= LEVERS_CAP
        &&& self.expl_proba <= FX_ONE as u64
        &&& self.estimator.wf()
        &&& self.estimator.nb_levers_spec() == self.nb_levers
    }

    /// Builds the policy, refusing an invalid configuration.
    pub fn new(nb_levers: usize, expl_proba: u64, est: &EstimatorInit) -> (r: Result<
        EGreedy,
        ConfigError,
    >)
        ensures
            match r {
                Ok(p) => egreedy_check_spec(nb_levers, expl_proba, *est) is Ok && p.wf()
                    && p.nb_levers == nb_levers && p.expl_proba == expl_proba
                    && estimator_fresh(p.estimator, *est),
                Err(e) => egreedy_check_spec(nb_levers, expl_proba, *est) == Err::<
                    (),
                    ConfigError,
                >(e),
            },
    {
        if nb_levers < 1 {
            return Err(ConfigError::ZeroLevers);
        }
        if nb_levers > LEVERS_CAP {
            return Err(ConfigError::TooManyLevers);
        }
        if expl_proba > (FX_ONE as u64) {
            return Err(ConfigError::ProbOutOfRange);
        }
        let estimator = match create_estimator(est) {
            Ok(e) => e,
            Err(e) => {
                return Err(e);
            },
        };
        if estimator.nb_levers() != nb_levers {
            return Err(ConfigError::MismatchedLevers);
        }
        Ok(EGreedy { nb_levers, expl_proba, estimator })
    }

    /// Chooses a lever: with probability `expl_proba` a uniform lever
    /// (explore), otherwise a uniform choice among the levers whose
    /// estimate attains the maximum (exploit). With `expl_proba` zero the
    /// choice always lies in the estimator's optimal set.
    pub fn decide(&self, rand: &mut Randomness) -> (lever: usize)
        requires
            self.wf(),
            old(rand).wf(),
        ensures
            lever < self.nb_levers,
            self.expl_proba == 0 ==> is_max_pos(self.estimator.estimates_spec(), lever as int),
            final(rand).wf(),
            final(rand).normals_spec() == old(rand).normals_spec(),
            final(rand).pos_spec() == old(rand).pos_spec(),
    {
        let coin: u64 = rand.next_below(FX_ONE as u64);
        if coin < self.expl_proba {
            let k: u64 = rand.next_below(self.nb_levers as u64);
            k as usize
        } else {
            let opts = self.estimator.optimal(self.nb_levers);
            proof {
                assert(self.estimator.estimates_spec().len() == self.nb_levers);
            }
            let idx: u64 = rand.next_below(opts.len() as u64);
            let lever: usize = opts[idx as usize];
            proof {
                assert(is_max_pos(self.estimator.estimates_spec(), lever as int));
            }
            lever
        }
    }

    /// Feeds the observed reward to the estimator.
    pub fn update(&mut self, lever: usize, reward: i64)
        requires
            old(self).wf(),
            lever < old(self).nb_levers,
        ensures
            final(self).wf(),
            final(self).nb_levers == old(self).nb_levers,
            final(self).expl_proba == old(self).expl_proba,
            Estimator::update_post(
                old(self).estimator,
                final(self).estimator,
                lever as int,
                reward,
            ),
    {
        self.estimator.update(lever, reward);
    }
}

/// The upper-confidence-bound policy.
pub struct UCB {
    pub nb_levers: usize,
    pub step: i64,
    pub time: u64,
    pub counts: Vec<u32>,
    pub estimator: Estimator,
}

/// The fixed-point score of one lever: its estimate plus the confidence
/// bonus `step * sqrt(log2(time) / count)`, every operation on the grid
/// with the documented truncation; a lever never visited scores above
/// every visited one, so each lever is tried once first.
pub open spec fn ucb_score_spec(step: i64, time: u64, count: u32, est: Frac) -> i64 {
    if count == 0 {
        i64::MAX
    } else {
        let ratio = ((log2_spec(time) as int) * 0x1_0000_0000_0000_0000) / (count as int);
        let root = sqrt_floor(ratio);
        clamp_fx_spec(frac_to_fx_spec(est) + fx_mul_spec(step, root as i64)) as i64
    }
}

impl UCB {
    /// Consistent state: lever count in range, scale in range, one visit
    /// counter per lever within the cap, and an estimator of matching
    /// width.
    pub open spec fn wf(self) -> bool {
        &&& 1 <= self.nb_levers <= LEVERS_CAP
        &&& fx_wf(self.step)
        &&& self.counts@.len() == self.nb_levers
        &&& forall|i: int| 0 <= i < self.counts@.len() ==> #[trigger] self.counts@[i] <= CNT_CAP
        &&& self.estimator.wf()
        &&& self.estimator.nb_levers_spec() == self.nb_levers
    }

    /// The whole score vector the policy ranks levers by.
    pub open spec fn scores_spec(self) -> Seq<i64> {
        Seq::new(
            self.nb_levers as nat,
            |i: int| ucb_score_spec(
                self.step,
                self.time,
                self.counts@[i],
                self.estimator.estimate_spec(i),
            ),
        )
    }

    /// Builds the policy, refusing an invalid configuration.
    pub fn new(nb_levers: usize, step: i64, est: &EstimatorInit) -> (r: Result<UCB, ConfigError>)
        ensures
            match r {
                Ok(p) => ucb_check_spec(nb_levers, step, *est) is Ok && p.wf() && p.nb_levers
                    == nb_levers && p.step == step && p.time == 0 && p.counts@ == Seq::new(
                    nb_levers as nat,
                    |i: int| 0u32,
                ) && estimator_fresh(p.estimator, *est),
                Err(e) => ucb_check_spec(nb_levers, step, *est) == Err::<(), ConfigError>(e),
            },
    {
        if nb_levers < 1 {
            return Err(ConfigError::ZeroLevers);
        }
        if nb_levers > LEVERS_CAP {
            return Err(ConfigError::TooManyLevers);
        }
        if !crate::fx::fx_wf_exec(step) {
            return Err(ConfigError::ScaleOutOfRange);
        }
        let estimator = match create_estimator(est) {
            Ok(e) => e,
            Err(e) => {
                return Err(e);
            },
        };
        if estimator.nb_levers() != nb_levers {
            return Err(ConfigError::MismatchedLevers);
        }
        let mut counts: Vec<u32> = Vec::new();
        let mut i: usize = 0;
        while i < nb_levers
            invariant
                i <= nb_levers,
                counts@ =~= Seq::new(i as nat, |k: int| 0u32),
            decreases nb_levers - i,
        {
            counts.push(0);
            i = i + 1;
        }
        proof {
            assert(counts@ =~= Seq::new(nb_levers as nat, |k: int| 0u32));
        }
        Ok(UCB { nb_levers, step, time: 0, counts, estimator })
    }

    /// Chooses a lever: a uniform choice among the levers whose score
    /// attains the maximum.
    pub fn decide(&self, rand: &mut Randomness) -> (lever: usize)
        requires
            self.wf(),
            old(rand).wf(),
        ensures
            lever < self.nb_levers,
            is_max_pos(fx_fracs(self.scores_spec()), lever as int),
            final(rand).wf(),
            final(rand).normals_spec() == old(rand).normals_spec(),
            final(rand).pos_spec() == old(rand).pos_spec(),
    {
        let ests = self.estimator.all(self.nb_levers);
        let l2: u64 = floor_log2(self.time);
        let mut scores: Vec<i64> = Vec::new();
        let mut i: usize = 0;
        while i < self.nb_levers
            invariant
                i <= self.nb_levers,
                self.wf(),
                l2 == log2_spec(self.time),
                l2 <= 63,
                ests@ == self.estimator.estimates_spec(),
                scores@ =~= self.scores_spec().take(i as int),
            decreases self.nb_levers - i,
        {
            let c: u32 = self.counts[i];
            if c == 0 {
                scores.push(i64::MAX);
            } else {
                let est_fx: i64 = frac_to_fx(&ests[i]);
                let ratio: u128 = ((l2 as u128) * 0x1_0000_0000_0000_0000u128) / (c as u128);
                proof {
                    assert((l2 as int) * 0x1_0000_0000_0000_0000 <= 63
                        * 0x1_0000_0000_0000_0000) by (nonlinear_arith)
                        requires
                            0 <= l2 <= 63;
                    assert(ratio == ((log2_spec(self.time) as int) * 0x1_0000_0000_0000_0000)
                        / (c as int));
                }
                let root: u128 = isqrt_u128(ratio);
                proof {
                    lemma_sqrt_floor_unique(ratio as int, root as int);
                    assert((root as int) * (root as int) <= 63 * 0x1_0000_0000_0000_0000);
                    assert(root <= 0x10_0000_0000) by (nonlinear_arith)
                        requires
                            (root as int) * (root as int) <= 63 * 0x1_0000_0000_0000_0000,
                            root >= 0;
                }
                let bonus: i64 = fx_mul(self.step, root as i64);
                let sc: i64 = clamp_fx(est_fx + bonus);
                scores.push(sc);
            }
            i = i + 1;
        }
        proof {
            assert(scores@ =~= self.scores_spec());
        }
        let fracs = fx_to_fracs(&scores);
        let opts = indices_max(&fracs);
        proof {
            assert(fx_fracs(self.scores_spec()).len() == self.nb_levers);
        }
        let idx: u64 = rand.next_below(opts.len() as u64);
        let lever: usize = opts[idx as usize];
        proof {
            assert(is_max_pos(fx_fracs(self.scores_spec()), lever as int));
        }
        lever
    }

    /// Feeds the observed reward to the estimator and advances the
    /// lever's visit counter and the time counter.
    pub fn update(&mut self, lever: usize, reward: i64)
        requires
            old(self).wf(),
            lever < old(self).nb_levers,
        ensures
            final(self).wf(),
            final(self).nb_levers == old(self).nb_levers,
            final(self).step == old(self).step,
            final(self).time == (if old(self).time < u64::MAX {
                old(self).time + 1
            } else {
                old(self).time as int
            }),
            final(self).counts@ == (if old(self).counts@[lever as int] < CNT_CAP {
                old(self).counts@.update(lever as int, (old(self).counts@[lever as int] + 1) as u32)
            } else {
                old(self).counts@
            }),
            Estimator::update_post(
                old(self).estimator,
                final(self).estimator,
                lever as int,
                reward,
            ),
    {
        self.estimator.update(lever, reward);
        let c: u32 = self.counts[lever];
        if c < CNT_CAP {
            self.counts.set(lever, c + 1);
        }
        if self.time < u64::MAX {
            self.time = self.time + 1;
        }
    }
}

/// A decision policy: one of the two strategies, dispatched exhaustively.
pub enum Policy {
    EGreedy(EGreedy),
    UCB(UCB),
}

impl Policy {
    pub open spec fn wf(self) -> bool {
        match self {
            Policy::EGreedy(p) => p.wf(),
            Policy::UCB(p) => p.wf(),
        }
    }

    pub open spec fn nb_levers_spec(self) -> usize {
        match self {
            Policy::EGreedy(p) => p.nb_levers,
            Policy::UCB(p) => p.nb_levers,
        }
    }

    /// What a choice promises: it is a lever; an ε-greedy policy that
    /// never explores picks only levers of maximal estimate; the
    /// upper-confidence-bound policy picks only levers of maximal score.
    pub open spec fn decide_post(self, lever: usize) -> bool {
        &&& (lever as int) < self.nb_levers_spec()
        &&& match self {
            Policy::EGreedy(p) => p.expl_proba == 0 ==> is_max_pos(
                p.estimator.estimates_spec(),
                lever as int,
            ),
            Policy::UCB(p) => is_max_pos(fx_fracs(p.scores_spec()), lever as int),
        }
    }

    /// Chooses the lever to pull this step.
    pub fn decide(&self, rand: &mut Randomness) -> (lever: usize)
        requires
            self.wf(),
            old(rand).wf(),
        ensures
            self.decide_post(lever),
            lever < self.nb_levers_spec(),
            final(rand).wf(),
            final(rand).normals_spec() == old(rand).normals_spec(),
            final(rand).pos_spec() == old(rand).pos_spec(),
    {
        match self {
            Policy::EGreedy(p) => p.decide(rand),
            Policy::UCB(p) => p.decide(rand),
        }
    }

    /// What one update leaves behind, per variant.
    pub open spec fn update_post(pre: Policy, post: Policy, lever: int, reward: i64) -> bool {
        match (pre, post) {
            (Policy::EGreedy(p), Policy::EGreedy(q)) => {
                &&& q.nb_levers == p.nb_levers
                &&& q.expl_proba == p.expl_proba
                &&& Estimator::update_post(p.estimator, q.estimator, lever, reward)
            },
            (Policy::UCB(p), Policy::UCB(q)) => {
                &&& q.nb_levers == p.nb_levers
                &&& q.step == p.step
                &&& q.time == (if p.time < u64::MAX {
                    p.time + 1
                } else {
                    p.time as int
                })
                &&& q.counts@ == (if p.counts@[lever] < CNT_CAP {
                    p.counts@.update(lever, (p.counts@[lever] + 1) as u32)
                } else {
                    p.counts@
                })
                &&& Estimator::update_post(p.estimator, q.estimator, lever, reward)
            },
            _ => false,
        }
    }

    /// Feeds back the observed reward.
    pub fn update(&mut self, lever: usize, reward: i64)
        requires
            old(self).wf(),
            lever < old(self).nb_levers_spec(),
        ensures
            final(self).wf(),
            final(self).nb_levers_spec() == old(self).nb_levers_spec(),
            Policy::update_post(*old(self), *final(self), lever as int, reward),
    {
        match self {
            Policy::EGreedy(p) => p.update(lever, reward),
            Policy::UCB(p) => p.update(lever, reward),
        }
    }
}

/// A policy exactly as its configuration builds it, before any update.
pub open spec fn policy_fresh(p: Policy, init: PolicyInit) -> bool {
    match (init, p) {
        (PolicyInit::EGreedyInit { nb_levers, expl_proba, est }, Policy::EGreedy(g)) => {
            &&& g.nb_levers == nb_levers
            &&& g.expl_proba == expl_proba
            &&& estimator_fresh(g.estimator, est)
        },
        (PolicyInit::UCBInit { nb_levers, step, est }, Policy::UCB(u)) => {
            &&& u.nb_levers == nb_levers
            &&& u.step == step
            &&& u.time == 0
            &&& u.counts@ == Seq::new(nb_levers as nat, |i: int| 0u32)
            &&& estimator_fresh(u.estimator, est)
        },
        _ => false,
    }
}

/// Builds the policy a configuration describes, refusing an invalid
/// configuration. Each variant maps to exactly one strategy.
pub fn create_policy(init: &PolicyInit) -> (r: Result<Policy, ConfigError>)
    ensures
        match r {
            Ok(p) => init.valid() && p.wf() && p.nb_levers_spec() == init.nb_levers_spec()
                && policy_fresh(p, *init),
            Err(e) => init.check_spec() == Err::<(), ConfigError>(e),
        },
{
    match init {
        PolicyInit::EGreedyInit { nb_levers, expl_proba, est } => match EGreedy::new(
            *nb_levers,
            *expl_proba,
            est,
        ) {
            Ok(p) => Ok(Policy::EGreedy(p)),
            Err(e) => Err(e),
        },
        PolicyInit::UCBInit { nb_levers, step, est } => match UCB::new(*nb_levers, *step, est) {
            Ok(p) => Ok(Policy::UCB(p)),
            Err(e) => Err(e),
        },
    }
}

} // verus!
