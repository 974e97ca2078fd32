//! A single trial: one policy against one bandit for a fixed number of
//! steps.
//!
//! Each step decides a lever, records whether it was optimal at that
//! moment, draws the reward, and feeds it back to the policy. A trial is
//! consumed by running it: its policy and bandit state advance
//! irreversibly, and the full ordered step record comes back.

use vstd::prelude::*;
use crate::fx::fx_wf;
use crate::helper::fx_fracs;
use crate::helper::is_max_pos;
use crate::rng::Randomness;
use crate::rng::stream_adv;
use crate::policies::Policy;
use crate::problems::Bandit;

verus! {

/// What one step of a trial produced: the lever pulled, whether it was
/// optimal at the time, and the reward drawn.
#[derive(Clone, Copy, Debug, PartialEq, Eq, Structural)]
pub struct Step {
    pub lever: usize,
    pub optimal: bool,
    pub reward: i64,
}

/// A step record consistent with a lever count.
pub open spec fn step_wf(s: Step, nb_levers: usize) -> bool {
    &&& (s.lever as int) < nb_levers
    &&& fx_wf(s.reward)
}

/// How one step record connects the states before it to the states after
/// it: the lever is one the policy could choose (so an epsilon-greedy
/// policy that never explores chose a lever of maximal estimate, and the
/// bound policy a lever of maximal score); the optimal flag says whether
/// that lever's mean attained the maximum at that moment; the reward and
/// the bandit's move come from the deviate stream at the given position;
/// and the policy absorbed exactly that reward.
pub open spec fn step_connects(
    pol: Policy,
    ban: Bandit,
    ns: Seq<i64>,
    pos: int,
    pol2: Policy,
    ban2: Bandit,
    rec: Step,
) -> bool {
    &&& pol.decide_post(rec.lever)
    &&& rec.optimal == is_max_pos(fx_fracs(ban.means_spec()), rec.lever as int)
    &&& Bandit::use_lever_post(ban, ban2, ns, pos, rec.lever as int, rec.reward)
    &&& Policy::update_post(pol, pol2, rec.lever as int, rec.reward)
}

/// The records of a trial are explained by a chain of intermediate
/// (policy, bandit) states: the chain starts at the given pair, and the
/// `k`-th record connects its `k`-th state to its next, drawing from the
/// deviate stream at the `k`-th step position.
pub open spec fn trial_trace(
    pol0: Policy,
    ban0: Bandit,
    ns: Seq<i64>,
    pos0: int,
    sps: int,
    recs: Seq<Step>,
    states: Seq<(Policy, Bandit)>,
) -> bool {
    &&& states.len() == recs.len() + 1
    &&& states[0] == (pol0, ban0)
    &&& forall|k: int|
        0 <= k < recs.len() ==> step_connects(
            states[k].0,
            states[k].1,
            ns,
            stream_adv(ns, pos0, k * sps),
            states[k + 1].0,
            states[k + 1].1,
            #[trigger] recs[k],
        )
}

/// The policy is the never-exploring variant and the record's lever
/// attains the maximum of its current estimates.
pub open spec fn zero_explore_exploits(pol: Policy, rec: Step) -> bool {
    match pol {
        Policy::EGreedy(g) => g.expl_proba == 0 && is_max_pos(
            g.estimator.estimates_spec(),
            rec.lever as int,
        ),
        Policy::UCB(_) => false,
    }
}

proof fn lemma_zero_exploration_step(
    pol0: Policy,
    ban0: Bandit,
    ns: Seq<i64>,
    pos0: int,
    sps: int,
    recs: Seq<Step>,
    states: Seq<(Policy, Bandit)>,
    k: int,
)
    requires
        trial_trace(pol0, ban0, ns, pos0, sps, recs, states),
        pol0 matches Policy::EGreedy(g) && g.expl_proba == 0,
        0 <= k < recs.len(),
    ensures
        zero_explore_exploits(states[k].0, recs[k]),
    decreases k,
{
    if k > 0 {
        lemma_zero_exploration_step(pol0, ban0, ns, pos0, sps, recs, states, k - 1);
        assert(step_connects(
            states[k - 1].0,
            states[k - 1].1,
            ns,
            stream_adv(ns, pos0, (k - 1) * sps),
            states[k].0,
            states[k].1,
            recs[k - 1],
        ));
    }
    assert(step_connects(
        states[k].0,
        states[k].1,
        ns,
        stream_adv(ns, pos0, k * sps),
        states[k + 1].0,
        states[k + 1].1,
        recs[k],
    ));
}

/// Law: an epsilon-greedy policy configured never to explore exploits at
/// every step of a trial, however many steps it runs: each record's lever
/// attains the maximum of the estimator's estimates as they stood at that
/// step.
pub proof fn lemma_egreedy_zero_never_explores(
    pol0: Policy,
    ban0: Bandit,
    ns: Seq<i64>,
    pos0: int,
    sps: int,
    recs: Seq<Step>,
    states: Seq<(Policy, Bandit)>,
)
    requires
        trial_trace(pol0, ban0, ns, pos0, sps, recs, states),
        pol0 matches Policy::EGreedy(g) && g.expl_proba == 0,
    ensures
        forall|k: int|
            0 <= k < recs.len() ==> zero_explore_exploits(states[k].0, #[trigger] recs[k]),
{
    assert forall|k: int|
        0 <= k < recs.len() implies zero_explore_exploits(states[k].0, #[trigger] recs[k]) by {
        lemma_zero_exploration_step(pol0, ban0, ns, pos0, sps, recs, states, k);
    }
}

/// One policy paired with one bandit, plus the records produced so far.
pub struct Experiment {
    pub policy: Policy,
    pub problem: Bandit,
    pub results: Vec<Step>,
}

impl Experiment {
    /// Consistent state: both sides well formed and agreeing on the lever
    /// count, and every record within it.
    pub open spec fn wf(self) -> bool {
        &&& self.policy.wf()
        &&& self.problem.wf()
        &&& self.policy.nb_levers_spec() == self.problem.nb_levers_spec()
        &&& forall|i: int|
            0 <= i < self.results@.len() ==> step_wf(
                #[trigger] self.results@[i],
                self.policy.nb_levers_spec(),
            )
    }

    pub open spec fn nb_levers_spec(self) -> usize {
        self.policy.nb_levers_spec()
    }

    /// Pairs a fresh policy with a fresh bandit.
    pub fn new(policy: Policy, problem: Bandit) -> (r: Self)
        requires
            policy.wf(),
            problem.wf(),
            policy.nb_levers_spec() == problem.nb_levers_spec(),
        ensures
            r.policy == policy,
            r.problem == problem,
            r.results@.len() == 0,
            r.wf(),
    {
        Experiment { policy, problem, results: Vec::new() }
    }

    /// Runs the trial for `steps` further steps and hands the records
    /// back: exactly `steps` are appended, each with its lever within
    /// range and its reward representable, and the whole sequence is
    /// explained by a chain of intermediate states (`trial_trace`). The
    /// deviate stream advances by the bandit's per-step consumption,
    /// `steps` times.
    pub fn steps(self, steps: usize, rand: &mut Randomness) -> (r: Vec<Step>)
        requires
            self.wf(),
            old(rand).wf(),
        ensures
            final(rand).wf(),
            final(rand).normals_spec() == old(rand).normals_spec(),
            final(rand).pos_spec() == stream_adv(
                old(rand).normals_spec(),
                old(rand).pos_spec(),
                steps * self.problem.step_normals_spec(),
            ),
            r@.len() == self.results@.len() + steps,
            r@.take(self.results@.len() as int) == self.results@,
            forall|i: int| 0 <= i < r@.len() ==> step_wf(#[trigger] r@[i], self.nb_levers_spec()),
            exists|states: Seq<(Policy, Bandit)>|
                trial_trace(
                    self.policy,
                    self.problem,
                    old(rand).normals_spec(),
                    old(rand).pos_spec(),
                    self.problem.step_normals_spec(),
                    r@.skip(self.results@.len() as int),
                    states,
                ),
    {
        let mut this = self;
        let ghost ns = rand.normals_spec();
        let ghost pos0 = rand.pos_spec();
        let ghost sps = self.problem.step_normals_spec();
        let ghost consumed = 0int;
        let ghost mut states: Seq<(Policy, Bandit)> = seq![(self.policy, self.problem)];
        let ghost len0 = self.results@.len() as int;
        let mut k: usize = 0;
        while k < steps
            invariant
                k <= steps,
                this.wf(),
                rand.wf(),
                rand.normals_spec() == ns,
                rand.pos_spec() == stream_adv(ns, pos0, consumed),
                consumed == k * sps,
                sps == this.problem.step_normals_spec(),
                this.policy.nb_levers_spec() == self.policy.nb_levers_spec(),
                this.results@.len() == self.results@.len() + k,
                this.results@.take(self.results@.len() as int) == self.results@,
                len0 == self.results@.len() as int,
                states.len() == k + 1,
                states[k as int] == (this.policy, this.problem),
                trial_trace(
                    self.policy,
                    self.problem,
                    ns,
                    pos0,
                    sps,
                    this.results@.skip(len0),
                    states,
                ),
            decreases steps - k,
        {
            let ghost pre_pol = this.policy;
            let ghost pre_ban = this.problem;
            let lever: usize = this.policy.decide(rand);
            let optimal: bool = this.problem.is_optimal(lever);
            let reward: i64 = this.problem.use_lever(lever, rand);
            this.policy.update(lever, reward);
            let rec = Step { lever, optimal, reward };
            let ghost pre_results = this.results@;
            this.results.push(rec);
            proof {
                assert(stream_adv(ns, stream_adv(ns, pos0, consumed), sps) == stream_adv(
                    ns,
                    pos0,
                    consumed + sps,
                ));
                let ghost old_states = states;
                states = states.push((this.policy, this.problem));
                let recs = this.results@.skip(len0);
                assert(recs.len() == k + 1);
                assert(recs[k as int] == rec);
                assert(step_connects(
                    pre_pol,
                    pre_ban,
                    ns,
                    stream_adv(ns, pos0, consumed),
                    this.policy,
                    this.problem,
                    rec,
                ));
                assert forall|m: int| 0 <= m < recs.len() implies step_connects(
                    states[m].0,
                    states[m].1,
                    ns,
                    stream_adv(ns, pos0, m * sps),
                    states[m + 1].0,
                    states[m + 1].1,
                    #[trigger] recs[m],
                ) by {
                    if m < k {
                        assert(recs[m] == this.results@[len0 + m]);
                        assert(this.results@[len0 + m] == pre_results[len0 + m]);
                        assert(pre_results.skip(len0)[m] == pre_results[len0 + m]);
                        assert(states[m] == old_states[m] && states[m + 1] == old_states[m + 1]);
                        assert(step_connects(
                            old_states[m].0,
                            old_states[m].1,
                            ns,
                            stream_adv(ns, pos0, m * sps),
                            old_states[m + 1].0,
                            old_states[m + 1].1,
                            pre_results.skip(len0)[m],
                        ));
                    } else {
                        assert(m == k);
                        assert(states[m] == (pre_pol, pre_ban));
                        assert(states[m + 1] == (this.policy, this.problem));
                    }
                }
                consumed = consumed + sps;
                assert(consumed == (k + 1) * sps) by (nonlinear_arith)
                    requires
                        consumed == k * sps + sps,
                ;
                assert(this.results@.take(self.results@.len() as int) == self.results@);
            }
            k = k + 1;
        }
        proof {
            assert(consumed == steps * sps);
            assert(trial_trace(
                self.policy,
                self.problem,
                ns,
                pos0,
                sps,
                this.results@.skip(len0),
                states,
            ));
        }
        this.results
    }
}

} // verus!
