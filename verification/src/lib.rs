//! A multi-armed bandit simulator.
//!
//! The library models reward-generating bandit environments, decision
//! policies over per-lever value estimators, single trials pairing one
//! policy with one bandit, and an orchestrator that runs many independent
//! trials and aggregates their per-step outcomes.
//!
//! All arithmetic is exact: scalars are fixed-point numbers, estimates
//! exact fractions, and the aggregated optimal-action ratios exact counts
//! over the number of trials. Gaussian deviates enter as plain fixed-point
//! data through a `Randomness` value, so a reproducible run is a
//! deterministic function of its seed and its deviate stream.

use vstd::prelude::*;
use rayon::iter::IntoParallelIterator;
use rayon::iter::ParallelIterator;

pub mod fx;
pub mod helper;
pub mod rng;
pub mod estimators;
pub mod experiments;
pub mod policies;
pub mod problems;

use crate::rng::Randomness;
use crate::experiments::Experiment;
use crate::experiments::Step;
use crate::experiments::step_wf;
use crate::experiments::trial_trace;
use crate::policies::Policy;
use crate::problems::Bandit;
use crate::policies::PolicyInit;
use crate::policies::policy_fresh;
use crate::policies::create_policy;
use crate::problems::BanditInit;
use crate::problems::bandit_fresh_shape;
use crate::problems::create_bandit;

verus! {

/// Why a configuration was refused at construction time.
#[derive(Clone, Copy, Debug, PartialEq, Eq, Structural)]
pub enum ConfigError {
    /// A component was asked for no levers at all.
    ZeroLevers,
    /// A component was asked for more levers than the library supports.
    TooManyLevers,
    /// A constant-step size outside `(0, 1]`.
    StepOutOfRange,
    /// A negative standard deviation.
    NegativeStd,
    /// An exploration probability above 1.
    ProbOutOfRange,
    /// A policy and its estimator configured for different lever counts.
    MismatchedLevers,
    /// A scalar configuration value outside the representable range.
    ScaleOutOfRange,
}

/// Why a whole run must be refused, if it must be: the bandit
/// configuration is checked first, then each policy configuration in
/// order, each also against the bandit's lever count.
pub open spec fn configs_check_spec(policies: Seq<PolicyInit>, problem: BanditInit) -> Result<
    (),
    ConfigError,
>
    decreases policies.len(),
{
    if problem.check_spec() is Err {
        problem.check_spec()
    } else if policies.len() == 0 {
        Ok(())
    } else if policies[0].check_spec() is Err {
        policies[0].check_spec()
    } else if policies[0].nb_levers_spec() != problem.nb_levers_spec() {
        Err(ConfigError::MismatchedLevers)
    } else {
        configs_check_spec(policies.drop_first(), problem)
    }
}

/// All configurations of a run are valid and agree on the lever count.
pub open spec fn configs_valid(policies: Seq<PolicyInit>, problem: BanditInit) -> bool {
    configs_check_spec(policies, problem) is Ok
}

proof fn lemma_configs_check_skip(policies: Seq<PolicyInit>, problem: BanditInit, i: int)
    requires
        0 <= i < policies.len(),
        problem.check_spec() is Ok,
        forall|k: int|
            0 <= k < i ==> (#[trigger] policies[k].check_spec()) is Ok
                && policies[k].nb_levers_spec() == problem.nb_levers_spec(),
    ensures
        configs_check_spec(policies, problem) == (if policies[i].check_spec() is Err {
            policies[i].check_spec()
        } else if policies[i].nb_levers_spec() != problem.nb_levers_spec() {
            Err::<(), ConfigError>(ConfigError::MismatchedLevers)
        } else {
            configs_check_spec(policies.skip(i + 1), problem)
        }),
    decreases i,
{
    if i == 0 {
        assert(policies.drop_first() =~= policies.skip(1));
    } else {
        let tail = policies.drop_first();
        assert forall|k: int| 0 <= k < i - 1 implies (#[trigger] tail[k].check_spec()) is Ok
            && tail[k].nb_levers_spec() == problem.nb_levers_spec() by {
            assert(tail[k] == policies[k + 1]);
        }
        lemma_configs_check_skip(tail, problem, i - 1);
        assert(tail[i - 1] == policies[i]);
        assert(tail.skip(i) =~= policies.skip(i + 1));
    }
}

/// Checks every configuration of a run, reporting the first fault.
pub fn check_configs(policies: &Vec<PolicyInit>, problem: &BanditInit) -> (r: Result<
    (),
    ConfigError,
>)
    ensures
        r == configs_check_spec(policies@, *problem),
        r is Ok ==> problem.valid() && forall|k: int|
            0 <= k < policies@.len() ==> (#[trigger] policies@[k]).valid()
                && policies@[k].nb_levers_spec() == problem.nb_levers_spec(),
{
    if let Err(e) = problem.check() {
        return Err(e);
    }
    let bn: usize = match problem {
        BanditInit::StationaryInit { nb_levers, .. } => *nb_levers,
        BanditInit::NonStationaryInit { nb_levers, .. } => *nb_levers,
    };
    let mut i: usize = 0;
    while i < policies.len()
        invariant
            i <= policies@.len(),
            problem.check_spec() is Ok,
            bn == problem.nb_levers_spec(),
            forall|k: int|
                0 <= k < i ==> (#[trigger] policies@[k].check_spec()) is Ok
                    && policies@[k].nb_levers_spec() == problem.nb_levers_spec(),
        decreases policies@.len() - i,
    {
        proof {
            lemma_configs_check_skip(policies@, *problem, i as int);
        }
        let p = &policies[i];
        let pn: usize;
        let checked: Result<(), ConfigError>;
        match p {
            PolicyInit::EGreedyInit { nb_levers, expl_proba, est } => {
                pn = *nb_levers;
                checked = match policies::EGreedy::new(*nb_levers, *expl_proba, est) {
                    Ok(_) => Ok(()),
                    Err(e) => Err(e),
                };
            },
            PolicyInit::UCBInit { nb_levers, step, est } => {
                pn = *nb_levers;
                checked = match policies::UCB::new(*nb_levers, *step, est) {
                    Ok(_) => Ok(()),
                    Err(e) => Err(e),
                };
            },
        }
        if let Err(e) = checked {
            return Err(e);
        }
        if pn != bn {
            return Err(ConfigError::MismatchedLevers);
        }
        i = i + 1;
    }
    proof {
        if policies@.len() > 0 {
            lemma_configs_check_skip(policies@, *problem, policies@.len() - 1);
            assert(policies@.skip(policies@.len() as int) =~= Seq::<PolicyInit>::empty());
        }
    }
    Ok(())
}

/// A freshly built trial for one policy configuration and the shared
/// bandit configuration.
pub open spec fn experiment_fresh(e: Experiment, pol: PolicyInit, problem: BanditInit) -> bool {
    &&& e.wf()
    &&& e.results@.len() == 0
    &&& e.nb_levers_spec() == problem.nb_levers_spec()
    &&& policy_fresh(e.policy, pol)
    &&& bandit_fresh_shape(e.problem, problem)
}

/// Builds, for each policy configuration, `nb_tries` independent trials:
/// a fresh policy and a fresh bandit each, nothing shared. The bandits
/// draw their means from the deviate stream in construction order.
fn make_vec_experiment(
    policies: &Vec<PolicyInit>,
    problem: &BanditInit,
    rand: &mut Randomness,
    nb_tries: usize,
) -> (r: Result<Vec<Vec<Experiment>>, ConfigError>)
    requires
        old(rand).wf(),
    ensures
        final(rand).wf(),
        final(rand).normals_spec() == old(rand).normals_spec(),
        match r {
            Ok(exps) => {
                &&& configs_valid(policies@, *problem)
                &&& exps@.len() == policies@.len()
                &&& forall|i: int| 0 <= i < exps@.len() ==> (#[trigger] exps@[i])@.len() == nb_tries
                &&& forall|i: int, j: int|
                    0 <= i < exps@.len() && 0 <= j < nb_tries ==> experiment_fresh(
                        #[trigger] exps@[i]@[j],
                        policies@[i],
                        *problem,
                    )
            },
            Err(e) => configs_check_spec(policies@, *problem) == Err::<(), ConfigError>(e),
        },
{
    if let Err(e) = check_configs(policies, problem) {
        return Err(e);
    }
    let mut exps: Vec<Vec<Experiment>> = Vec::new();
    let mut i: usize = 0;
    while i < policies.len()
        invariant
            i <= policies@.len(),
            rand.wf(),
            rand.normals_spec() == old(rand).normals_spec(),
            configs_valid(policies@, *problem),
            problem.valid(),
            forall|k: int|
                0 <= k < policies@.len() ==> (#[trigger] policies@[k]).valid()
                    && policies@[k].nb_levers_spec() == problem.nb_levers_spec(),
            exps@.len() == i,
            forall|k: int| 0 <= k < i ==> (#[trigger] exps@[k])@.len() == nb_tries,
            forall|k: int, j: int|
                0 <= k < i && 0 <= j < nb_tries ==> experiment_fresh(
                    #[trigger] exps@[k]@[j],
                    policies@[k],
                    *problem,
                ),
        decreases policies@.len() - i,
    {
        let mut row: Vec<Experiment> = Vec::new();
        let mut j: usize = 0;
        while j < nb_tries
            invariant
                j <= nb_tries,
                i < policies@.len(),
                rand.wf(),
                rand.normals_spec() == old(rand).normals_spec(),
                problem.valid(),
                policies@[i as int].valid(),
                policies@[i as int].nb_levers_spec() == problem.nb_levers_spec(),
                row@.len() == j,
                forall|k: int|
                    0 <= k < j ==> experiment_fresh(
                        #[trigger] row@[k],
                        policies@[i as int],
                        *problem,
                    ),
            decreases nb_tries - j,
        {
            let pol = match create_policy(&policies[i]) {
                Ok(p) => p,
                Err(e) => {
                    return Err(e);
                },
            };
            let ban = match create_bandit(problem, rand) {
                Ok(b) => b,
                Err(e) => {
                    return Err(e);
                },
            };
            row.push(Experiment::new(pol, ban));
            j = j + 1;
        }
        exps.push(row);
        i = i + 1;
    }
    Ok(exps)
}

/// The shape a run's results have: one row per policy configuration,
/// `nb_tries` trials per row, `len_exp` records per trial, every record
/// within the lever count.
pub open spec fn results_wf(
    results: Seq<Vec<Vec<Step>>>,
    n_pol: int,
    nb_tries: usize,
    len_exp: usize,
    nb_levers: usize,
) -> bool {
    &&& results.len() == n_pol
    &&& forall|i: int| 0 <= i < results.len() ==> (#[trigger] results[i])@.len() == nb_tries
    &&& forall|i: int, j: int|
        0 <= i < results.len() && 0 <= j < nb_tries ==> (#[trigger] results[i]@[j])@.len()
            == len_exp
    &&& forall|i: int, j: int, t: int|
        0 <= i < results.len() && 0 <= j < nb_tries && 0 <= t < len_exp ==> step_wf(
            #[trigger] results[i]@[j]@[t],
            nb_levers,
        )
}

/// The records of one trial are a genuine run: some fresh policy built
/// from the given configuration and some well-formed bandit of the
/// configured shape, stepped record by record against the deviate stream
/// `ns` from some position (`trial_trace` connects every record to the
/// decide, reward and update of its step).
pub open spec fn trial_explained(
    out: Vec<Step>,
    pol_init: PolicyInit,
    problem: BanditInit,
    ns: Seq<i64>,
) -> bool {
    exists|pol0: Policy, ban0: Bandit, pos: int, states: Seq<(Policy, Bandit)>|
        {
            &&& pol0.wf()
            &&& ban0.wf()
            &&& policy_fresh(pol0, pol_init)
            &&& bandit_fresh_shape(ban0, problem)
            &&& #[trigger] trial_trace(pol0, ban0, ns, pos, problem.step_normals_spec(), out@, states)
        }
}

/// Runs every configured trial sequentially, drawing all randomness from
/// the one source handed in, so that a fixed seed and deviate stream give
/// bit-identical results. Returns, per policy configuration, the
/// `nb_tries` step-record sequences of length `len_exp`; each trial's
/// records are a genuine run of its configuration against the supplied
/// deviate stream.
pub fn run_reprod_experiments(
    policies: &Vec<PolicyInit>,
    problem: &BanditInit,
    rand: &mut Randomness,
    nb_tries: usize,
    len_exp: usize,
) -> (r: Result<Vec<Vec<Vec<Step>>>, ConfigError>)
    requires
        old(rand).wf(),
    ensures
        final(rand).wf(),
        final(rand).normals_spec() == old(rand).normals_spec(),
        match r {
            Ok(results) => configs_valid(policies@, *problem) && results_wf(
                results@,
                policies@.len() as int,
                nb_tries,
                len_exp,
                problem.nb_levers_spec(),
            ) && forall|i: int, j: int|
                0 <= i < results@.len() && 0 <= j < nb_tries ==> trial_explained(
                    #[trigger] results@[i]@[j],
                    policies@[i],
                    *problem,
                    old(rand).normals_spec(),
                ),
            Err(e) => configs_check_spec(policies@, *problem) == Err::<(), ConfigError>(e),
        },
{
    let mut exps = match make_vec_experiment(policies, problem, rand, nb_tries) {
        Ok(v) => v,
        Err(e) => {
            return Err(e);
        },
    };
    let ghost n_pol = policies@.len() as int;
    let mut results: Vec<Vec<Vec<Step>>> = Vec::new();
    while exps.len() > 0
        invariant
            n_pol == policies@.len(),
            results@.len() + exps@.len() == n_pol,
            rand.wf(),
            rand.normals_spec() == old(rand).normals_spec(),
            forall|k: int| 0 <= k < exps@.len() ==> (#[trigger] exps@[k])@.len() == nb_tries,
            forall|k: int, j: int|
                0 <= k < exps@.len() && 0 <= j < nb_tries ==> experiment_fresh(
                    #[trigger] exps@[k]@[j],
                    policies@[results@.len() + k],
                    *problem,
                ),
            forall|k: int| 0 <= k < results@.len() ==> (#[trigger] results@[k])@.len() == nb_tries,
            forall|k: int, j: int|
                0 <= k < results@.len() && 0 <= j < nb_tries ==> (
                #[trigger] results@[k]@[j])@.len() == len_exp,
            forall|k: int, j: int, t: int|
                0 <= k < results@.len() && 0 <= j < nb_tries && 0 <= t < len_exp ==> step_wf(
                    #[trigger] results@[k]@[j]@[t],
                    problem.nb_levers_spec(),
                ),
            forall|k: int, j: int|
                0 <= k < results@.len() && 0 <= j < nb_tries ==> trial_explained(
                    #[trigger] results@[k]@[j],
                    policies@[k],
                    *problem,
                    old(rand).normals_spec(),
                ),
        decreases exps@.len(),
    {
        let ghost rowi = results@.len() as int;
        let mut row = exps.remove(0);
        let mut row_out: Vec<Vec<Step>> = Vec::new();
        while row.len() > 0
            invariant
                row_out@.len() + row@.len() == nb_tries,
                rand.wf(),
                rand.normals_spec() == old(rand).normals_spec(),
                0 <= rowi < policies@.len(),
                forall|k: int|
                    0 <= k < row@.len() ==> experiment_fresh(
                        #[trigger] row@[k],
                        policies@[rowi],
                        *problem,
                    ),
                forall|k: int|
                    0 <= k < row_out@.len() ==> (#[trigger] row_out@[k])@.len() == len_exp,
                forall|k: int, t: int|
                    0 <= k < row_out@.len() && 0 <= t < len_exp ==> step_wf(
                        #[trigger] row_out@[k]@[t],
                        problem.nb_levers_spec(),
                    ),
                forall|k: int|
                    0 <= k < row_out@.len() ==> trial_explained(
                        #[trigger] row_out@[k],
                        policies@[rowi],
                        *problem,
                        old(rand).normals_spec(),
                    ),
            decreases row@.len(),
        {
            let exp = row.remove(0);
            let ghost pos_here = rand.pos_spec();
            let steps = exp.steps(len_exp, rand);
            proof {
                let states = choose|states: Seq<(Policy, Bandit)>|
                    trial_trace(
                        exp.policy,
                        exp.problem,
                        old(rand).normals_spec(),
                        pos_here,
                        exp.problem.step_normals_spec(),
                        steps@.skip(exp.results@.len() as int),
                        states,
                    );
                assert(steps@.skip(0) =~= steps@);
                assert(exp.problem.step_normals_spec() == problem.step_normals_spec()) by {
                    assert(bandit_fresh_shape(exp.problem, *problem));
                }
                assert(policy_fresh(exp.policy, policies@[rowi]) && exp.policy.wf()
                    && exp.problem.wf() && bandit_fresh_shape(exp.problem, *problem)
                    && trial_trace(
                    exp.policy,
                    exp.problem,
                    old(rand).normals_spec(),
                    pos_here,
                    problem.step_normals_spec(),
                    steps@,
                    states,
                ));
                assert(trial_explained(steps, policies@[rowi], *problem, old(rand).normals_spec()));
            }
            row_out.push(steps);
        }
        results.push(row_out);
    }
    Ok(results)
}

/// How many of the given trials pulled an optimal lever at step `t`.
pub open spec fn count_optimal(trials: Seq<Vec<Step>>, t: int) -> int
    decreases trials.len(),
{
    if trials.len() == 0 {
        0int
    } else {
        count_optimal(trials.drop_last(), t) + (if trials.last()@[t].optimal {
            1int
        } else {
            0int
        })
    }
}

/// The count of optimal trials never exceeds the number of trials.
pub proof fn lemma_count_optimal_bound(trials: Seq<Vec<Step>>, t: int)
    ensures
        0 <= count_optimal(trials, t) <= trials.len(),
    decreases trials.len(),
{
    if trials.len() > 0 {
        lemma_count_optimal_bound(trials.drop_last(), t);
    }
}

/// Aggregates a run: per policy configuration and per time step, the
/// fraction of trials whose record at that step was optimal — exactly
/// `count / nb_tries`, so every value lies in `[0, 1]`.
pub fn optimal_percentage(results: Vec<Vec<Vec<Step>>>, nb_tries: usize, len_exp: usize) -> (r:
    Vec<Vec<crate::fx::Frac>>)
    requires
        1 <= nb_tries <= i64::MAX,
        forall|i: int| 0 <= i < results@.len() ==> (#[trigger] results@[i])@.len() == nb_tries,
        forall|i: int, j: int|
            0 <= i < results@.len() && 0 <= j < nb_tries ==> (#[trigger] results@[i]@[j])@.len()
                == len_exp,
    ensures
        r@.len() == results@.len(),
        forall|i: int| 0 <= i < r@.len() ==> (#[trigger] r@[i])@.len() == len_exp,
        forall|i: int, t: int|
            0 <= i < r@.len() && 0 <= t < len_exp ==> #[trigger] r@[i]@[t] == (crate::fx::Frac {
                num: count_optimal(results@[i]@, t) as i64,
                den: nb_tries as i64,
            }),
        forall|i: int, t: int|
            0 <= i < r@.len() && 0 <= t < len_exp ==> 0 <= #[trigger] r@[i]@[t].num <= r@[i]@[t].den,
{
    let mut r: Vec<Vec<crate::fx::Frac>> = Vec::new();
    let mut i: usize = 0;
    while i < results.len()
        invariant
            i <= results@.len(),
            1 <= nb_tries <= i64::MAX,
            forall|k: int| 0 <= k < results@.len() ==> (#[trigger] results@[k])@.len() == nb_tries,
            forall|k: int, j: int|
                0 <= k < results@.len() && 0 <= j < nb_tries ==> (
                #[trigger] results@[k]@[j])@.len() == len_exp,
            r@.len() == i,
            forall|k: int| 0 <= k < i ==> (#[trigger] r@[k])@.len() == len_exp,
            forall|k: int, t: int|
                0 <= k < i && 0 <= t < len_exp ==> #[trigger] r@[k]@[t] == (crate::fx::Frac {
                    num: count_optimal(results@[k]@, t) as i64,
                    den: nb_tries as i64,
                }),
            forall|k: int, t: int|
                0 <= k < i && 0 <= t < len_exp ==> 0 <= #[trigger] r@[k]@[t].num <= r@[k]@[t].den,
        decreases results@.len() - i,
    {
        let trials = &results[i];
        let mut counts: Vec<usize> = Vec::new();
        let mut t0: usize = 0;
        while t0 < len_exp
            invariant
                t0 <= len_exp,
                counts@ =~= Seq::new(t0 as nat, |k: int| 0usize),
            decreases len_exp - t0,
        {
            counts.push(0);
            t0 = t0 + 1;
        }
        proof {
            assert(counts@ =~= Seq::new(len_exp as nat, |k: int| 0usize));
            assert(trials@.take(0) =~= Seq::<Vec<Step>>::empty());
        }
        let mut j: usize = 0;
        while j < nb_tries
            invariant
                j <= nb_tries,
                i < results@.len(),
                trials == &results[i as int],
                trials@.len() == nb_tries,
                forall|jj: int| 0 <= jj < nb_tries ==> (#[trigger] trials@[jj])@.len() == len_exp,
                counts@.len() == len_exp,
                forall|t: int|
                    0 <= t < len_exp ==> (#[trigger] counts@[t]) == count_optimal(
                        trials@.take(j as int),
                        t,
                    ),
            decreases nb_tries - j,
        {
            let trial = &trials[j];
            let mut t: usize = 0;
            while t < len_exp
                invariant
                    t <= len_exp,
                    j < nb_tries,
                    i < results@.len(),
                    trials == &results[i as int],
                    trials@.len() == nb_tries,
                    forall|jj: int|
                        0 <= jj < nb_tries ==> (#[trigger] trials@[jj])@.len() == len_exp,
                    trial == &trials@[j as int],
                    counts@.len() == len_exp,
                    forall|tt: int|
                        0 <= tt < t ==> (#[trigger] counts@[tt]) == count_optimal(
                            trials@.take(j + 1),
                            tt,
                        ),
                    forall|tt: int|
                        t <= tt < len_exp ==> (#[trigger] counts@[tt]) == count_optimal(
                            trials@.take(j as int),
                            tt,
                        ),
                decreases len_exp - t,
            {
                proof {
                    assert(trials@.take(j + 1).drop_last() =~= trials@.take(j as int));
                    assert(trials@.take(j + 1).last() == trials@[j as int]);
                    lemma_count_optimal_bound(trials@.take(j as int), t as int);
                }
                if trial[t].optimal {
                    let c: usize = counts[t];
                    counts.set(t, c + 1);
                }
                t = t + 1;
            }
            j = j + 1;
        }
        proof {
            assert(trials@.take(nb_tries as int) =~= trials@);
        }
        let mut row: Vec<crate::fx::Frac> = Vec::new();
        let mut t: usize = 0;
        while t < len_exp
            invariant
                t <= len_exp,
                i < results@.len(),
                trials == &results[i as int],
                trials@.len() == nb_tries,
                1 <= nb_tries <= i64::MAX,
                counts@.len() == len_exp,
                forall|tt: int|
                    0 <= tt < len_exp ==> (#[trigger] counts@[tt]) == count_optimal(trials@, tt),
                row@.len() == t,
                forall|tt: int|
                    0 <= tt < t ==> #[trigger] row@[tt] == (crate::fx::Frac {
                        num: count_optimal(results@[i as int]@, tt) as i64,
                        den: nb_tries as i64,
                    }),
                forall|tt: int|
                    0 <= tt < t ==> 0 <= #[trigger] row@[tt].num <= row@[tt].den,
            decreases len_exp - t,
        {
            proof {
                lemma_count_optimal_bound(trials@, t as int);
            }
            let c: usize = counts[t];
            row.push(crate::fx::Frac { num: c as i64, den: nb_tries as i64 });
            t = t + 1;
        }
        r.push(row);
        i = i + 1;
    }
    r
}

/// What running one prepared trial yields: the trial's records extended
/// by exactly `len_exp` new ones, every record within the lever count,
/// and the whole sequence explained by a chain of intermediate states
/// stepped against the trial's own randomness source.
pub open spec fn trial_output_ok(e: Experiment, rnd: Randomness, len_exp: usize, out: Vec<Step>) -> bool {
    &&& out@.len() == e.results@.len() + len_exp
    &&& forall|t: int| 0 <= t < out@.len() ==> step_wf(#[trigger] out@[t], e.nb_levers_spec())
    &&& exists|states: Seq<(Policy, Bandit)>|
        trial_trace(
            e.policy,
            e.problem,
            rnd.normals_spec(),
            rnd.pos_spec(),
            e.problem.step_normals_spec(),
            out@.skip(e.results@.len() as int),
            states,
        )
}

/// Relies on rayon's parallel iterator: `into_par_iter().map(..).collect()`
/// on a `Vec` applies the closure to every element and collects the
/// results in the input order (the iterator is indexed, and collecting an
/// indexed parallel iterator into a `Vec` keeps indices). The closure only
/// calls the verified `Experiment::steps`, whose contract gives each
/// output's shape and trace.
#[verifier::external_body]
fn par_run_trials(trials: Vec<(Experiment, Randomness)>, len_exp: usize) -> (r: Vec<Vec<Step>>)
    requires
        forall|i: int|
            0 <= i < trials@.len() ==> (#[trigger] trials@[i]).0.wf() && trials@[i].1.wf(),
    ensures
        r@.len() == trials@.len(),
        forall|i: int|
            0 <= i < r@.len() ==> trial_output_ok(
                trials@[i].0,
                trials@[i].1,
                len_exp,
                #[trigger] r@[i],
            ),
{
    trials.into_par_iter().map(
        |pair: (Experiment, Randomness)|
            {
                let (e, mut rnd) = pair;
                e.steps(len_exp, &mut rnd)
            },
    ).collect()
}

/// As `trial_explained`, for a trial run against its own source: some
/// deviate stream explains the records.
pub open spec fn trial_explained_some(out: Vec<Step>, pol_init: PolicyInit, problem: BanditInit) -> bool {
    exists|ns: Seq<i64>| #[trigger] trial_explained(out, pol_init, problem, ns)
}

/// Runs every configured trial on a data-parallel worker pool: the
/// bandits are built sequentially from `rand` (as in the reproducible
/// path), then the trials of each configuration run concurrently, each
/// on its own randomness source from `rands`, one per trial in row
/// order, with no shared state. The results keep the configuration and
/// repetition order; each trial's records are a genuine run of its
/// configuration against its own source's deviate stream.
pub fn run_experiments(
    policies: &Vec<PolicyInit>,
    problem: &BanditInit,
    rand: &mut Randomness,
    rands: Vec<Randomness>,
    nb_tries: usize,
    len_exp: usize,
) -> (r: Result<Vec<Vec<Vec<Step>>>, ConfigError>)
    requires
        old(rand).wf(),
        rands@.len() == policies@.len() * nb_tries,
        forall|i: int| 0 <= i < rands@.len() ==> (#[trigger] rands@[i]).wf(),
    ensures
        final(rand).wf(),
        final(rand).normals_spec() == old(rand).normals_spec(),
        match r {
            Ok(results) => configs_valid(policies@, *problem) && results_wf(
                results@,
                policies@.len() as int,
                nb_tries,
                len_exp,
                problem.nb_levers_spec(),
            ) && forall|i: int, j: int|
                0 <= i < results@.len() && 0 <= j < nb_tries ==> trial_explained_some(
                    #[trigger] results@[i]@[j],
                    policies@[i],
                    *problem,
                ),
            Err(e) => configs_check_spec(policies@, *problem) == Err::<(), ConfigError>(e),
        },
{
    let mut exps = match make_vec_experiment(policies, problem, rand, nb_tries) {
        Ok(v) => v,
        Err(e) => {
            return Err(e);
        },
    };
    let ghost n_pol = policies@.len() as int;
    let mut rands = rands;
    let mut results: Vec<Vec<Vec<Step>>> = Vec::new();
    while exps.len() > 0
        invariant
            n_pol == policies@.len(),
            results@.len() + exps@.len() == n_pol,
            rands@.len() == exps@.len() * nb_tries,
            forall|k: int| 0 <= k < rands@.len() ==> (#[trigger] rands@[k]).wf(),
            forall|k: int| 0 <= k < exps@.len() ==> (#[trigger] exps@[k])@.len() == nb_tries,
            forall|k: int, j: int|
                0 <= k < exps@.len() && 0 <= j < nb_tries ==> experiment_fresh(
                    #[trigger] exps@[k]@[j],
                    policies@[results@.len() + k],
                    *problem,
                ),
            forall|k: int| 0 <= k < results@.len() ==> (#[trigger] results@[k])@.len() == nb_tries,
            forall|k: int, j: int|
                0 <= k < results@.len() && 0 <= j < nb_tries ==> (
                #[trigger] results@[k]@[j])@.len() == len_exp,
            forall|k: int, j: int, t: int|
                0 <= k < results@.len() && 0 <= j < nb_tries && 0 <= t < len_exp ==> step_wf(
                    #[trigger] results@[k]@[j]@[t],
                    problem.nb_levers_spec(),
                ),
            forall|k: int, j: int|
                0 <= k < results@.len() && 0 <= j < nb_tries ==> trial_explained_some(
                    #[trigger] results@[k]@[j],
                    policies@[k],
                    *problem,
                ),
        decreases exps@.len(),
    {
        let ghost rowi = results@.len() as int;
        let ghost exps_before = exps@.len() as int;
        let mut row = exps.remove(0);
        proof {
            assert((exps_before - 1) * nb_tries == exps_before * nb_tries - nb_tries)
                by (nonlinear_arith);
        }
        let mut pairs: Vec<(Experiment, Randomness)> = Vec::new();
        while row.len() > 0
            invariant
                pairs@.len() + row@.len() == nb_tries,
                rands@.len() + pairs@.len() == exps@.len() * nb_tries + nb_tries,
                0 <= rowi < policies@.len(),
                forall|k: int| 0 <= k < rands@.len() ==> (#[trigger] rands@[k]).wf(),
                forall|k: int|
                    0 <= k < row@.len() ==> experiment_fresh(
                        #[trigger] row@[k],
                        policies@[rowi],
                        *problem,
                    ),
                forall|k: int|
                    0 <= k < pairs@.len() ==> (#[trigger] pairs@[k]).0.wf() && pairs@[k].1.wf()
                        && experiment_fresh(pairs@[k].0, policies@[rowi], *problem),
            decreases row@.len(),
        {
            let e = row.remove(0);
            let rnd = rands.remove(0);
            pairs.push((e, rnd));
        }
        let ghost pairs_snap = pairs@;
        let row_out = par_run_trials(pairs, len_exp);
        proof {
            assert forall|j: int| 0 <= j < row_out@.len() implies trial_explained_some(
                #[trigger] row_out@[j],
                policies@[rowi],
                *problem,
            ) by {
                let e = pairs_snap[j].0;
                let rnd = pairs_snap[j].1;
                assert(trial_output_ok(e, rnd, len_exp, row_out@[j]));
                let states = choose|states: Seq<(Policy, Bandit)>|
                    trial_trace(
                        e.policy,
                        e.problem,
                        rnd.normals_spec(),
                        rnd.pos_spec(),
                        e.problem.step_normals_spec(),
                        row_out@[j]@.skip(e.results@.len() as int),
                        states,
                    );
                assert(row_out@[j]@.skip(0) =~= row_out@[j]@);
                assert(e.problem.step_normals_spec() == problem.step_normals_spec()) by {
                    assert(bandit_fresh_shape(e.problem, *problem));
                }
                assert(trial_trace(
                    e.policy,
                    e.problem,
                    rnd.normals_spec(),
                    rnd.pos_spec(),
                    problem.step_normals_spec(),
                    row_out@[j]@,
                    states,
                ));
                assert(trial_explained(
                    row_out@[j],
                    policies@[rowi],
                    *problem,
                    rnd.normals_spec(),
                ));
            }
        }
        results.push(row_out);
    }
    Ok(results)
}

/// One saturating doubling of a parameter, within `[-cap, cap]`.
pub open spec fn dbl_sat_spec(v: int, cap: int) -> int {
    if 2 * v > cap {
        cap
    } else if 2 * v < -cap {
        -cap
    } else {
        2 * v
    }
}

/// A parameter doubled `k` times, saturating at `cap` in magnitude.
pub open spec fn double_sat(v: int, cap: int, k: nat) -> int
    decreases k,
{
    if k == 0 {
        v
    } else {
        dbl_sat_spec(double_sat(v, cap, (k - 1) as nat), cap)
    }
}

/// Doubling keeps a parameter within its original band.
proof fn lemma_double_sat_bounds(v: int, cap: int, k: nat)
    requires
        0 <= cap,
        -cap <= v <= cap,
    ensures
        -cap <= double_sat(v, cap, k) <= cap,
        0 <= v ==> 0 <= double_sat(v, cap, k),
    decreases k,
{
    if k > 0 {
        lemma_double_sat_bounds(v, cap, (k - 1) as nat);
    }
}

/// Doubles a parameter once, saturating at `cap` in magnitude.
fn dbl_sat(v: i64, cap: i64) -> (r: i64)
    requires
        0 <= cap,
        -cap <= v <= cap,
    ensures
        r == dbl_sat_spec(v as int, cap as int),
        -cap <= r <= cap,
{
    let d: i128 = 2 * (v as i128);
    if d > (cap as i128) {
        cap
    } else if d < -(cap as i128) {
        -cap
    } else {
        d as i64
    }
}

/// The base parameter a sweep starts from: the exploration probability of
/// an epsilon-greedy policy, the confidence scale of the bound policy.
pub open spec fn param_base(p: PolicyInit) -> int {
    match p {
        PolicyInit::EGreedyInit { expl_proba, .. } => expl_proba as int,
        PolicyInit::UCBInit { step, .. } => step as int,
    }
}

/// The largest value the swept parameter may reach: one for a
/// probability, the scalar range for a confidence scale.
pub open spec fn param_cap(p: PolicyInit) -> int {
    match p {
        PolicyInit::EGreedyInit { .. } => crate::fx::FX_ONE as int,
        PolicyInit::UCBInit { .. } => crate::fx::FX_LIM as int,
    }
}

/// The policy configuration with its parameter doubled `k` times.
pub open spec fn scaled_policy_spec(p: PolicyInit, k: nat) -> PolicyInit {
    match p {
        PolicyInit::EGreedyInit { nb_levers, expl_proba, est } => PolicyInit::EGreedyInit {
            nb_levers,
            expl_proba: double_sat(expl_proba as int, param_cap(p), k) as u64,
            est,
        },
        PolicyInit::UCBInit { nb_levers, step, est } => PolicyInit::UCBInit {
            nb_levers,
            step: double_sat(step as int, param_cap(p), k) as i64,
            est,
        },
    }
}

/// Runs a sensitivity sweep: holds the bandit configuration fixed,
/// doubles the policy's scalar parameter for each exponent in
/// `[range_start, range_end)` (a probability saturates at one, a scale at
/// the scalar range), runs one trial of `len_exp` steps per value, and
/// reports each parameter value with the trial's mean reward, as the
/// exact fraction `sum of rewards / len_exp`.
pub fn run_parameter_study(
    policy: &PolicyInit,
    problem: &BanditInit,
    rand: &mut Randomness,
    len_exp: usize,
    range_start: u32,
    range_end: u32,
) -> (r: Result<Vec<(i64, crate::fx::Frac)>, ConfigError>)
    requires
        old(rand).wf(),
        1 <= len_exp,
        len_exp <= 0x10_0000,
        range_start <= range_end <= 64,
    ensures
        final(rand).wf(),
        final(rand).normals_spec() == old(rand).normals_spec(),
        match r {
            Ok(v) => {
                &&& configs_valid(seq![*policy], *problem)
                &&& v@.len() == range_end - range_start
                &&& forall|k: int|
                    0 <= k < v@.len() ==> (#[trigger] v@[k]).0 == double_sat(
                        param_base(*policy),
                        param_cap(*policy),
                        (range_start + k) as nat,
                    )
                &&& forall|k: int|
                    0 <= k < v@.len() ==> (#[trigger] v@[k]).1.den == (len_exp as int) * (
                    crate::fx::FX_ONE as int) && -(len_exp * crate::fx::FX_LIM) <= v@[k].1.num
                        <= len_exp * crate::fx::FX_LIM
            },
            Err(e) => configs_check_spec(seq![*policy], *problem) == Err::<(), ConfigError>(e),
        },
{
    let mut one_policy: Vec<PolicyInit> = Vec::new();
    one_policy.push(*policy);
    proof {
        assert(one_policy@ =~= seq![*policy]);
    }
    if let Err(e) = check_configs(&one_policy, problem) {
        return Err(e);
    }
    let cap: i64 = match policy {
        PolicyInit::EGreedyInit { .. } => crate::fx::FX_ONE,
        PolicyInit::UCBInit { .. } => crate::fx::FX_LIM,
    };
    let mut param: i64 = match policy {
        PolicyInit::EGreedyInit { expl_proba, .. } => *expl_proba as i64,
        PolicyInit::UCBInit { step, .. } => *step,
    };
    proof {
        assert(policy.valid());
        assert(-cap <= param <= cap);
    }
    let mut x: u32 = 0;
    while x < range_start
        invariant
            x <= range_start,
            0 <= cap,
            -cap <= param <= cap,
            cap == param_cap(*policy),
            param == double_sat(param_base(*policy), param_cap(*policy), x as nat),
        decreases range_start - x,
    {
        param = dbl_sat(param, cap);
        x = x + 1;
    }
    let mut out: Vec<(i64, crate::fx::Frac)> = Vec::new();
    while x < range_end
        invariant
            range_start <= x <= range_end,
            0 <= cap,
            -cap <= param <= cap,
            cap == param_cap(*policy),
            param == double_sat(param_base(*policy), param_cap(*policy), x as nat),
            rand.wf(),
            rand.normals_spec() == old(rand).normals_spec(),
            policy.valid(),
            problem.valid(),
            policy.nb_levers_spec() == problem.nb_levers_spec(),
            1 <= len_exp <= 0x10_0000,
            out@.len() == x - range_start,
            forall|k: int|
                0 <= k < out@.len() ==> (#[trigger] out@[k]).0 == double_sat(
                    param_base(*policy),
                    param_cap(*policy),
                    (range_start + k) as nat,
                ),
            forall|k: int|
                0 <= k < out@.len() ==> (#[trigger] out@[k]).1.den == (len_exp as int) * (
                crate::fx::FX_ONE as int) && -(len_exp * crate::fx::FX_LIM) <= out@[k].1.num
                    <= len_exp * crate::fx::FX_LIM,
        decreases range_end - x,
    {
        let scaled: PolicyInit = match policy {
            PolicyInit::EGreedyInit { nb_levers, est, .. } => PolicyInit::EGreedyInit {
                nb_levers: *nb_levers,
                expl_proba: param as u64,
                est: *est,
            },
            PolicyInit::UCBInit { nb_levers, est, .. } => PolicyInit::UCBInit {
                nb_levers: *nb_levers,
                step: param,
                est: *est,
            },
        };
        proof {
            assert(scaled == scaled_policy_spec(*policy, x as nat));
            assert(scaled.valid() && scaled.nb_levers_spec() == policy.nb_levers_spec()) by {
                match *policy {
                    PolicyInit::EGreedyInit { nb_levers, expl_proba, est } => {
                        assert(0 <= param <= crate::fx::FX_ONE) by {
                            lemma_double_sat_bounds(
                                param_base(*policy),
                                param_cap(*policy),
                                x as nat,
                            );
                        }
                    },
                    PolicyInit::UCBInit { nb_levers, step, est } => {
                        assert(crate::fx::fx_wf(param));
                    },
                }
            }
        }
        let pol = match create_policy(&scaled) {
            Ok(p) => p,
            Err(e) => {
                return Err(e);
            },
        };
        let ban = match create_bandit(problem, rand) {
            Ok(b) => b,
            Err(e) => {
                return Err(e);
            },
        };
        let exp = Experiment::new(pol, ban);
        let steps = exp.steps(len_exp, rand);
        let mut sum: i64 = 0;
        let mut t: usize = 0;
        while t < len_exp
            invariant
                t <= len_exp,
                len_exp <= 0x10_0000,
                steps@.len() == len_exp,
                forall|k: int|
                    0 <= k < len_exp ==> step_wf(
                        #[trigger] steps@[k],
                        exp.nb_levers_spec(),
                    ),
                -(t * crate::fx::FX_LIM) <= sum <= t * crate::fx::FX_LIM,
            decreases len_exp - t,
        {
            sum = sum + steps[t].reward;
            t = t + 1;
        }
        out.push((param, crate::fx::Frac { num: sum, den: (len_exp as i64) * crate::fx::FX_ONE }));
        param = dbl_sat(param, cap);
        x = x + 1;
    }
    Ok(out)
}

/// How many standard-normal deviates a full sequential run consumes:
/// per trial, the bandit's construction draws plus one step's draws for
/// each of the `len_exp` steps; saturating at the address-space limit.
pub open spec fn needed_normals_spec(
    n_pol: int,
    nb_tries: int,
    len_exp: int,
    problem: BanditInit,
) -> int {
    n_pol * nb_tries * (problem.init_normals_spec() + len_exp * problem.step_normals_spec())
}

/// Computes how many deviates `run_reprod_experiments` will consume, so a
/// caller can size the stream it supplies.
pub fn needed_normals(
    policies: &Vec<PolicyInit>,
    problem: &BanditInit,
    nb_tries: usize,
    len_exp: usize,
) -> (r: usize)
    requires
        policies@.len() <= 0x10_0000,
        nb_tries <= 0x10_0000,
        len_exp <= 0x10_0000,
        problem.nb_levers_spec() <= crate::estimators::LEVERS_CAP,
    ensures
        needed_normals_spec(policies@.len() as int, nb_tries as int, len_exp as int, *problem)
            <= usize::MAX ==> r == needed_normals_spec(
            policies@.len() as int,
            nb_tries as int,
            len_exp as int,
            *problem,
        ),
        needed_normals_spec(policies@.len() as int, nb_tries as int, len_exp as int, *problem)
            > usize::MAX ==> r == usize::MAX,
{
    let ini: usize = match problem {
        BanditInit::StationaryInit { nb_levers, .. } => *nb_levers,
        BanditInit::NonStationaryInit { .. } => 0,
    };
    let sps: usize = match problem {
        BanditInit::StationaryInit { .. } => 1,
        BanditInit::NonStationaryInit { nb_levers, .. } => 1 + *nb_levers,
    };
    proof {
        assert((len_exp as int) * (sps as int) <= 0x10_0000 * 0x1_0001) by (nonlinear_arith)
            requires
                0 <= len_exp <= 0x10_0000,
                0 <= sps <= 0x1_0001;
    }
    let per_trial: u128 = (ini as u128) + (len_exp as u128) * (sps as u128);
    proof {
        assert((policies@.len() as int) * (nb_tries as int) <= 0x10_0000 * 0x10_0000)
            by (nonlinear_arith)
            requires
                0 <= policies@.len() <= 0x10_0000,
                0 <= nb_tries <= 0x10_0000;
        assert((policies@.len() as int) * (nb_tries as int) * (per_trial as int) <= (0x10_0000
            * 0x10_0000) * 0x110_0010_0000) by (nonlinear_arith)
            requires
                0 <= (policies@.len() as int) * (nb_tries as int) <= 0x10_0000 * 0x10_0000,
                0 <= per_trial <= 0x110_0010_0000;
    }
    let total: u128 = (policies.len() as u128) * (nb_tries as u128) * per_trial;
    proof {
        assert(total == needed_normals_spec(
            policies@.len() as int,
            nb_tries as int,
            len_exp as int,
            *problem,
        )) by (nonlinear_arith)
            requires
                total == (policies@.len() as int) * (nb_tries as int) * (per_trial as int),
                per_trial == (problem.init_normals_spec() as int) + (len_exp as int) * (
                sps as int),
                ini == problem.init_normals_spec(),
                sps == problem.step_normals_spec(),
                needed_normals_spec(
                    policies@.len() as int,
                    nb_tries as int,
                    len_exp as int,
                    *problem,
                ) == (policies@.len() as int) * (nb_tries as int) * ((
                problem.init_normals_spec() as int) + (len_exp as int) * (
                problem.step_normals_spec() as int));
    }
    if total > (usize::MAX as u128) {
        usize::MAX
    } else {
        total as usize
    }
}

} // verus!
