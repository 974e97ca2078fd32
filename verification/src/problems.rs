//! Bandit environments: the reward-generating processes.
//!
//! A stationary bandit draws each lever's mean once at construction and
//! keeps its optimal-lever set fixed; a non-stationary bandit starts all
//! levers equal and moves every mean by an independent random-walk
//! increment on each pull, recomputing the optimal set afterwards.
//!
//! A reward for a lever with mean `m` and standard deviation `s` is
//! `m + s * z`, where `z` is the next standard-normal deviate of the
//! `Randomness` value handed in; all arithmetic is exact fixed-point with
//! the documented truncation and clamping.

use vstd::prelude::*;
use crate::fx::fx_wf;
use crate::fx::clamp_fx_spec;
use crate::fx::clamp_fx;
use crate::fx::fx_mul_spec;
use crate::fx::fx_mul;
use crate::helper::fx_fracs;
use crate::helper::fx_to_fracs;
use crate::helper::contains_usize;
use crate::helper::indices_max;
use crate::helper::max_indices_post;
use crate::helper::is_max_pos;
use crate::rng::Randomness;
use crate::rng::stream_z;
use crate::rng::stream_adv;
use crate::estimators::LEVERS_CAP;
use crate::ConfigError;

verus! {

/// How to build a bandit. `init_vals` is the pair (mean, standard
/// deviation) of the construction distribution; `walk` the pair (mean,
/// standard deviation) of each per-pull random-walk increment.
#[derive(Clone, Copy, Debug)]
pub enum BanditInit {
    StationaryInit { nb_levers: usize, init_vals: (i64, i64) },
    NonStationaryInit { nb_levers: usize, init_vals: (i64, i64), walk: (i64, i64) },
}

impl BanditInit {
    /// The lever count this configuration asks for.
    pub open spec fn nb_levers_spec(self) -> usize {
        match self {
            BanditInit::StationaryInit { nb_levers, .. } => nb_levers,
            BanditInit::NonStationaryInit { nb_levers, .. } => nb_levers,
        }
    }

    /// Why this configuration must be refused, if it must be: no levers,
    /// too many levers, a scalar outside the representable range, or a
    /// negative standard deviation.
    pub open spec fn check_spec(self) -> Result<(), ConfigError> {
        if self.nb_levers_spec() < 1 {
            Err(ConfigError::ZeroLevers)
        } else if self.nb_levers_spec() > LEVERS_CAP {
            Err(ConfigError::TooManyLevers)
        } else {
            match self {
                BanditInit::StationaryInit { init_vals, .. } => if !fx_wf(init_vals.0) || !fx_wf(
                    init_vals.1,
                ) {
                    Err(ConfigError::ScaleOutOfRange)
                } else if init_vals.1 < 0 {
                    Err(ConfigError::NegativeStd)
                } else {
                    Ok(())
                },
                BanditInit::NonStationaryInit { init_vals, walk, .. } => if !fx_wf(init_vals.0)
                    || !fx_wf(init_vals.1) || !fx_wf(walk.0) || !fx_wf(walk.1) {
                    Err(ConfigError::ScaleOutOfRange)
                } else if init_vals.1 < 0 || walk.1 < 0 {
                    Err(ConfigError::NegativeStd)
                } else {
                    Ok(())
                },
            }
        }
    }

    pub open spec fn valid(self) -> bool {
        self.check_spec() is Ok
    }

    /// Checks the configuration, reporting the first fault found.
    pub fn check(&self) -> (r: Result<(), ConfigError>)
        ensures
            r == self.check_spec(),
    {
        let nb: usize = match self {
            BanditInit::StationaryInit { nb_levers, .. } => *nb_levers,
            BanditInit::NonStationaryInit { nb_levers, .. } => *nb_levers,
        };
        if nb < 1 {
            return Err(ConfigError::ZeroLevers);
        }
        if nb > LEVERS_CAP {
            return Err(ConfigError::TooManyLevers);
        }
        match self {
            BanditInit::StationaryInit { init_vals, .. } => {
                if !crate::fx::fx_wf_exec(init_vals.0) || !crate::fx::fx_wf_exec(init_vals.1) {
                    Err(ConfigError::ScaleOutOfRange)
                } else if init_vals.1 < 0 {
                    Err(ConfigError::NegativeStd)
                } else {
                    Ok(())
                }
            },
            BanditInit::NonStationaryInit { init_vals, walk, .. } => {
                if !crate::fx::fx_wf_exec(init_vals.0) || !crate::fx::fx_wf_exec(init_vals.1)
                    || !crate::fx::fx_wf_exec(walk.0) || !crate::fx::fx_wf_exec(walk.1) {
                    Err(ConfigError::ScaleOutOfRange)
                } else if init_vals.1 < 0 || walk.1 < 0 {
                    Err(ConfigError::NegativeStd)
                } else {
                    Ok(())
                }
            },
        }
    }

    /// How many standard-normal deviates building this bandit consumes.
    pub open spec fn init_normals_spec(self) -> usize {
        match self {
            BanditInit::StationaryInit { nb_levers, .. } => nb_levers,
            BanditInit::NonStationaryInit { .. } => 0,
        }
    }

    /// How many standard-normal deviates one pull of this bandit consumes.
    pub open spec fn step_normals_spec(self) -> int {
        match self {
            BanditInit::StationaryInit { .. } => 1int,
            BanditInit::NonStationaryInit { nb_levers, .. } => 1 + nb_levers as int,
        }
    }

    /// How many deviates building the bandit consumes.
    pub fn init_normals(&self) -> (r: usize)
        ensures
            r == self.init_normals_spec(),
    {
        match self {
            BanditInit::StationaryInit { nb_levers, .. } => *nb_levers,
            BanditInit::NonStationaryInit { .. } => 0,
        }
    }

    /// How many deviates one pull consumes.
    pub fn step_normals(&self) -> (r: usize)
        requires
            self.nb_levers_spec() <= LEVERS_CAP,
        ensures
            r == self.step_normals_spec(),
    {
        match self {
            BanditInit::StationaryInit { .. } => 1,
            BanditInit::NonStationaryInit { nb_levers, .. } => 1 + *nb_levers,
        }
    }
}

/// A stationary bandit: fixed per-lever means, one shared standard
/// deviation, and the fixed set of optimal levers.
pub struct BanditStationary {
    pub means: Vec<i64>,
    pub std: i64,
    pub optimals: Vec<usize>,
}

impl BanditStationary {
    /// Consistent state: at least one lever, every scalar in range, a
    /// non-negative standard deviation, and `optimals` exactly the
    /// positions of maximal means.
    pub open spec fn wf(self) -> bool {
        &&& self.means@.len() >= 1
        &&& forall|i: int| 0 <= i < self.means@.len() ==> fx_wf(#[trigger] self.means@[i])
        &&& 0 <= self.std
        &&& fx_wf(self.std)
        &&& max_indices_post(fx_fracs(self.means@), self.optimals@)
    }

    /// Draws one reward; the bandit itself never changes.
    pub fn pull(&mut self, lever: usize, rand: &mut Randomness) -> (reward: i64)
        requires
            old(self).wf(),
            lever < old(self).means@.len(),
            old(rand).wf(),
        ensures
            *final(self) == *old(self),
            final(rand).wf(),
            fx_wf(reward),
            final(rand).normals_spec() == old(rand).normals_spec(),
            final(rand).pos_spec() == stream_adv(
                old(rand).normals_spec(),
                old(rand).pos_spec(),
                1,
            ),
            reward == reward_spec(
                old(self).means@[lever as int],
                old(self).std,
                stream_z(old(rand).normals_spec(), old(rand).pos_spec(), 0),
            ),
    {
        let z: i64 = rand.next_normal();
        let noise: i64 = fx_mul(self.std, z);
        clamp_fx(self.means[lever] + noise)
    }
}

/// A non-stationary bandit: per-lever means that drift by a random walk,
/// one shared standard deviation, the walk parameters, and the current
/// set of optimal levers.
pub struct BanditNonStationary {
    pub means: Vec<i64>,
    pub std: i64,
    pub walk: (i64, i64),
    pub optimals: Vec<usize>,
}

impl BanditNonStationary {
    /// Consistent state, as for the stationary bandit, with the walk
    /// parameters in range as well.
    pub open spec fn wf(self) -> bool {
        &&& self.means@.len() >= 1
        &&& forall|i: int| 0 <= i < self.means@.len() ==> fx_wf(#[trigger] self.means@[i])
        &&& 0 <= self.std
        &&& fx_wf(self.std)
        &&& fx_wf(self.walk.0)
        &&& 0 <= self.walk.1
        &&& fx_wf(self.walk.1)
        &&& max_indices_post(fx_fracs(self.means@), self.optimals@)
    }

    /// Draws one reward from the mean before any move, then walks every
    /// mean by its own increment and recomputes the optimal set.
    pub fn pull(&mut self, lever: usize, rand: &mut Randomness) -> (reward: i64)
        requires
            old(self).wf(),
            lever < old(self).means@.len(),
            old(rand).wf(),
        ensures
            final(self).wf(),
            final(rand).wf(),
            fx_wf(reward),
            final(rand).normals_spec() == old(rand).normals_spec(),
            final(rand).pos_spec() == stream_adv(
                old(rand).normals_spec(),
                old(rand).pos_spec(),
                1 + old(self).means@.len() as int,
            ),
            reward == reward_spec(
                old(self).means@[lever as int],
                old(self).std,
                stream_z(old(rand).normals_spec(), old(rand).pos_spec(), 0),
            ),
            final(self).std == old(self).std,
            final(self).walk == old(self).walk,
            final(self).means@ == Seq::new(
                old(self).means@.len(),
                |i: int| walk_next_spec(
                    old(self).means@[i],
                    old(self).walk,
                    stream_z(old(rand).normals_spec(), old(rand).pos_spec(), 1 + i),
                ) as i64,
            ),
            max_indices_post(fx_fracs(final(self).means@), final(self).optimals@),
    {
        let ghost ns = rand.normals_spec();
        let ghost pos0 = rand.pos_spec();
        let z: i64 = rand.next_normal();
        let noise: i64 = fx_mul(self.std, z);
        let reward: i64 = clamp_fx(self.means[lever] + noise);
        let n: usize = self.means.len();
        let ghost old_means = self.means@;
        let mut i: usize = 0;
        while i < n
            invariant
                n == self.means@.len(),
                i <= n,
                old_means.len() == n,
                rand.wf(),
                rand.normals_spec() == ns,
                rand.pos_spec() == stream_adv(ns, pos0, 1 + i),
                self.std == old(self).std,
                self.walk == old(self).walk,
                self.optimals@ == old(self).optimals@,
                fx_wf(self.walk.0),
                0 <= self.walk.1,
                fx_wf(self.walk.1),
                forall|k: int| i <= k < n ==> self.means@[k] == old_means[k],
                forall|k: int|
                    0 <= k < i ==> self.means@[k] == walk_next_spec(
                        old_means[k],
                        self.walk,
                        stream_z(ns, pos0, 1 + k),
                    ),
                forall|k: int| 0 <= k < n ==> fx_wf(#[trigger] self.means@[k]),
            decreases n - i,
        {
            let zi: i64 = rand.next_normal();
            let inc: i64 = fx_mul(self.walk.1, zi);
            let moved: i64 = clamp_fx(self.means[i] + self.walk.0 + inc);
            self.means.set(i, moved);
            i = i + 1;
        }
        let fracs = fx_to_fracs(&self.means);
        self.optimals = indices_max(&fracs);
        proof {
            assert(self.means@ =~= Seq::new(
                old_means.len(),
                |k: int| walk_next_spec(old_means[k], self.walk, stream_z(ns, pos0, 1 + k)) as i64,
            ));
        }
        reward
    }
}

/// A bandit environment: one of the two variants, dispatched exhaustively.
pub enum Bandit {
    Stationary(BanditStationary),
    NonStationary(BanditNonStationary),
}

/// The reward a pull yields: the lever's current mean plus the standard
/// deviation times the drawn deviate, clamped into range.
pub open spec fn reward_spec(mean: i64, std: i64, z: int) -> int {
    clamp_fx_spec(mean + fx_mul_spec(std, z as i64))
}

/// One random-walk move of a mean: the increment `walk_mean + walk_std *
/// z` is added and the result clamped into range.
pub open spec fn walk_next_spec(mean: i64, walk: (i64, i64), z: int) -> int {
    clamp_fx_spec(mean + walk.0 + fx_mul_spec(walk.1, z as i64))
}

impl Bandit {
    pub open spec fn wf(self) -> bool {
        match self {
            Bandit::Stationary(b) => b.wf(),
            Bandit::NonStationary(b) => b.wf(),
        }
    }

    pub open spec fn nb_levers_spec(self) -> usize {
        match self {
            Bandit::Stationary(b) => b.means.len(),
            Bandit::NonStationary(b) => b.means.len(),
        }
    }

    pub open spec fn means_spec(self) -> Seq<i64> {
        match self {
            Bandit::Stationary(b) => b.means@,
            Bandit::NonStationary(b) => b.means@,
        }
    }

    pub open spec fn std_spec(self) -> i64 {
        match self {
            Bandit::Stationary(b) => b.std,
            Bandit::NonStationary(b) => b.std,
        }
    }

    /// How one pull changes the bandit and what reward it yields: the
    /// reward uses the mean before any move; a stationary bandit does not
    /// change; a non-stationary bandit walks every mean with one deviate
    /// each and recomputes its optimal set.
    pub open spec fn use_lever_post(
        pre: Bandit,
        post: Bandit,
        ns: Seq<i64>,
        pos: int,
        lever: int,
        reward: i64,
    ) -> bool {
        &&& reward == reward_spec(pre.means_spec()[lever], pre.std_spec(), stream_z(ns, pos, 0))
        &&& match (pre, post) {
            (Bandit::Stationary(p), Bandit::Stationary(q)) => q == p,
            (Bandit::NonStationary(p), Bandit::NonStationary(q)) => {
                &&& q.std == p.std
                &&& q.walk == p.walk
                &&& q.means@ == Seq::new(
                    p.means@.len(),
                    |i: int| walk_next_spec(p.means@[i], p.walk, stream_z(ns, pos, 1 + i)) as i64,
                )
                &&& max_indices_post(fx_fracs(q.means@), q.optimals@)
            },
            _ => false,
        }
    }

    /// How many deviates one pull consumes.
    pub open spec fn step_normals_spec(self) -> int {
        match self {
            Bandit::Stationary(_) => 1int,
            Bandit::NonStationary(b) => 1 + b.means@.len() as int,
        }
    }

    /// Pulls a lever: draws the reward from the lever's distribution and,
    /// for the non-stationary variant, walks every mean and recomputes
    /// the optimal set.
    pub fn use_lever(&mut self, lever: usize, rand: &mut Randomness) -> (reward: i64)
        requires
            old(self).wf(),
            lever < old(self).nb_levers_spec(),
            old(rand).wf(),
        ensures
            final(self).wf(),
            final(rand).wf(),
            fx_wf(reward),
            final(self).nb_levers_spec() == old(self).nb_levers_spec(),
            Bandit::use_lever_post(
                *old(self),
                *final(self),
                old(rand).normals_spec(),
                old(rand).pos_spec(),
                lever as int,
                reward,
            ),
            final(rand).normals_spec() == old(rand).normals_spec(),
            final(rand).pos_spec() == stream_adv(
                old(rand).normals_spec(),
                old(rand).pos_spec(),
                old(self).step_normals_spec(),
            ),
    {
        match self {
            Bandit::Stationary(b) => b.pull(lever, rand),
            Bandit::NonStationary(b) => b.pull(lever, rand),
        }
    }

    /// Whether the lever is currently optimal: whether its mean attains
    /// the maximum over all levers.
    pub fn is_optimal(&self, lever: usize) -> (r: bool)
        requires
            self.wf(),
            lever < self.nb_levers_spec(),
        ensures
            r == is_max_pos(fx_fracs(self.means_spec()), lever as int),
    {
        let r = match self {
            Bandit::Stationary(b) => contains_usize(&b.optimals, lever),
            Bandit::NonStationary(b) => contains_usize(&b.optimals, lever),
        };
        proof {
            let s = fx_fracs(self.means_spec());
            let opts = match self {
                Bandit::Stationary(b) => b.optimals@,
                Bandit::NonStationary(b) => b.optimals@,
            };
            if opts.contains(lever) {
                let k = choose|k: int| 0 <= k < opts.len() && opts[k] == lever;
                assert(is_max_pos(s, opts[k] as int));
            }
        }
        r
    }
}

/// The shape a configuration gives a fresh bandit. The sampled means of
/// a stationary bandit depend also on the deviates drawn, so they are
/// stated at the construction site, not here.
pub open spec fn bandit_fresh_shape(b: Bandit, init: BanditInit) -> bool {
    match (init, b) {
        (BanditInit::StationaryInit { nb_levers, init_vals }, Bandit::Stationary(sb)) => {
            &&& sb.means@.len() == nb_levers
            &&& sb.std == init_vals.1
        },
        (
            BanditInit::NonStationaryInit { nb_levers, init_vals, walk },
            Bandit::NonStationary(nsb),
        ) => {
            &&& nsb.means@.len() == nb_levers
            &&& nsb.std == init_vals.1
            &&& nsb.walk == walk
            &&& nsb.means@ == Seq::new(nb_levers as nat, |i: int| init_vals.0)
        },
        _ => false,
    }
}

/// Builds the bandit a configuration describes, refusing an invalid
/// configuration. A stationary bandit draws each lever's mean as
/// `init_mean + init_std * z` from the deviate stream and fixes its
/// optimal set once; a non-stationary bandit starts every mean at
/// `init_mean`, with every lever optimal.
pub fn create_bandit(init: &BanditInit, rand: &mut Randomness) -> (r: Result<Bandit, ConfigError>)
    requires
        old(rand).wf(),
    ensures
        final(rand).wf(),
        final(rand).normals_spec() == old(rand).normals_spec(),
        match r {
            Ok(b) => init.valid() && b.wf() && b.nb_levers_spec() == init.nb_levers_spec()
                && bandit_fresh_shape(b, *init) && final(rand).pos_spec() == stream_adv(
                old(rand).normals_spec(),
                old(rand).pos_spec(),
                init.init_normals_spec() as int,
            ) && match (init, b) {
                (BanditInit::StationaryInit { nb_levers, init_vals }, Bandit::Stationary(sb)) => {
                    &&& sb.std == init_vals.1
                    &&& sb.means@ == Seq::new(
                        *nb_levers as nat,
                        |i: int| clamp_fx_spec(
                            init_vals.0 + fx_mul_spec(
                                init_vals.1,
                                stream_z(
                                    old(rand).normals_spec(),
                                    old(rand).pos_spec(),
                                    i,
                                ) as i64,
                            ),
                        ) as i64,
                    )
                },
                (
                    BanditInit::NonStationaryInit { nb_levers, init_vals, walk },
                    Bandit::NonStationary(nb),
                ) => {
                    &&& nb.std == init_vals.1
                    &&& nb.walk == walk
                    &&& nb.means@ == Seq::new(*nb_levers as nat, |i: int| init_vals.0)
                },
                _ => false,
            },
            Err(e) => init.check_spec() == Err::<(), ConfigError>(e) && final(rand).pos_spec()
                == old(rand).pos_spec(),
        },
{
    if let Err(e) = init.check() {
        return Err(e);
    }
    match init {
        BanditInit::StationaryInit { nb_levers, init_vals } => {
            let ghost ns = rand.normals_spec();
            let ghost pos0 = rand.pos_spec();
            let n: usize = *nb_levers;
            let mut means: Vec<i64> = Vec::new();
            let mut i: usize = 0;
            while i < n
                invariant
                    i <= n,
                    rand.wf(),
                    rand.normals_spec() == ns,
                    rand.pos_spec() == stream_adv(ns, pos0, i as int),
                    fx_wf(init_vals.0),
                    fx_wf(init_vals.1),
                    means@.len() == i,
                    forall|k: int|
                        0 <= k < i ==> means@[k] == clamp_fx_spec(
                            init_vals.0 + fx_mul_spec(init_vals.1, stream_z(ns, pos0, k) as i64),
                        ),
                    forall|k: int| 0 <= k < i ==> fx_wf(#[trigger] means@[k]),
                decreases n - i,
            {
                let z: i64 = rand.next_normal();
                let noise: i64 = fx_mul(init_vals.1, z);
                let m: i64 = clamp_fx(init_vals.0 + noise);
                means.push(m);
                i = i + 1;
            }
            let fracs = fx_to_fracs(&means);
            let optimals = indices_max(&fracs);
            proof {
                assert(means@ =~= Seq::new(
                    n as nat,
                    |i: int| clamp_fx_spec(
                        init_vals.0 + fx_mul_spec(init_vals.1, stream_z(ns, pos0, i) as i64),
                    ) as i64,
                ));
            }
            Ok(Bandit::Stationary(BanditStationary { means, std: init_vals.1, optimals }))
        },
        BanditInit::NonStationaryInit { nb_levers, init_vals, walk } => {
            let n: usize = *nb_levers;
            let mut means: Vec<i64> = Vec::new();
            let mut optimals: Vec<usize> = Vec::new();
            let mut i: usize = 0;
            while i < n
                invariant
                    i <= n,
                    means@ =~= Seq::new(i as nat, |k: int| init_vals.0),
                    optimals@ =~= Seq::new(i as nat, |k: int| k as usize),
                decreases n - i,
            {
                means.push(init_vals.0);
                optimals.push(i);
                i = i + 1;
            }
            proof {
                assert(means@ =~= Seq::new(n as nat, |k: int| init_vals.0));
                assert(optimals@ =~= Seq::new(n as nat, |k: int| k as usize));
                let s = fx_fracs(means@);
                assert forall|k: int| 0 <= k < optimals@.len() implies is_max_pos(
                    s,
                    #[trigger] optimals@[k] as int,
                ) by {
                    assert(optimals@[k] as int == k);
                }
                assert forall|idx: int|
                    0 <= idx < s.len() && is_max_pos(s, idx) implies optimals@.contains(
                    idx as usize,
                ) by {
                    assert(optimals@[idx] == idx as usize);
                }
            }
            Ok(
                Bandit::NonStationary(
                    BanditNonStationary { means, std: init_vals.1, walk: *walk, optimals },
                ),
            )
        },
    }
}

} // verus!
