//! Randomness for the simulation.
//!
//! Integer draws come from `rand`'s standard generator through trusted
//! wrappers. Gaussian deviates cannot be produced inside the verified core
//! (it holds no floating point), so a `Randomness` value also carries a
//! stream of standard-normal deviates in fixed-point form, supplied by the
//! caller, and hands them out one at a time; a depleted stream yields 0.
//! Every draw of a trial goes through the one `Randomness` value handed to
//! it, so a run is a deterministic function of the seed and the stream.

use vstd::prelude::*;
use rand::Rng;
use rand::SeedableRng;
use rand::rngs::StdRng;
use crate::fx::z_wf;
use crate::fx::clamp_z_spec;
use crate::fx::clamp_z;

verus! {

#[verifier::external_type_specification]
#[verifier::external_body]
pub struct ExStdRng(StdRng);

/// Relies on rand's `StdRng::seed_from_u64`: builds a generator from a
/// seed. Nothing is assumed of the state it produces.
#[verifier::external_body]
fn seed_std_rng(seed: u64) -> StdRng {
    StdRng::seed_from_u64(seed)
}

/// Relies on rand's `StdRng::from_entropy`: builds a generator from fresh
/// operating-system entropy. Nothing is assumed of the state it produces.
#[verifier::external_body]
fn entropy_std_rng() -> StdRng {
    StdRng::from_entropy()
}

/// Relies on rand's `Rng::gen_range` on the range `0..n`: the range is not
/// empty since `n >= 1` (an empty range would panic), and the draw lies
/// within the range. Nothing is assumed about its distribution.
#[verifier::external_body]
fn rng_below(rng: &mut StdRng, n: u64) -> (r: u64)
    requires
        n >= 1,
    ensures
        r < n,
{
    rng.gen_range(0..n)
}

/// The deviate that the `k`-th draw from position `pos` of the stream
/// `ns` yields: the stored value clamped into range, or 0 once the stream
/// is exhausted.
pub open spec fn stream_z(ns: Seq<i64>, pos: int, k: int) -> int {
    if pos + k < ns.len() {
        clamp_z_spec(ns[pos + k] as int)
    } else {
        0
    }
}

/// Where the stream cursor stands after `k` draws from position `pos`.
pub open spec fn stream_adv(ns: Seq<i64>, pos: int, k: int) -> int {
    if pos + k <= ns.len() {
        pos + k
    } else {
        ns.len() as int
    }
}

/// A source of randomness for one sequential run: an integer generator and
/// a caller-supplied stream of standard-normal deviates (fixed-point).
pub struct Randomness {
    rng: StdRng,
    normals: Vec<i64>,
    pos: usize,
}

impl Randomness {
    /// The stream of deviates this source was built with.
    pub closed spec fn normals_spec(self) -> Seq<i64> {
        self.normals@
    }

    /// How many deviates have been consumed.
    pub closed spec fn pos_spec(self) -> int {
        self.pos as int
    }

    /// The cursor never passes the end of the stream.
    pub open spec fn wf(self) -> bool {
        self.pos_spec() <= self.normals_spec().len()
    }

    /// A source seeded deterministically; same seed, same draws.
    pub fn new(seed: u64, normals: Vec<i64>) -> (r: Self)
        ensures
            r.normals_spec() == normals@,
            r.pos_spec() == 0,
            r.wf(),
    {
        Randomness { rng: seed_std_rng(seed), normals, pos: 0 }
    }

    /// A source seeded from operating-system entropy.
    pub fn from_entropy(normals: Vec<i64>) -> (r: Self)
        ensures
            r.normals_spec() == normals@,
            r.pos_spec() == 0,
            r.wf(),
    {
        Randomness { rng: entropy_std_rng(), normals, pos: 0 }
    }

    /// The next standard-normal deviate, clamped into the accepted range;
    /// 0 once the stream is exhausted.
    pub fn next_normal(&mut self) -> (z: i64)
        requires
            old(self).wf(),
        ensures
            z_wf(z),
            final(self).wf(),
            final(self).normals_spec() == old(self).normals_spec(),
            z == stream_z(old(self).normals_spec(), old(self).pos_spec(), 0),
            final(self).pos_spec() == stream_adv(old(self).normals_spec(), old(self).pos_spec(), 1),
    {
        if self.pos < self.normals.len() {
            let z = clamp_z(self.normals[self.pos]);
            self.pos = self.pos + 1;
            z
        } else {
            0
        }
    }

    /// A uniform draw below `n`; the deviate stream is untouched.
    pub fn next_below(&mut self, n: u64) -> (r: u64)
        requires
            n >= 1,
            old(self).wf(),
        ensures
            r < n,
            final(self).wf(),
            final(self).normals_spec() == old(self).normals_spec(),
            final(self).pos_spec() == old(self).pos_spec(),
    {
        rng_below(&mut self.rng, n)
    }
}

} // verus!
