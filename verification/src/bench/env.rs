//! What the parties of a run have in common.
use crate::bench::protocol::Layer;
use crate::bls::Bls12381;
use crate::curve::Curve;
use crate::dkg::errors::VssError;
use crate::dkg::neji::NejiGenerators;
use crate::dkg::params::{next_power_of_two, pads_to};
use crate::dkg::suite::Suite;
use crate::hash::derived;
use rand_chacha::ChaCha20Rng;
use std::collections::BTreeMap;
use vstd::prelude::*;

verus! {

broadcast use {vstd::laws_cmp::group_laws_cmp, vstd::std_specs::btree::group_btree_axioms};

/// The environment of a benchmark: a suite on the pairing curve, and one on the curve `J` for the
/// protocols that need no pairing.
pub struct Env<J: Curve> {
    pub n: usize,
    pub degree: usize,
    pub samples: usize,
    /// Size of the evaluation domain of the layer for `z`, `n` padded to a power of two.
    pub domain_size: usize,
    pub g1: Suite<Bls12381>,
    pub jj: Suite<J>,
    pub jj_neji: NejiGenerators<J>,
    /// The layer each dishonest dealer corrupts.
    pub malice: BTreeMap<usize, Layer>,
}

impl<J: Curve> Env<J> {
    /// There are `n` receivers in both suites.
    pub open spec fn wf(self) -> bool {
        &&& self.g1.ready(self.n as int)
        &&& self.jj.ready(self.n as int)
        &&& pads_to(self.n as int, self.domain_size as int)
        &&& self.n <= usize::MAX / 2
    }

    /// Sets up the generators and draws the receivers' keys.
    pub fn build(
        n: usize,
        degree: usize,
        samples: usize,
        malice: BTreeMap<usize, Layer>,
        rng: &mut ChaCha20Rng,
    ) -> (r: Result<Self, VssError>)
        requires
            n <= usize::MAX / 2,
        ensures
            r matches Ok(env) && {
                &&& env.wf()
                &&& env.n == n
                &&& env.degree == degree
                &&& env.samples == samples
                &&& env.malice == malice
                &&& env.g1.hashed()
                &&& env.jj.hashed()
                &&& env.jj_neji.g@ == derived::<J>(
                    crate::dkg::neji::PERSONALIZATION@,
                    "neji-g"@,
                )
                &&& env.jj_neji.h@ == derived::<J>(
                    crate::dkg::neji::PERSONALIZATION@,
                    "neji-h"@,
                )
            },
    {
        let mut g1: Suite<Bls12381> = Suite::setup()?;
        let mut jj: Suite<J> = Suite::setup()?;
        let jj_neji = NejiGenerators::setup()?;
        for i in 0..n
            invariant
                g1.ready(i as int),
                jj.ready(i as int),
                g1.hashed(),
                jj.hashed(),
        {
            g1.enrol(rng);
            jj.enrol(rng);
        }
        let domain_size = next_power_of_two(n);
        Ok(Env { n, degree, samples, domain_size, g1, jj, jj_neji, malice })
    }
}

} // verus!
