//! The generators of one curve and the keys of its receivers.
use crate::curve::{Curve, Point};
use crate::dkg::encryption::{is_key, ElGamalBase, ElGamalKeypair};
use crate::dkg::errors::VssError;
use crate::dkg::pedersen::PedersenGenerators;
use crate::dkg::round::keys_match;
use crate::hash::derived;
use rand_chacha::ChaCha20Rng;
use vstd::prelude::*;

verus! {

/// The commitment generators over one curve, and the receivers' keys.
pub struct Suite<C: Curve> {
    pub generators: PedersenGenerators<C>,
    pub base: ElGamalBase<C>,
    pub elgamal: Vec<ElGamalKeypair<C>>,
    pub receiver_pks: Vec<Point<C>>,
}

impl<C: Curve> Suite<C> {
    /// There are `n` receivers, whose public keys are those of their secret keys.
    pub open spec fn ready(self, n: int) -> bool {
        &&& self.receiver_pks.len() == n
        &&& keys_match(self.base, self.elgamal@, self.receiver_pks@)
    }

    /// The generators are those hashed from their seeds.
    pub open spec fn hashed(self) -> bool {
        let tag = crate::dkg::pedersen::PERSONALIZATION@;
        &&& self.generators.g1@ == derived::<C>(tag, "pedersen-g1"@)
        &&& self.generators.g2@ == derived::<C>(tag, "pedersen-g2"@)
        &&& self.generators.h1@ == derived::<C>(tag, "pedersen-h1"@)
        &&& self.generators.h2@ == derived::<C>(tag, "pedersen-h2"@)
        &&& self.base.g@ == derived::<C>(
            crate::dkg::encryption::PERSONALIZATION@,
            "elgamal-base"@,
        )
    }

    /// The generators and the base, without receivers.
    pub fn setup() -> (r: Result<Self, VssError>)
        ensures
            r matches Ok(suite) && suite.hashed() && suite.ready(0),
    {
        let generators = PedersenGenerators::setup()?;
        let base = ElGamalBase::setup()?;
        Ok(Suite { generators, base, elgamal: Vec::new(), receiver_pks: Vec::new() })
    }

    /// Adds a receiver with a key drawn at random.
    pub fn enrol(&mut self, rng: &mut ChaCha20Rng)
        requires
            exists|n: int| old(self).ready(n),
        ensures
            final(self).ready(old(self).receiver_pks.len() + 1),
            final(self).generators == old(self).generators,
            final(self).base == old(self).base,
            final(self).elgamal@.drop_last() == old(self).elgamal@,
    {
        let key = ElGamalKeypair::generate(&self.base, rng);
        self.receiver_pks.push(key.pk);
        self.elgamal.push(key);
        assert forall|j: int| 0 <= j < self.elgamal.len() implies is_key(
            self.base,
            (#[trigger] self.elgamal[j]).sk@,
            self.receiver_pks[j]@,
        ) && self.elgamal[j].pk == self.receiver_pks[j] by {
            if j < old(self).elgamal.len() {
                assert(is_key(
                    old(self).base,
                    old(self).elgamal[j].sk@,
                    old(self).receiver_pks[j]@,
                ));
                assert(old(self).elgamal[j].pk == old(self).receiver_pks[j]);
            }
        }
        assert(self.elgamal@.drop_last() =~= old(self).elgamal@);
    }
}

} // verus!
