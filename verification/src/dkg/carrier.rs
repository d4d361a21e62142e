//! The forms in which a share travels to its receiver.
use crate::curve::{Curve, Point, Scalar};
use crate::dkg::encryption::{
    is_key, law_decrypt_inverts_encrypt, law_share_decrypts, ElGamalBase, ElGamalCiphertext,
    EncryptedPedersenShare, RecoveredShareMessages,
};
use crate::dkg::pedersen::{PedersenGenerators, PedersenShare};
use rand_chacha::ChaCha20Rng;
use vstd::prelude::*;

verus! {

/// An encryption of a share, which its receiver opens to the messages of the share.
pub trait Carrier<C: Curve>: Copy {
    /// The share is encrypted to the key `pk`.
    spec fn carries(
        self,
        generators: PedersenGenerators<C>,
        base: ElGamalBase<C>,
        pk: int,
        share: PedersenShare<C>,
    ) -> bool;

    /// Of how many points a carrier is made.
    spec fn points() -> int;

    /// Decrypts the messages.
    fn open(&self, sk: &Scalar<C>) -> (r: RecoveredShareMessages<C>)
        ensures
            forall|
                generators: PedersenGenerators<C>,
                base: ElGamalBase<C>,
                pk: int,
                share: PedersenShare<C>,
            | #[trigger]
                self.carries(generators, base, pk, share) && is_key(base, sk@, pk) ==> r.of_share(
                    generators,
                    share,
                ),
    ;

    /// Of how many points a carrier is made.
    fn point_count() -> (r: usize)
        ensures
            r == Self::points(),
            r <= 8,
    ;
}

impl<C: Curve> Carrier<C> for EncryptedPedersenShare<C> {
    open spec fn carries(
        self,
        generators: PedersenGenerators<C>,
        base: ElGamalBase<C>,
        pk: int,
        share: PedersenShare<C>,
    ) -> bool {
        self.encrypts(generators, base, pk, share)
    }

    open spec fn points() -> int {
        8
    }

    fn open(&self, sk: &Scalar<C>) -> (r: RecoveredShareMessages<C>) {
        let r = self.decrypt(sk);
        assert forall|
            generators: PedersenGenerators<C>,
            base: ElGamalBase<C>,
            pk: int,
            share: PedersenShare<C>,
        | #[trigger]
            self.carries(generators, base, pk, share) && is_key(
                base,
                sk@,
                pk,
            ) implies r.of_share(generators, share) by {
            law_share_decrypts(*self, generators, base, share, sk@, pk);
        }
        r
    }

    fn point_count() -> (r: usize) {
        8
    }
}

/// A share of which only the first component and its mask are used, each encrypted under its
/// generator: the messages are `g1^sf` and `h1^sf'`.
#[derive(Debug)]
pub struct HalfShare<C: Curve> {
    pub sf: ElGamalCiphertext<C>,
    pub sf_prime: ElGamalCiphertext<C>,
}

impl<C: Curve> Copy for HalfShare<C> {

}

impl<C: Curve> Clone for HalfShare<C> {
    fn clone(&self) -> (r: Self)
        ensures
            r == *self,
    {
        *self
    }
}

impl<C: Curve> HalfShare<C> {
    /// Encrypts the first component of a share and its mask to the key `pk`.
    pub fn encrypt(
        generators: &PedersenGenerators<C>,
        base: &ElGamalBase<C>,
        pk: &Point<C>,
        share: &PedersenShare<C>,
        rng: &mut ChaCha20Rng,
    ) -> (ct: Self)
        requires
            share.sg@ == 0,
            share.sg_prime@ == 0,
        ensures
            ct.carries(*generators, *base, pk@, *share),
    {
        let m_sf = generators.g1.mul(&share.sf);
        let m_sf_prime = generators.h1.mul(&share.sf_prime);
        HalfShare {
            sf: ElGamalCiphertext::encrypt(base, pk, &m_sf, rng),
            sf_prime: ElGamalCiphertext::encrypt(base, pk, &m_sf_prime, rng),
        }
    }
}

impl<C: Curve> Carrier<C> for HalfShare<C> {
    open spec fn carries(
        self,
        generators: PedersenGenerators<C>,
        base: ElGamalBase<C>,
        pk: int,
        share: PedersenShare<C>,
    ) -> bool {
        let o = C::order();
        &&& self.sf.encrypts(base, pk, (generators.g1@ * share.sf@) % o)
        &&& self.sf_prime.encrypts(base, pk, (generators.h1@ * share.sf_prime@) % o)
        &&& share.sg@ == 0
        &&& share.sg_prime@ == 0
    }

    open spec fn points() -> int {
        4
    }

    fn open(&self, sk: &Scalar<C>) -> (r: RecoveredShareMessages<C>) {
        let r = RecoveredShareMessages {
            m_sf: self.sf.decrypt(sk),
            m_sf_prime: self.sf_prime.decrypt(sk),
            m_sg: Point::zero(),
            m_sg_prime: Point::zero(),
        };
        assert forall|
            generators: PedersenGenerators<C>,
            base: ElGamalBase<C>,
            pk: int,
            share: PedersenShare<C>,
        | #[trigger]
            self.carries(generators, base, pk, share) && is_key(
                base,
                sk@,
                pk,
            ) implies r.of_share(generators, share) by {
            let o = C::order();
            C::order_exceeds_words();
            let (f, fp) = (generators.g1@ * share.sf@, generators.h1@ * share.sf_prime@);
            crate::algebra::lemma_cong_mod(f, o);
            crate::algebra::lemma_cong_mod(fp, o);
            law_decrypt_inverts_encrypt(self.sf, base, sk@, pk, f % o);
            law_decrypt_inverts_encrypt(self.sf_prime, base, sk@, pk, fp % o);
            assert(generators.g2@ * 0 == 0 && generators.h2@ * 0 == 0) by (nonlinear_arith);
        }
        r
    }

    fn point_count() -> (r: usize) {
        4
    }
}

} // verus!
