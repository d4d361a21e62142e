//! Verifiable share encryption: lifted ElGamal.
//!
//! A share component `s` under the generator `base` is encrypted to the key `pk = g^sk` as
//! `(R, C) = (g^r, base^s pk^r)`. The receiver recovers `base^s` as a group element, so that the
//! share check and the reconstruction take place in the exponent.
use crate::algebra::{
    cong, lemma_cong_add, lemma_cong_eq, lemma_cong_mod, lemma_cong_mul, lemma_cong_sub, poly,
};
use crate::curve::{exponents, Curve, Point, Scalar};
use crate::dkg::errors::VssError;
use crate::dkg::pedersen::{commitment_at, share_checks, PedersenGenerators, PedersenShare};
use crate::hash::{derived, hash_to_group};
use rand_chacha::ChaCha20Rng;
use vstd::prelude::*;

verus! {

/// Domain separator of the base.
pub const PERSONALIZATION: &'static str = "DMKGENCR";

/// The public base `g` of receiver keys, independent of the commitment generators.
#[derive(Debug)]
pub struct ElGamalBase<C: Curve> {
    pub g: Point<C>,
}

impl<C: Curve> Copy for ElGamalBase<C> {

}

impl<C: Curve> Clone for ElGamalBase<C> {
    fn clone(&self) -> (r: Self)
        ensures
            r == *self,
    {
        *self
    }
}

impl<C: Curve> ElGamalBase<C> {
    /// The base, hashed from its seed.
    pub fn setup() -> (r: Result<Self, VssError>)
        ensures
            r matches Ok(base) && base.g@ == derived::<C>(PERSONALIZATION@, "elgamal-base"@),
    {
        proof {
            reveal_strlit("DMKGENCR");
            broadcast use vstd::string::group_string_axioms;
            assert(PERSONALIZATION.is_ascii());
        }
        let g = hash_to_group(PERSONALIZATION.as_bytes(), "elgamal-base".as_bytes())?;
        Ok(ElGamalBase { g })
    }
}

/// A receiver's key pair, `pk = g^sk`.
#[derive(Debug)]
pub struct ElGamalKeypair<C: Curve> {
    pub sk: Scalar<C>,
    pub pk: Point<C>,
}

impl<C: Curve> Copy for ElGamalKeypair<C> {

}

impl<C: Curve> Clone for ElGamalKeypair<C> {
    fn clone(&self) -> (r: Self)
        ensures
            r == *self,
    {
        *self
    }
}

/// `pk` is the public key of `sk`.
pub open spec fn is_key<C: Curve>(base: ElGamalBase<C>, sk: int, pk: int) -> bool {
    pk == (base.g@ * sk) % C::order()
}

impl<C: Curve> ElGamalKeypair<C> {
    /// The key pair of a given secret key.
    pub fn from_secret(base: &ElGamalBase<C>, sk: Scalar<C>) -> (r: Self)
        ensures
            r.sk == sk,
            is_key(*base, r.sk@, r.pk@),
    {
        let pk = base.g.mul(&sk);
        ElGamalKeypair { sk, pk }
    }

    /// A key pair whose secret key is drawn at random.
    pub fn generate(base: &ElGamalBase<C>, rng: &mut ChaCha20Rng) -> (r: Self)
        ensures
            is_key(*base, r.sk@, r.pk@),
    {
        let sk = Scalar::random(rng);
        Self::from_secret(base, sk)
    }
}

/// A ciphertext `(R, C) = (g^r, m pk^r)`.
#[derive(Debug)]
pub struct ElGamalCiphertext<C: Curve> {
    pub r: Point<C>,
    pub c: Point<C>,
}

impl<C: Curve> Copy for ElGamalCiphertext<C> {

}

impl<C: Curve> Clone for ElGamalCiphertext<C> {
    fn clone(&self) -> (r: Self)
        ensures
            r == *self,
    {
        *self
    }
}

impl<C: Curve> ElGamalCiphertext<C> {
    /// The ciphertext of `m` to `pk` with the nonce `nonce`.
    pub open spec fn encrypts_with(
        self,
        base: ElGamalBase<C>,
        pk: int,
        m: int,
        nonce: int,
    ) -> bool {
        &&& self.r@ == (base.g@ * nonce) % C::order()
        &&& self.c@ == (m + pk * nonce) % C::order()
    }

    /// A ciphertext of `m` to `pk`, with some nonce.
    pub open spec fn encrypts(self, base: ElGamalBase<C>, pk: int, m: int) -> bool {
        exists|nonce: int| self.encrypts_with(base, pk, m, nonce)
    }

    /// What the secret key `sk` makes of the ciphertext.
    pub open spec fn decrypted(self, sk: int) -> int {
        (self.c@ - self.r@ * sk) % C::order()
    }

    /// The ciphertext of a group element with a given nonce.
    pub fn encrypt_with(
        base: &ElGamalBase<C>,
        pk: &Point<C>,
        m: &Point<C>,
        nonce: &Scalar<C>,
    ) -> (ct: Self)
        ensures
            ct.encrypts_with(*base, pk@, m@, nonce@),
    {
        let r = base.g.mul(nonce);
        let masked = pk.mul(nonce);
        let c = m.add(&masked);
        proof {
            let o = C::order();
            C::order_exceeds_words();
            lemma_cong_mod(pk@ * nonce@, o);
            lemma_cong_add(m@, m@, masked@, pk@ * nonce@, o);
        }
        ElGamalCiphertext { r, c }
    }

    /// A ciphertext of a group element, its nonce drawn at random.
    pub fn encrypt(
        base: &ElGamalBase<C>,
        pk: &Point<C>,
        m: &Point<C>,
        rng: &mut ChaCha20Rng,
    ) -> (ct: Self)
        ensures
            ct.encrypts(*base, pk@, m@),
    {
        let nonce = Scalar::random(rng);
        Self::encrypt_with(base, pk, m, &nonce)
    }

    /// The group element `C - sk R`.
    pub fn decrypt(&self, sk: &Scalar<C>) -> (m: Point<C>)
        ensures
            m@ == self.decrypted(sk@),
    {
        let mask = self.r.mul(sk);
        proof {
            let o = C::order();
            C::order_exceeds_words();
            lemma_cong_mod(self.r@ * sk@, o);
            lemma_cong_sub(self.c@, self.c@, mask@, self.r@ * sk@, o);
        }
        self.c.sub(&mask)
    }
}

/// Decryption with the matching secret key gives back what was encrypted.
pub proof fn law_decrypt_inverts_encrypt<C: Curve>(
    ct: ElGamalCiphertext<C>,
    base: ElGamalBase<C>,
    sk: int,
    pk: int,
    m: int,
)
    requires
        is_key(base, sk, pk),
        ct.encrypts(base, pk, m),
        0 <= m < C::order(),
    ensures
        ct.decrypted(sk) == m,
{
    let o = C::order();
    let g = base.g@;
    let k = choose|nonce: int| ct.encrypts_with(base, pk, m, nonce);
    C::order_exceeds_words();
    lemma_cong_mod(g * sk, o);
    lemma_cong_mod(g * k, o);
    lemma_cong_mod(m + pk * k, o);
    lemma_cong_mul(pk, g * sk, k, k, o);
    lemma_cong_mul(ct.r@, g * k, sk, sk, o);
    assert((g * sk) * k == (g * k) * sk) by (nonlinear_arith);
    lemma_cong_add(m, m, pk * k, (g * k) * sk, o);
    lemma_cong_sub(ct.c@, m + (g * k) * sk, ct.r@ * sk, (g * k) * sk, o);
    lemma_cong_mod(ct.c@ - ct.r@ * sk, o);
    lemma_cong_eq(ct.decrypted(sk), m, o);
}

/// Two keys decrypt a ciphertext to the same message exactly where `R`, raised to the difference of
/// the keys, is the neutral element.
pub proof fn law_keys_decrypt_alike<C: Curve>(ct: ElGamalCiphertext<C>, sk: int, other: int)
    ensures
        ct.decrypted(other) == ct.decrypted(sk) <==> cong(ct.r@ * (other - sk), 0, C::order()),
{
    let o = C::order();
    C::order_exceeds_words();
    let (a, b) = (ct.c@ - ct.r@ * sk, ct.c@ - ct.r@ * other);
    assert(ct.r@ * (other - sk) == ct.r@ * other - ct.r@ * sk) by (nonlinear_arith);
    assert(a - b == ct.r@ * (other - sk));
    if cong(a, b, o) {
        lemma_cong_sub(a, b, b, b, o);
    }
    if cong(a - b, 0, o) {
        lemma_cong_add(a - b, 0, b, b, o);
    }
}

/// No product is divisible by `m` but where a factor is, as with a prime.
pub open spec fn no_zero_divisors(m: int) -> bool {
    forall|a: int, b: int| cong(#[trigger] (a * b), 0, m) ==> cong(a, 0, m) || cong(b, 0, m)
}

/// In a group of prime order a wrong key gives a wrong message: what was encrypted to one key comes
/// out of no other secret key, unless the nonce's point `R` is the neutral element.
pub proof fn law_wrong_key_fails<C: Curve>(
    ct: ElGamalCiphertext<C>,
    base: ElGamalBase<C>,
    sk: int,
    other: int,
    pk: int,
    m: int,
)
    requires
        no_zero_divisors(C::order()),
        is_key(base, sk, pk),
        ct.encrypts(base, pk, m),
        0 <= m < C::order(),
        0 <= sk < C::order(),
        0 <= other < C::order(),
        other != sk,
        ct.r@ != 0,
    ensures
        ct.decrypted(other) != m,
{
    let o = C::order();
    C::order_exceeds_words();
    law_decrypt_inverts_encrypt(ct, base, sk, pk, m);
    law_keys_decrypt_alike(ct, sk, other);
    ct.r.lemma_range();
    if cong(ct.r@ * (other - sk), 0, o) {
        if cong(ct.r@, 0, o) {
            lemma_cong_eq(ct.r@, 0, o);
        } else {
            assert(cong(other - sk, 0, o));
            lemma_cong_add(other - sk, 0, sk, sk, o);
            lemma_cong_eq(other, sk, o);
        }
    }
}

/// A receiver's share, each component encrypted under its commitment generator: the messages are
/// `g1^sf`, `h1^sf'`, `g2^sg` and `h2^sg'`.
#[derive(Debug)]
pub struct EncryptedPedersenShare<C: Curve> {
    pub sf: ElGamalCiphertext<C>,
    pub sf_prime: ElGamalCiphertext<C>,
    pub sg: ElGamalCiphertext<C>,
    pub sg_prime: ElGamalCiphertext<C>,
}

impl<C: Curve> Copy for EncryptedPedersenShare<C> {

}

impl<C: Curve> Clone for EncryptedPedersenShare<C> {
    fn clone(&self) -> (r: Self)
        ensures
            r == *self,
    {
        *self
    }
}

/// The four group elements recovered from an [`EncryptedPedersenShare`].
#[derive(Debug)]
pub struct RecoveredShareMessages<C: Curve> {
    pub m_sf: Point<C>,
    pub m_sf_prime: Point<C>,
    pub m_sg: Point<C>,
    pub m_sg_prime: Point<C>,
}

impl<C: Curve> Copy for RecoveredShareMessages<C> {

}

impl<C: Curve> Clone for RecoveredShareMessages<C> {
    fn clone(&self) -> (r: Self)
        ensures
            r == *self,
    {
        *self
    }
}

impl<C: Curve> EncryptedPedersenShare<C> {
    /// Each component is a ciphertext to `pk` of the matching component of the share.
    pub open spec fn encrypts(
        self,
        generators: PedersenGenerators<C>,
        base: ElGamalBase<C>,
        pk: int,
        share: PedersenShare<C>,
    ) -> bool {
        let o = C::order();
        &&& self.sf.encrypts(base, pk, (generators.g1@ * share.sf@) % o)
        &&& self.sf_prime.encrypts(base, pk, (generators.h1@ * share.sf_prime@) % o)
        &&& self.sg.encrypts(base, pk, (generators.g2@ * share.sg@) % o)
        &&& self.sg_prime.encrypts(base, pk, (generators.h2@ * share.sg_prime@) % o)
    }

    /// Encrypts a share to the key `pk`.
    pub fn encrypt(
        generators: &PedersenGenerators<C>,
        base: &ElGamalBase<C>,
        pk: &Point<C>,
        share: &PedersenShare<C>,
        rng: &mut ChaCha20Rng,
    ) -> (ct: Self)
        ensures
            ct.encrypts(*generators, *base, pk@, *share),
    {
        let m_sf = generators.g1.mul(&share.sf);
        let m_sf_prime = generators.h1.mul(&share.sf_prime);
        let m_sg = generators.g2.mul(&share.sg);
        let m_sg_prime = generators.h2.mul(&share.sg_prime);
        EncryptedPedersenShare {
            sf: ElGamalCiphertext::encrypt(base, pk, &m_sf, rng),
            sf_prime: ElGamalCiphertext::encrypt(base, pk, &m_sf_prime, rng),
            sg: ElGamalCiphertext::encrypt(base, pk, &m_sg, rng),
            sg_prime: ElGamalCiphertext::encrypt(base, pk, &m_sg_prime, rng),
        }
    }

    /// Decrypts the four components.
    pub fn decrypt(&self, sk: &Scalar<C>) -> (r: RecoveredShareMessages<C>)
        ensures
            r.m_sf@ == self.sf.decrypted(sk@),
            r.m_sf_prime@ == self.sf_prime.decrypted(sk@),
            r.m_sg@ == self.sg.decrypted(sk@),
            r.m_sg_prime@ == self.sg_prime.decrypted(sk@),
    {
        RecoveredShareMessages {
            m_sf: self.sf.decrypt(sk),
            m_sf_prime: self.sf_prime.decrypt(sk),
            m_sg: self.sg.decrypt(sk),
            m_sg_prime: self.sg_prime.decrypt(sk),
        }
    }
}

impl<C: Curve> RecoveredShareMessages<C> {
    /// The messages are those of the share.
    pub open spec fn of_share(
        self,
        generators: PedersenGenerators<C>,
        share: PedersenShare<C>,
    ) -> bool {
        let o = C::order();
        &&& self.m_sf@ == (generators.g1@ * share.sf@) % o
        &&& self.m_sf_prime@ == (generators.h1@ * share.sf_prime@) % o
        &&& self.m_sg@ == (generators.g2@ * share.sg@) % o
        &&& self.m_sg_prime@ == (generators.h2@ * share.sg_prime@) % o
    }

    /// The share check in the exponent.
    pub open spec fn checks(self, commitments: Seq<int>, j: int) -> bool {
        cong(
            self.m_sf@ + self.m_sf_prime@ + self.m_sg@ + self.m_sg_prime@,
            poly(commitments, j),
            C::order(),
        )
    }

    /// Checks the recovered share against the commitments at receiver `j`.
    pub fn verify(&self, commitments: &[Point<C>], j: usize) -> (r: Result<(), VssError>)
        ensures
            match r {
                Ok(_) => self.checks(exponents(commitments@), j as int),
                Err(e) => !self.checks(exponents(commitments@), j as int) && e
                    == VssError::ShareCheck(j),
            },
    {
        let left = self.m_sf.add(&self.m_sf_prime);
        let right = self.m_sg.add(&self.m_sg_prime);
        let lhs = left.add(&right);
        let rhs = commitment_at(commitments, j);
        proof {
            let o = C::order();
            let (a, b) = (self.m_sf@ + self.m_sf_prime@, self.m_sg@ + self.m_sg_prime@);
            C::order_exceeds_words();
            lemma_cong_mod(a, o);
            lemma_cong_mod(b, o);
            lemma_cong_add(left@, a, right@, b, o);
        }
        if lhs == rhs {
            Ok(())
        } else {
            Err(VssError::ShareCheck(j))
        }
    }
}

/// The holder of the secret key recovers from an encrypted share the messages of that share.
pub proof fn law_share_decrypts<C: Curve>(
    ct: EncryptedPedersenShare<C>,
    generators: PedersenGenerators<C>,
    base: ElGamalBase<C>,
    share: PedersenShare<C>,
    sk: int,
    pk: int,
)
    requires
        is_key(base, sk, pk),
        ct.encrypts(generators, base, pk, share),
    ensures
        ct.sf.decrypted(sk) == (generators.g1@ * share.sf@) % C::order(),
        ct.sf_prime.decrypted(sk) == (generators.h1@ * share.sf_prime@) % C::order(),
        ct.sg.decrypted(sk) == (generators.g2@ * share.sg@) % C::order(),
        ct.sg_prime.decrypted(sk) == (generators.h2@ * share.sg_prime@) % C::order(),
{
    let o = C::order();
    C::order_exceeds_words();
    lemma_cong_mod(generators.g1@ * share.sf@, o);
    lemma_cong_mod(generators.h1@ * share.sf_prime@, o);
    lemma_cong_mod(generators.g2@ * share.sg@, o);
    lemma_cong_mod(generators.h2@ * share.sg_prime@, o);
    law_decrypt_inverts_encrypt(ct.sf, base, sk, pk, (generators.g1@ * share.sf@) % o);
    law_decrypt_inverts_encrypt(ct.sf_prime, base, sk, pk, (generators.h1@ * share.sf_prime@) % o);
    law_decrypt_inverts_encrypt(ct.sg, base, sk, pk, (generators.g2@ * share.sg@) % o);
    law_decrypt_inverts_encrypt(ct.sg_prime, base, sk, pk, (generators.h2@ * share.sg_prime@) % o);
}

/// In the exponent the messages of a share check exactly where the share does.
pub proof fn law_messages_check_as_share<C: Curve>(
    messages: RecoveredShareMessages<C>,
    generators: PedersenGenerators<C>,
    share: PedersenShare<C>,
    commitments: Seq<int>,
    j: int,
)
    requires
        messages.of_share(generators, share),
    ensures
        messages.checks(commitments, j) <==> share_checks(generators, commitments, j, share),
{
    let o = C::order();
    C::order_exceeds_words();
    let (a, b) = (generators.g1@ * share.sf@, generators.h1@ * share.sf_prime@);
    let (c, d) = (generators.g2@ * share.sg@, generators.h2@ * share.sg_prime@);
    lemma_cong_mod(a, o);
    lemma_cong_mod(b, o);
    lemma_cong_mod(c, o);
    lemma_cong_mod(d, o);
    lemma_cong_add(a % o, a, b % o, b, o);
    lemma_cong_add(a % o + b % o, a + b, c % o, c, o);
    lemma_cong_add(a % o + b % o + c % o, a + b + c, d % o, d, o);
}

} // verus!
