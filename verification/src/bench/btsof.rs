//! The five-secret key generation whose carrier of `z` commits with two generators only.
use crate::algebra::{lemma_cong_add, lemma_cong_mod, lemma_cong_small, lemma_poly_zeros, poly};
use crate::bench::env::Env;
use crate::bench::five::{conclude, key_of, payload_bytes, Contribution, Contributions, FiveRun};
use crate::bench::malice::{lemma_ran, ran, shift_in, tampering_at, tampering_of, Tampering};
use crate::bench::protocol::Layer;
use crate::collections::keys_ascending;
use crate::curve::{Curve, Point, Scalar};
use crate::dkg::carrier::{Carrier, HalfShare};
use crate::dkg::errors::VssError;
use crate::dkg::mss::MSSPolynomial;
use crate::dkg::pedersen::{
    is_share, PedersenDealerSecrets, PedersenDistribution, PedersenGenerators, PedersenShare,
};
use crate::dkg::params::neutral_count;
use crate::dkg::round::{is_share_but_first, Dealing};
use crate::dkg::suite::Suite;
use crate::dkg::tampering::{draw_offsets, offset_at, shift_value};
use rand_chacha::ChaCha20Rng;
use std::collections::BTreeMap;
use vstd::prelude::*;

verus! {

broadcast use {vstd::laws_cmp::group_laws_cmp, vstd::std_specs::btree::group_btree_axioms};

/// The polynomial zero, with `count` coefficients.
fn zero_polynomial<C: Curve>(count: usize) -> (r: MSSPolynomial<C>)
    ensures
        r.coeffs.len() == count,
        forall|x: int| #[trigger] poly(r.coefficients(), x) == 0,
        forall|k: int| 0 <= k < count ==> #[trigger] r.coefficients()[k] == 0,
{
    let mut coeffs: Vec<Scalar<C>> = Vec::new();
    for k in 0..count
        invariant
            coeffs.len() == k,
            forall|i: int| 0 <= i < k ==> #[trigger] coeffs[i]@ == 0,
    {
        coeffs.push(Scalar::zero());
    }
    let r = MSSPolynomial { coeffs };
    assert forall|x: int| #[trigger] poly(r.coefficients(), x) == 0 by {
        lemma_poly_zeros(r.coefficients(), x);
    }
    r
}

/// The commitments `g1^a h1^b` to the coefficients of two polynomials.
fn commit_half<C: Curve>(
    generators: &PedersenGenerators<C>,
    h: &MSSPolynomial<C>,
    h_prime: &MSSPolynomial<C>,
) -> (r: Vec<Point<C>>)
    requires
        h.coeffs.len() == h_prime.coeffs.len(),
    ensures
        r.len() == h.coeffs.len(),
        forall|k: int|
            0 <= k < r.len() ==> #[trigger] r[k]@ == generators.commitment(
                h.coeffs[k]@,
                h_prime.coeffs[k]@,
                0,
                0,
            ) % C::order(),
{
    let mut r: Vec<Point<C>> = Vec::new();
    for k in 0..h.coeffs.len()
        invariant
            h.coeffs.len() == h_prime.coeffs.len(),
            r.len() == k,
            forall|i: int|
                0 <= i < k ==> #[trigger] r[i]@ == generators.commitment(
                    h.coeffs[i]@,
                    h_prime.coeffs[i]@,
                    0,
                    0,
                ) % C::order(),
    {
        let p = generators.g1.mul(&h.coeffs[k]);
        let q = generators.h1.mul(&h_prime.coeffs[k]);
        proof {
            let (m, a, b) = (
                C::order(),
                generators.g1@ * h.coeffs[k as int]@,
                generators.h1@ * h_prime.coeffs[k as int]@,
            );
            C::order_exceeds_words();
            lemma_cong_mod(a, m);
            lemma_cong_mod(b, m);
            lemma_cong_add(p@, a, q@, b, m);
            assert(generators.g2@ * 0 == 0 && generators.h2@ * 0 == 0) by (nonlinear_arith);
        }
        r.push(p.add(&q));
    }
    r
}

/// A sharing of `z`, which the first polynomial takes at `-1`; the second polynomials are zero. The
/// share of the first receiver is off by `shift` where there is one.
pub fn deal_btsof_z<C: Curve>(
    suite: &Suite<C>,
    degree: usize,
    shift: Option<Scalar<C>>,
    rng: &mut ChaCha20Rng,
) -> (r: Result<Dealing<C, HalfShare<C>>, VssError>)
    requires
        degree < usize::MAX,
        suite.receiver_pks.len() >= 1,
    ensures
        match r {
            Ok(z) => {
                &&& degree >= 1
                &&& z.valid(suite.generators, suite.base, suite.receiver_pks@, degree as int)
                &&& z.tampered(suite.receiver_pks.len() as int, 0, shift_value(shift))
            },
            Err(e) => degree < 1 && e == VssError::InsufficientDegree(degree),
        },
{
    let n = suite.receiver_pks.len();
    let x1 = Scalar::random(rng);
    let y1 = Scalar::random(rng);
    let f = MSSPolynomial::sample(degree, x1, y1, rng)?;
    let beta = Scalar::random(rng);
    let beta_prime = Scalar::random(rng);
    let f_prime = MSSPolynomial::sample(degree, beta, beta_prime, rng)?;
    let commitments = commit_half(&suite.generators, &f, &f_prime);
    let g = zero_polynomial::<C>(degree + 1);
    let g_prime = zero_polynomial::<C>(degree + 1);
    let sf = f.shares(n);
    let sf_prime = f_prime.shares(n);
    let secrets = PedersenDealerSecrets {
        x1,
        x2: Scalar::zero(),
        y1,
        y2: Scalar::zero(),
        f,
        g,
        f_prime,
        g_prime,
    };
    let mut shares: Vec<PedersenShare<C>> = Vec::new();
    proof {
        C::order_exceeds_words();
        lemma_cong_small(0, C::order());
    }
    for i in 0..n
        invariant
            n == suite.receiver_pks.len(),
            sf.len() == n,
            sf_prime.len() == n,
            shares.len() == i,
            forall|k: int|
                0 <= k < i ==> {
                    &&& (#[trigger] shares[k]).sf == sf[k]
                    &&& shares[k].sf_prime == sf_prime[k]
                    &&& shares[k].sg@ == 0
                    &&& shares[k].sg_prime@ == 0
                },
    {
        shares.push(
            PedersenShare {
                sf: sf[i],
                sf_prime: sf_prime[i],
                sg: Scalar::zero(),
                sg_prime: Scalar::zero(),
            },
        );
    }
    assert forall|j: int| 0 <= j < n implies is_share(#[trigger] shares[j], secrets, j + 1) by {
        assert(sf[j]@ == poly(f.coefficients(), j + 1) % C::order());
        assert(sf_prime[j]@ == poly(f_prime.coefficients(), j + 1) % C::order());
        assert(poly(g.coefficients(), j + 1) == 0);
        assert(poly(g_prime.coefficients(), j + 1) == 0);
    }
    let ghost honest = shares;
    if let Some(delta) = shift {
        let share = shares[0].shifted(&delta);
        shares.set(0, share);
    }
    let mut encrypted: Vec<HalfShare<C>> = Vec::new();
    for j in 0..n
        invariant
            n == suite.receiver_pks.len(),
            shares.len() == n,
            forall|k: int|
                0 <= k < n ==> (#[trigger] shares[k]).sg@ == 0 && shares[k].sg_prime@ == 0,
            encrypted.len() == j,
            forall|k: int|
                0 <= k < j ==> (#[trigger] encrypted[k]).carries(
                    suite.generators,
                    suite.base,
                    suite.receiver_pks[k]@,
                    shares[k],
                ),
    {
        let ct = HalfShare::encrypt(
            &suite.generators,
            &suite.base,
            &suite.receiver_pks[j],
            &shares[j],
            rng,
        );
        encrypted.push(ct);
    }
    let distribution = PedersenDistribution { commitments, shares };
    proof {
        assert(poly(g.coefficients(), -1) == 0 && poly(g.coefficients(), -2) == 0);
        assert(secrets.pinned(degree as int));
        assert forall|k: int| 0 <= k < f.coefficients().len() implies
            #[trigger] distribution.commitments[k]@ == suite.generators.commitment(
            f.coefficients()[k],
            f_prime.coefficients()[k],
            g.coefficients()[k],
            g_prime.coefficients()[k],
        ) % C::order() by {
            assert(commitments[k]@ == suite.generators.commitment(
                f.coeffs[k]@,
                f_prime.coeffs[k]@,
                0,
                0,
            ) % C::order());
        }
        assert(distribution.commits(suite.generators, secrets));
        assert forall|j: int| 0 <= j < n implies is_share_but_first(
            #[trigger] distribution.shares[j],
            secrets,
            j + 1,
        ) by {
            assert(is_share(honest[j], secrets, j + 1));
        }
    }
    let z = Dealing { secrets, distribution, encrypted };
    let ghost delta = shift_value(shift);
    assert forall|j: int| 0 <= j < n implies #[trigger] z.off_by(j, offset_at(j, 0, delta)) by {
        let value = poly(secrets.f.coefficients(), j + 1);
        assert(is_share(honest[j], secrets, j + 1));
        assert(honest[j].sf@ == value % C::order());
        lemma_cong_mod(value, C::order());
    }
    Ok(z)
}

/// One dealer's contribution, tampered with as told.
pub fn deal_btsof<C: Curve>(
    suite: &Suite<C>,
    degree: usize,
    tampering: Tampering<C>,
    rng: &mut ChaCha20Rng,
) -> (r: Result<Contribution<C, HalfShare<C>>, VssError>)
    requires
        degree < usize::MAX,
        suite.receiver_pks.len() >= 1,
    ensures
        match r {
            Ok(contribution) => {
                &&& degree >= 1
                &&& contribution.valid(*suite, degree as int)
                &&& contribution.tampered(tampering, suite.receiver_pks.len() as int)
            },
            Err(e) => degree < 1 && e == VssError::InsufficientDegree(degree),
        },
{
    let xy = Dealing::deal(
        &suite.generators,
        &suite.base,
        &suite.receiver_pks,
        degree,
        shift_in(tampering, Layer::Xy),
        rng,
    )?;
    let shift: Option<Scalar<C>> = match shift_in(tampering, Layer::Z) {
        Some((_, delta)) => Some(delta),
        None => None,
    };
    let z = deal_btsof_z(suite, degree, shift, rng)?;
    let key = key_of(&suite.generators, &xy.secrets, &z.secrets);
    Ok(Contribution { xy, z, key })
}

/// Runs the protocol, the dealers tampering with the given offsets: every party deals, checks and
/// complains; disputations decide who qualifies.
pub fn run_btsof_with<J: Curve>(
    env: &Env<J>,
    offsets: &BTreeMap<usize, Scalar<J>>,
    rng: &mut ChaCha20Rng,
) -> (r: Result<FiveRun<J, HalfShare<J>>, VssError>)
    requires
        env.wf(),
        env.n >= 1,
        env.degree < usize::MAX,
        2 * env.n * env.n <= usize::MAX,
        payload_bytes::<J, HalfShare<J>>(env.degree as int, env.n as int) <= usize::MAX,
    ensures
        match r {
            Ok(run) => env.degree >= 1 && ran(
                run,
                env.jj,
                env.degree as int,
                env.malice@,
                offsets@,
            ),
            Err(e) => env.degree < 1 && e == VssError::InsufficientDegree(env.degree),
        },
{
    let mut contributions: Contributions<J, HalfShare<J>> = Contributions::new();
    for i in 0..env.n
        invariant
            env.wf(),
            env.n >= 1,
            env.degree < usize::MAX,
            i > 0 ==> env.degree >= 1,
            contributions.xy.len() == i,
            contributions.z.len() == i,
            contributions.keys.len() == i,
            forall|k: int|
                0 <= k < i ==> {
                    &&& (#[trigger] contributions.at(k)).valid(env.jj, env.degree as int)
                    &&& contributions.at(k).tampered(
                        tampering_of(env.malice@, offsets@, k),
                        env.n as int,
                    )
                },
    {
        let tampering = tampering_at(&env.malice, offsets, i);
        let contribution = deal_btsof(&env.jj, env.degree, tampering, rng)?;
        let ghost before = contributions;
        contributions.push(contribution);
        assert forall|k: int| 0 <= k <= i implies {
            &&& (#[trigger] contributions.at(k)).valid(env.jj, env.degree as int)
            &&& contributions.at(k).tampered(
                tampering_of(env.malice@, offsets@, k),
                env.n as int,
            )
        } by {
            if k < i {
                assert(contributions.at(k) == before.at(k));
            } else {
                assert(contributions.at(k) == contribution);
            }
        }
    }
    let r = conclude(&env.jj, env.degree, contributions, neutral_count(env.n), rng);
    proof {
        assert(r matches Ok(run) ==> ran(
            run,
            env.jj,
            env.degree as int,
            env.malice@,
            offsets@,
        )) by {
            if let Ok(run) = r {
                lemma_ran(run, env.jj, env.degree as int, env.malice@, offsets@);
            }
        }
    }
    r
}

/// Runs the protocol, the dishonest dealers tampering with offsets drawn at random.
pub fn run_btsof<J: Curve>(env: &Env<J>, rng: &mut ChaCha20Rng) -> (r: Result<
    FiveRun<J, HalfShare<J>>,
    VssError,
>)
    requires
        env.wf(),
        env.n >= 1,
        env.degree < usize::MAX,
        2 * env.n * env.n <= usize::MAX,
        payload_bytes::<J, HalfShare<J>>(env.degree as int, env.n as int) <= usize::MAX,
    ensures
        match r {
            Ok(run) => env.degree >= 1 && exists|offsets: Map<usize, Scalar<J>>|
                offsets.dom() == env.malice@.dom() && #[trigger] ran(
                    run,
                    env.jj,
                    env.degree as int,
                    env.malice@,
                    offsets,
                ),
            Err(e) => env.degree < 1 && e == VssError::InsufficientDegree(env.degree),
        },
{
    let offsets = draw_offsets(&keys_ascending(&env.malice), rng);
    run_btsof_with(env, &offsets, rng)
}

} // verus!
