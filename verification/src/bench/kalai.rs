//! The public-channel key generation: both sharings commit with four generators.
use crate::bench::env::Env;
use crate::bench::five::{conclude, key_of, payload_bytes, Contribution, Contributions, FiveRun};
use crate::bench::malice::{lemma_ran, ran, shift_in, tampering_at, tampering_of, Tampering};
use crate::bench::protocol::Layer;
use crate::collections::keys_ascending;
use crate::curve::{Curve, Scalar};
use crate::dkg::encryption::EncryptedPedersenShare;
use crate::dkg::errors::VssError;
use crate::dkg::params::neutral_count;
use crate::dkg::round::Dealing;
use crate::dkg::suite::Suite;
use crate::dkg::tampering::draw_offsets;
use rand_chacha::ChaCha20Rng;
use std::collections::BTreeMap;
use vstd::prelude::*;

verus! {

broadcast use {vstd::laws_cmp::group_laws_cmp, vstd::std_specs::btree::group_btree_axioms};

/// One dealer's contribution, tampered with as told.
pub fn deal_kalai<C: Curve>(
    suite: &Suite<C>,
    degree: usize,
    tampering: Tampering<C>,
    rng: &mut ChaCha20Rng,
) -> (r: Result<Contribution<C, EncryptedPedersenShare<C>>, VssError>)
    requires
        degree < usize::MAX,
        suite.receiver_pks.len() >= 1,
    ensures
        match r {
            Ok(contribution) => {
                &&& degree >= 1
                &&& contribution.valid(*suite, degree as int)
                &&& contribution.tampered(tampering, suite.receiver_pks.len() as int)
            },
            Err(e) => degree < 1 && e == VssError::InsufficientDegree(degree),
        },
{
    let xy = Dealing::deal(
        &suite.generators,
        &suite.base,
        &suite.receiver_pks,
        degree,
        shift_in(tampering, Layer::Xy),
        rng,
    )?;
    let z = Dealing::deal(
        &suite.generators,
        &suite.base,
        &suite.receiver_pks,
        degree,
        shift_in(tampering, Layer::Z),
        rng,
    )?;
    let key = key_of(&suite.generators, &xy.secrets, &z.secrets);
    Ok(Contribution { xy, z, key })
}

/// Runs the protocol, the dealers tampering with the given offsets: every party deals, checks and
/// complains; disputations decide who qualifies.
pub fn run_kalai_with<J: Curve>(
    env: &Env<J>,
    offsets: &BTreeMap<usize, Scalar<J>>,
    rng: &mut ChaCha20Rng,
) -> (r: Result<FiveRun<J, EncryptedPedersenShare<J>>, VssError>)
    requires
        env.wf(),
        env.n >= 1,
        env.degree < usize::MAX,
        2 * env.n * env.n <= usize::MAX,
        payload_bytes::<J, EncryptedPedersenShare<J>>(env.degree as int, env.n as int)
            <= usize::MAX,
    ensures
        match r {
            Ok(run) => env.degree >= 1 && ran(
                run,
                env.jj,
                env.degree as int,
                env.malice@,
                offsets@,
            ),
            Err(e) => env.degree < 1 && e == VssError::InsufficientDegree(env.degree),
        },
{
    let mut contributions: Contributions<J, EncryptedPedersenShare<J>> = Contributions::new();
    for i in 0..env.n
        invariant
            env.wf(),
            env.n >= 1,
            env.degree < usize::MAX,
            i > 0 ==> env.degree >= 1,
            contributions.xy.len() == i,
            contributions.z.len() == i,
            contributions.keys.len() == i,
            forall|k: int|
                0 <= k < i ==> {
                    &&& (#[trigger] contributions.at(k)).valid(env.jj, env.degree as int)
                    &&& contributions.at(k).tampered(
                        tampering_of(env.malice@, offsets@, k),
                        env.n as int,
                    )
                },
    {
        let tampering = tampering_at(&env.malice, offsets, i);
        let contribution = deal_kalai(&env.jj, env.degree, tampering, rng)?;
        let ghost before = contributions;
        contributions.push(contribution);
        assert forall|k: int| 0 <= k <= i implies {
            &&& (#[trigger] contributions.at(k)).valid(env.jj, env.degree as int)
            &&& contributions.at(k).tampered(
                tampering_of(env.malice@, offsets@, k),
                env.n as int,
            )
        } by {
            if k < i {
                assert(contributions.at(k) == before.at(k));
            } else {
                assert(contributions.at(k) == contribution);
            }
        }
    }
    let r = conclude(&env.jj, env.degree, contributions, neutral_count(env.n), rng);
    proof {
        assert(r matches Ok(run) ==> ran(
            run,
            env.jj,
            env.degree as int,
            env.malice@,
            offsets@,
        )) by {
            if let Ok(run) = r {
                lemma_ran(run, env.jj, env.degree as int, env.malice@, offsets@);
            }
        }
    }
    r
}

/// Runs the protocol, the dishonest dealers tampering with offsets drawn at random.
pub fn run_kalai<J: Curve>(env: &Env<J>, rng: &mut ChaCha20Rng) -> (r: Result<
    FiveRun<J, EncryptedPedersenShare<J>>,
    VssError,
>)
    requires
        env.wf(),
        env.n >= 1,
        env.degree < usize::MAX,
        2 * env.n * env.n <= usize::MAX,
        payload_bytes::<J, EncryptedPedersenShare<J>>(env.degree as int, env.n as int)
            <= usize::MAX,
    ensures
        match r {
            Ok(run) => env.degree >= 1 && exists|offsets: Map<usize, Scalar<J>>|
                offsets.dom() == env.malice@.dom() && #[trigger] ran(
                    run,
                    env.jj,
                    env.degree as int,
                    env.malice@,
                    offsets,
                ),
            Err(e) => env.degree < 1 && e == VssError::InsufficientDegree(env.degree),
        },
{
    let offsets = draw_offsets(&keys_ascending(&env.malice), rng);
    run_kalai_with(env, &offsets, rng)
}

} // verus!
