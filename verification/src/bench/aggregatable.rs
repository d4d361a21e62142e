//! The partially aggregatable key generation: `z` by a publicly verifiable layer, whose rejected
//! dealers are known beforehand, `(x1, x2, y1, y2)` by Pedersen sharing with complaints.
use crate::bench::env::Env;
use crate::bench::protocol::Layer;
use crate::bench::report::Outcome;
use crate::bls::Bls12381;
use crate::bench::malice::corrupting;
use crate::collections::{ascending, keys_ascending, lemma_take_set};
use crate::curve::{Curve, Point, Scalar};
use crate::dkg::accusations::one_each;
use crate::dkg::complaint::{pairs, Complaint};
use crate::dkg::dmkg::{aggregated, DMKGContribution, PublicKey, ZDealing};
use crate::dkg::errors::VssError;
use crate::dkg::params::neutral_count;
use crate::dkg::published::{law_tampering_detected, victims, Published};
use crate::dkg::round::{complaints_of, file_complaints};
use crate::dkg::suite::Suite;
use crate::dkg::tampering::{draw_offsets, lemma_rest_len, telling};
use rand_chacha::ChaCha20Rng;
use std::collections::{BTreeMap, BTreeSet};
use vstd::prelude::*;

verus! {

broadcast use {vstd::laws_cmp::group_laws_cmp, vstd::std_specs::btree::group_btree_axioms};

/// The commitment by which a dealer that corrupts the layer for `z` replaces its own: the point that
/// it drew. Other dealers replace nothing.
pub fn tampered_commitment(malice: Option<Layer>, drawn: Point<Bls12381>) -> (r: Option<
    Point<Bls12381>,
>)
    ensures
        r == if malice == Some(Layer::Z) {
            Some(drawn)
        } else {
            None
        },
{
    match malice {
        Some(Layer::Z) => Some(drawn),
        _ => None,
    }
}

/// The dealers that corrupt the Pedersen layer.
pub fn corrupting_dealers(malice: &BTreeMap<usize, Layer>) -> (r: BTreeSet<usize>)
    ensures
        r@ == corrupting(malice@, Layer::Xy),
{
    let ids = keys_ascending(malice);
    let mut r: BTreeSet<usize> = BTreeSet::new();
    for k in 0..ids.len()
        invariant
            ids@.to_set() == malice@.dom(),
            forall|i: usize| #[trigger]
                r@.contains(i) <==> ids@.take(k as int).to_set().contains(i) && malice@[i]
                    == Layer::Xy,
    {
        proof {
            lemma_take_set(ids@, k as int);
            assert(ids@.to_set().contains(ids@[k as int]));
        }
        match malice.get(&ids[k]) {
            Some(Layer::Xy) => {
                r.insert(ids[k]);
            },
            _ => {},
        }
    }
    proof {
        assert(ids@.take(ids.len() as int) =~= ids@);
        assert(r@ =~= corrupting(malice@, Layer::Xy));
    }
    r
}

/// Every dealer deals and publishes; `z` holds what the layer for `z` dealt, one per dealer. The
/// dealers with an offset shift the share of their victim by it.
pub fn build_2025_with<J: Curve, S>(
    env: &Env<J>,
    z: Vec<ZDealing<Bls12381, S>>,
    offsets: &BTreeMap<usize, Scalar<Bls12381>>,
    rng: &mut ChaCha20Rng,
) -> (r: Result<Published<Bls12381, S>, VssError>)
    requires
        env.wf(),
        env.n >= 1,
        env.degree < usize::MAX,
        z.len() == env.n,
    ensures
        match r {
            Ok(published) => {
                &&& env.degree >= 1
                &&& published.valid(env.g1, env.degree as int)
                &&& published.tampered(offsets@, env.n as int)
                &&& forall|i: usize| i < env.n ==> #[trigger] published.carries(env.g1, z@, i)
            },
            Err(e) => env.degree < 1 && e == VssError::InsufficientDegree(env.degree),
        },
{
    Published::publish(&env.g1, env.degree, z, offsets, rng)
}

/// Every dealer deals and publishes, those that corrupt the Pedersen layer with offsets drawn at
/// random.
pub fn build_2025_contributions<J: Curve, S>(
    env: &Env<J>,
    z: Vec<ZDealing<Bls12381, S>>,
    rng: &mut ChaCha20Rng,
) -> (r: Result<Published<Bls12381, S>, VssError>)
    requires
        env.wf(),
        env.n >= 1,
        env.degree < usize::MAX,
        z.len() == env.n,
    ensures
        match r {
            Ok(published) => {
                &&& env.degree >= 1
                &&& published.valid(env.g1, env.degree as int)
                &&& exists|offsets: Map<usize, Scalar<Bls12381>>|
                    offsets.dom() == corrupting(env.malice@, Layer::Xy)
                        && #[trigger] published.tampered(offsets, env.n as int)
                &&& forall|i: usize| i < env.n ==> #[trigger] published.carries(env.g1, z@, i)
            },
            Err(e) => env.degree < 1 && e == VssError::InsufficientDegree(env.degree),
        },
{
    let corrupt = corrupting_dealers(&env.malice);
    let offsets = draw_offsets(&ascending(&corrupt), rng);
    build_2025_with(env, z, &offsets, rng)
}

/// A run after `z` was verified: the complaints, who qualified, the key, and the outcome.
pub struct AggregatableRun {
    pub complaints: Vec<Complaint>,
    pub qual: BTreeSet<usize>,
    pub pk: PublicKey<Bls12381>,
    pub outcome: Outcome,
    pub payload: usize,
}

impl AggregatableRun {
    /// What a run comes to where the layer for `z` rejected the dealers `qagg`: the complaints are
    /// those over shares that do not check, the others all of whose shares check qualify, and the key
    /// is their sum and reconstructs.
    pub open spec fn settled<S>(
        self,
        suite: Suite<Bls12381>,
        degree: int,
        published: Published<Bls12381, S>,
        qagg: Set<usize>,
    ) -> bool {
        let n = suite.receiver_pks.len();
        &&& self.complaints@ == complaints_of(published.dealings@, suite.generators)
        &&& forall|d: usize| #[trigger]
            self.qual@.contains(d) <==> published.qualifies(suite, qagg, d)
        &&& aggregated(self.pk, published.contributions@, self.qual@)
        &&& self.outcome.faulty@ == qagg
        &&& self.outcome.complaints == self.complaints.len()
        &&& self.outcome.qual == self.qual@.len()
        &&& self.outcome.reconstructed_ok == if self.qual@.len() == 0 || degree >= n {
            None
        } else {
            Some(true)
        }
        &&& self.payload == pedersen_payload_bytes(degree, n as int)
    }
}

/// Where every offset shows and the layer for `z` rejects exactly the dealers that corrupt it, each
/// dealer that corrupts the Pedersen layer draws exactly one complaint, of its victim; nobody else
/// draws any; exactly the honest qualify; and the key reconstructs wherever there is one among them.
pub proof fn law_2025_by_malice<S>(
    run: AggregatableRun,
    suite: Suite<Bls12381>,
    degree: int,
    published: Published<Bls12381, S>,
    malice: Map<usize, Layer>,
    offsets: Map<usize, Scalar<Bls12381>>,
)
    requires
        published.valid(suite, degree),
        published.tampered(offsets, suite.receiver_pks.len() as int),
        run.settled(suite, degree, published, corrupting(malice, Layer::Z)),
        offsets.dom() == corrupting(malice, Layer::Xy),
        telling(offsets, suite.generators.g1@),
        forall|i: usize| #[trigger] malice.contains_key(i) ==> i < suite.receiver_pks.len(),
    ensures
        run.outcome.faulty@ == corrupting(malice, Layer::Z),
        pairs(run.complaints@) == one_each(
            corrupting(malice, Layer::Xy),
            victims(suite.receiver_pks.len() as int),
            suite.receiver_pks.len() as int,
        ),
        run.outcome.complaints == corrupting(malice, Layer::Xy).len(),
        forall|d: usize| #[trigger]
            run.qual@.contains(d) <==> d < suite.receiver_pks.len() && !malice.contains_key(d),
        malice.dom().finite(),
        run.outcome.qual == suite.receiver_pks.len() - malice.dom().len(),
        malice.dom().len() < suite.receiver_pks.len() && degree < suite.receiver_pks.len()
            ==> run.outcome.reconstructed_ok == Some(true),
{
    let n = suite.receiver_pks.len() as int;
    let (xy, z) = (corrupting(malice, Layer::Xy), corrupting(malice, Layer::Z));
    assert forall|i: usize| #[trigger] offsets.contains_key(i) implies i < n by {
        assert(offsets.dom().contains(i));
        assert(malice.contains_key(i));
    }
    law_tampering_detected(published, suite, degree, offsets);
    assert forall|d: usize| #[trigger] run.qual@.contains(d) <==> d < n && !malice.contains_key(
        d,
    ) by {
        assert(run.qual@.contains(d) <==> published.qualifies(suite, z, d));
        assert(offsets.contains_key(d) == xy.contains(d));
        if malice.contains_key(d) {
            match malice[d] {
                Layer::Xy => {},
                Layer::Z => {},
            }
        }
    }
    lemma_rest_len(n, malice.dom(), run.qual@);
}

/// The size of one dealer's broadcast in bytes: commitments, encrypted shares, and the three points
/// of its contribution to the key.
pub open spec fn pedersen_payload_bytes(degree: int, n: int) -> int {
    (degree + 1 + 8 * n + 3) * Bls12381::encoding_len()
}

/// The size of the broadcast of a contribution in bytes.
pub fn pedersen_payload<S>(contribution: &DMKGContribution<Bls12381, S>) -> (r: usize)
    requires
        pedersen_payload_bytes(
            contribution.commitments.len() - 1,
            contribution.encrypted_shares.len() as int,
        ) <= usize::MAX,
    ensures
        r == pedersen_payload_bytes(
            contribution.commitments.len() - 1,
            contribution.encrypted_shares.len() as int,
        ),
{
    let size = Bls12381::encoded_size();
    let k = contribution.commitments.len();
    let n = contribution.encrypted_shares.len();
    (k + 8 * n + 3) * size
}

/// Runs the phases after the layer for `z` rejected the dealers `qagg`: checking and complaining,
/// resolving, and generating the key.
pub fn run_2025<J: Curve, S>(
    env: &Env<J>,
    published: &Published<Bls12381, S>,
    qagg: &BTreeSet<usize>,
    rng: &mut ChaCha20Rng,
) -> (r: Result<AggregatableRun, VssError>)
    requires
        env.wf(),
        env.n >= 1,
        published.valid(env.g1, env.degree as int),
        pedersen_payload_bytes(env.degree as int, env.n as int) <= usize::MAX,
    ensures
        r matches Ok(run) && run.settled(env.g1, env.degree as int, *published, qagg@),
{
    let suite = &env.g1;
    let complaints = file_complaints(
        &published.dealings,
        &suite.generators,
        &suite.base,
        &suite.receiver_pks,
        env.degree,
        &suite.elgamal,
    );
    let settled = published.resolve(
        suite,
        env.degree,
        qagg,
        &complaints,
        neutral_count(env.n),
        rng,
    )?;
    let qual = settled.qual;
    let (pk, reconstructed_ok) = published.generate_key(suite, env.degree, &qual);
    let payload = match published.contributions.get(&0) {
        Some(c) => {
            assert(*c == published.contributions@[0]);
            assert(published.dealings[0].valid(
                suite.generators,
                suite.base,
                suite.receiver_pks@,
                env.degree as int,
            ));
            pedersen_payload(c)
        },
        None => {
            assert(published.contributions@.contains_key(0));
            0
        },
    };
    let outcome = Outcome {
        faulty: qagg.clone(),
        complaints: complaints.len(),
        qual: qual.len(),
        reconstructed_ok,
    };
    Ok(AggregatableRun { complaints, qual, pk, outcome, payload })
}

} // verus!
