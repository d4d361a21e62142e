//! One round of Pedersen sharing between parties who are all dealers and receivers: dealing,
//! checking and complaining, resolving the complaints, and reconstructing in the exponent.
use crate::algebra::{
    cong, distinct, lemma_cong_add, lemma_cong_mod, lemma_cong_mul, lemma_cong_small,
    lemma_cong_sub, lemma_sum_cong, lemma_sum_eq, lemma_sum_linear, poly, sum,
};
use crate::collections::copied;
use crate::curve::{exponents, residues, Curve, Point, Scalar};
use crate::dkg::accusations::{
    accused, complainers, failing_dealers, failing_receivers, failures, failures_upto,
    lemma_failures, lemma_lost,
};
use crate::dkg::carrier::Carrier;
use crate::dkg::complaint::{
    judge, opening_sound, pairs, run_complaint_phase, Complaint, ComplaintOutcome,
    DisqualificationReason,
};
use crate::dkg::dmkg::{
    encrypt_shares, joint_value, law_reconstruction, lemma_recovers, receiver_indices, receiver_values,
    reconstruct_pk_components,
};
use crate::dkg::encryption::{
    is_key, law_messages_check_as_share, ElGamalBase, ElGamalKeypair,
    EncryptedPedersenShare, RecoveredShareMessages,
};
use crate::dkg::errors::VssError;
use crate::dkg::mss::{lagrange_value, recovers, weigh, MSSPolynomial};
use crate::dkg::pedersen::{
    is_share, law_honest_share_checks, lemma_commitment_cong, lemma_commitments_evaluate,
    share_checks,
    PedersenDealerSecrets, PedersenDistribution, PedersenGenerators, PedersenShare,
};
use crate::dkg::tampering::offset_at;
use rand_chacha::ChaCha20Rng;
use std::collections::{BTreeMap, BTreeSet};
use vstd::prelude::*;

verus! {

broadcast use {vstd::laws_cmp::group_laws_cmp, vstd::std_specs::btree::group_btree_axioms};

/// What one dealer made: its secrets, the distribution, and the shares as encrypted to the
/// receivers, each an `X`.
pub struct Dealing<C: Curve, X> {
    pub secrets: PedersenDealerSecrets<C>,
    pub distribution: PedersenDistribution<C>,
    pub encrypted: Vec<X>,
}

/// A dealing whose shares are encrypted component by component.
pub type PedersenDealing<C> = Dealing<C, EncryptedPedersenShare<C>>;

/// The share holds the values of the polynomials at `j`, but for its first component, which may be
/// anything.
pub open spec fn is_share_but_first<C: Curve>(
    share: PedersenShare<C>,
    secrets: PedersenDealerSecrets<C>,
    j: int,
) -> bool {
    let m = C::order();
    &&& share.sf_prime@ == poly(secrets.f_prime.coefficients(), j) % m
    &&& share.sg@ == poly(secrets.g.coefficients(), j) % m
    &&& share.sg_prime@ == poly(secrets.g_prime.coefficients(), j) % m
}

impl<C: Curve, X> Dealing<C, X> {
    /// The commitments are honest, and so are the shares to `n` receivers but for first components.
    pub open spec fn well_dealt(
        self,
        generators: PedersenGenerators<C>,
        degree: int,
        n: int,
    ) -> bool {
        &&& self.secrets.pinned(degree)
        &&& self.distribution.commits(generators, self.secrets)
        &&& self.distribution.shares.len() == n
        &&& forall|j: int|
            0 <= j < n ==> is_share_but_first(
                #[trigger] self.distribution.shares[j],
                self.secrets,
                j + 1,
            )
    }

    /// The share of the receiver at index `j` is the one that the polynomials give.
    pub open spec fn honest_to(self, j: int) -> bool {
        is_share(self.distribution.shares[j], self.secrets, j + 1)
    }

    /// The first component of the share of the receiver at index `j` is off by `delta`.
    pub open spec fn off_by(self, j: int, delta: int) -> bool {
        let m = C::order();
        self.distribution.shares[j].sf@ == (poly(self.secrets.f.coefficients(), j + 1) % m + delta)
            % m
    }

    /// Of the shares to `n` receivers, that of the receiver at index `victim` is off by `delta`, and
    /// the others are not off.
    pub open spec fn tampered(self, n: int, victim: int, delta: int) -> bool {
        forall|j: int|
            0 <= j < n ==> #[trigger] self.off_by(j, offset_at(j, victim, delta))
    }

    /// The share of the receiver at index `j` checks.
    pub open spec fn sound(self, generators: PedersenGenerators<C>, j: int) -> bool {
        share_checks(
            generators,
            exponents(self.distribution.commitments@),
            j + 1,
            self.distribution.shares[j],
        )
    }

    /// Every share checks.
    pub open spec fn sound_throughout(self, generators: PedersenGenerators<C>) -> bool {
        forall|j: int|
            0 <= j < self.distribution.shares.len() ==> #[trigger] self.sound(generators, j)
    }
}

impl<C: Curve, X: Carrier<C>> Dealing<C, X> {
    /// Well dealt, and the shares are encrypted to the receivers' keys as they are.
    pub open spec fn valid(
        self,
        generators: PedersenGenerators<C>,
        base: ElGamalBase<C>,
        pks: Seq<Point<C>>,
        degree: int,
    ) -> bool {
        &&& self.well_dealt(generators, degree, pks.len() as int)
        &&& self.encrypted.len() == pks.len()
        &&& forall|j: int|
            0 <= j < pks.len() ==> (#[trigger] self.encrypted[j]).carries(
                generators,
                base,
                pks[j]@,
                self.distribution.shares[j],
            )
    }
}

impl<C: Curve> Dealing<C, EncryptedPedersenShare<C>> {
    /// Deals secrets drawn at random to the receivers with the given keys. The share of the
    /// receiver at index `shift.0`, where there is a shift, has its first component shifted by
    /// `shift.1` before it is encrypted.
    pub fn deal(
        generators: &PedersenGenerators<C>,
        base: &ElGamalBase<C>,
        pks: &Vec<Point<C>>,
        degree: usize,
        shift: Option<(usize, Scalar<C>)>,
        rng: &mut ChaCha20Rng,
    ) -> (r: Result<Self, VssError>)
        requires
            degree < usize::MAX,
            shift matches Some(s) ==> s.0 < pks.len(),
        ensures
            match r {
                Ok(d) => {
                    &&& degree >= 1
                    &&& d.valid(*generators, *base, pks@, degree as int)
                    &&& match shift {
                        Some((v, delta)) => d.tampered(pks.len() as int, v as int, delta@),
                        None => d.tampered(pks.len() as int, 0, 0),
                    }
                },
                Err(e) => degree < 1 && e == VssError::InsufficientDegree(degree),
            },
    {
        let (mut distribution, secrets) = PedersenDistribution::deal(
            generators,
            degree,
            pks.len(),
            rng,
        )?;
        let ghost dealt = distribution;
        if let Some((v, delta)) = shift {
            let share = distribution.shares[v].shifted(&delta);
            distribution.shares.set(v, share);
        }
        assert forall|j: int| 0 <= j < pks.len() implies is_share_but_first(
            #[trigger] distribution.shares[j],
            secrets,
            j + 1,
        ) by {
            assert(is_share(dealt.shares[j], secrets, j + 1));
        }
        assert(distribution.commits(*generators, secrets));
        let encrypted = encrypt_shares(generators, base, pks.as_slice(), &distribution, rng);
        let d = Dealing { secrets, distribution, encrypted };
        proof {
            C::order_exceeds_words();
            assert forall|j: int, delta: int| 0 <= j < pks.len() && (match shift {
                Some(s) => delta == if j == s.0 {
                    s.1@
                } else {
                    0
                },
                None => delta == 0,
            }) implies #[trigger] d.off_by(j, delta) by {
                let value = poly(secrets.f.coefficients(), j + 1);
                assert(is_share(dealt.shares[j], secrets, j + 1));
                assert(dealt.shares[j].sf@ == value % C::order());
                lemma_cong_mod(value, C::order());
            }
        }
        Ok(d)
    }
}

/// In a tampered dealing a share is honest wherever it is not off.
pub proof fn lemma_not_off<C: Curve, X>(
    d: Dealing<C, X>,
    generators: PedersenGenerators<C>,
    degree: int,
    n: int,
    j: int,
)
    requires
        d.well_dealt(generators, degree, n),
        0 <= j < n,
        d.off_by(j, 0),
    ensures
        d.honest_to(j),
{
    C::order_exceeds_words();
    lemma_cong_mod(poly(d.secrets.f.coefficients(), j + 1), C::order());
    assert(is_share_but_first(d.distribution.shares[j], d.secrets, j + 1));
}

/// A share that is off by `delta` checks exactly where `g1^delta` is the neutral element.
pub proof fn law_off_share_detected<C: Curve, X>(
    d: Dealing<C, X>,
    generators: PedersenGenerators<C>,
    degree: int,
    n: int,
    j: int,
    delta: int,
)
    requires
        d.well_dealt(generators, degree, n),
        0 <= j < n,
        d.off_by(j, delta),
    ensures
        d.sound(generators, j) <==> cong(generators.g1@ * delta, 0, C::order()),
{
    let m = C::order();
    C::order_exceeds_words();
    let s = d.distribution.shares[j];
    let x = j + 1;
    let (f, fp) = (poly(d.secrets.f.coefficients(), x), poly(d.secrets.f_prime.coefficients(), x));
    let (g, gp) = (poly(d.secrets.g.coefficients(), x), poly(d.secrets.g_prime.coefficients(), x));
    let g1 = generators.g1@;
    assert(is_share_but_first(s, d.secrets, x));
    lemma_commitments_evaluate(d.distribution, generators, d.secrets, x);
    lemma_cong_mod(f % m + delta, m);
    lemma_cong_mod(f, m);
    lemma_cong_add(f % m, f, delta, delta, m);
    lemma_cong_mod(fp, m);
    lemma_cong_mod(g, m);
    lemma_cong_mod(gp, m);
    lemma_commitment_cong(
        generators,
        (s.sf@, s.sf_prime@, s.sg@, s.sg_prime@),
        (f + delta, fp, g, gp),
    );
    let honest = generators.commitment(f, fp, g, gp);
    assert(g1 * (f + delta) == g1 * f + g1 * delta) by (nonlinear_arith);
    assert(generators.commitment(f + delta, fp, g, gp) == honest + g1 * delta);
    if cong(g1 * delta, 0, m) {
        lemma_cong_add(honest, honest, g1 * delta, 0, m);
    }
    if cong(honest + g1 * delta, honest, m) {
        lemma_cong_sub(honest + g1 * delta, honest, honest, honest, m);
    }
}

/// A share that is honest is sound.
pub proof fn law_honest_is_sound<C: Curve, X>(
    d: Dealing<C, X>,
    generators: PedersenGenerators<C>,
    j: int,
)
    requires
        d.distribution.commits(generators, d.secrets),
        d.honest_to(j),
    ensures
        d.sound(generators, j),
{
    law_honest_share_checks(
        d.distribution,
        generators,
        d.secrets,
        d.distribution.shares[j],
        j + 1,
    );
}

/// In a valid dealing a sound share carries, in the exponent of `g1`, the honest value.
pub proof fn lemma_sound_carries<C: Curve, X>(
    d: Dealing<C, X>,
    generators: PedersenGenerators<C>,
    degree: int,
    n: int,
    j: int,
)
    requires
        d.well_dealt(generators, degree, n),
        0 <= j < n,
        d.sound(generators, j),
    ensures
        cong(
            generators.g1@ * d.distribution.shares[j].sf@,
            generators.g1@ * poly(d.secrets.f.coefficients(), j + 1),
            C::order(),
        ),
{
    let m = C::order();
    C::order_exceeds_words();
    let s = d.distribution.shares[j];
    let x = j + 1;
    let (f, fp) = (poly(d.secrets.f.coefficients(), x), poly(d.secrets.f_prime.coefficients(), x));
    let (g, gp) = (poly(d.secrets.g.coefficients(), x), poly(d.secrets.g_prime.coefficients(), x));
    assert(is_share_but_first(s, d.secrets, x));
    lemma_commitments_evaluate(d.distribution, generators, d.secrets, x);
    let (g1, h1, g2, h2) = (generators.g1@, generators.h1@, generators.g2@, generators.h2@);
    lemma_cong_mod(fp, m);
    lemma_cong_mod(g, m);
    lemma_cong_mod(gp, m);
    lemma_cong_mul(h1, h1, s.sf_prime@, fp, m);
    lemma_cong_mul(g2, g2, s.sg@, g, m);
    lemma_cong_mul(h2, h2, s.sg_prime@, gp, m);
    // g1 sf + h1 sf' + g2 sg + h2 sg' = g1 f + h1 f' + g2 g + h2 g'
    let lhs = generators.commitment(s.sf@, s.sf_prime@, s.sg@, s.sg_prime@);
    let rhs = generators.commitment(f, fp, g, gp);
    lemma_cong_sub(lhs, rhs, h1 * s.sf_prime@, h1 * fp, m);
    lemma_cong_sub(lhs - h1 * s.sf_prime@, rhs - h1 * fp, g2 * s.sg@, g2 * g, m);
    lemma_cong_sub(
        lhs - h1 * s.sf_prime@ - g2 * s.sg@,
        rhs - h1 * fp - g2 * g,
        h2 * s.sg_prime@,
        h2 * gp,
        m,
    );
}

/// The receivers' key pairs have the public keys the dealers encrypt to.
pub open spec fn keys_match<C: Curve>(
    base: ElGamalBase<C>,
    keys: Seq<ElGamalKeypair<C>>,
    pks: Seq<Point<C>>,
) -> bool {
    &&& keys.len() == pks.len()
    &&& forall|j: int|
        0 <= j < keys.len() ==> is_key(base, (#[trigger] keys[j]).sk@, pks[j]@) && keys[j].pk
            == pks[j]
}

/// Every dealing is valid, and there is one per receiver.
pub open spec fn all_valid<C: Curve, X: Carrier<C>>(
    dealings: Seq<Dealing<C, X>>,
    generators: PedersenGenerators<C>,
    base: ElGamalBase<C>,
    pks: Seq<Point<C>>,
    degree: int,
) -> bool {
    &&& dealings.len() == pks.len()
    &&& forall|d: int|
        0 <= d < dealings.len() ==> (#[trigger] dealings[d]).valid(generators, base, pks, degree)
}

/// Decrypts the share of the receiver at index `j` and checks it.
pub fn receive<C: Curve, X: Carrier<C>>(
    dealing: &Dealing<C, X>,
    generators: &PedersenGenerators<C>,
    base: &ElGamalBase<C>,
    pks: &Vec<Point<C>>,
    degree: usize,
    j: usize,
    sk: &Scalar<C>,
) -> (r: (RecoveredShareMessages<C>, bool))
    requires
        dealing.valid(*generators, *base, pks@, degree as int),
        j < pks.len(),
        j < usize::MAX,
        is_key(*base, sk@, pks[j as int]@),
    ensures
        r.0.of_share(*generators, dealing.distribution.shares[j as int]),
        r.1 == dealing.sound(*generators, j as int),
{
    let ct = &dealing.encrypted[j];
    let recovered = ct.open(sk);
    proof {
        let share = dealing.distribution.shares[j as int];
        assert(ct.carries(*generators, *base, pks[j as int]@, share));
        law_messages_check_as_share(
            recovered,
            *generators,
            share,
            exponents(dealing.distribution.commitments@),
            j + 1,
        );
    }
    let ok = recovered.verify(dealing.distribution.commitments.as_slice(), j + 1).is_ok();
    (recovered, ok)
}

/// Whether dealer `d`'s share of the receiver at index `j` checks.
pub open spec fn soundness<C: Curve, X>(
    dealings: Seq<Dealing<C, X>>,
    generators: PedersenGenerators<C>,
) -> spec_fn(int, int) -> bool {
    |d: int, j: int| dealings[d].sound(generators, j)
}

/// Accusations as complaints.
pub open spec fn as_complaints(accusations: Seq<(usize, usize)>) -> Seq<Complaint> {
    accusations.map_values(|p: (usize, usize)| Complaint { dealer: p.0, complainer: p.1 })
}

/// The complaints of a round: dealers ascending, for each the receivers whose share does not check,
/// ascending.
pub open spec fn complaints_of<C: Curve, X>(
    dealings: Seq<Dealing<C, X>>,
    generators: PedersenGenerators<C>,
) -> Seq<Complaint> {
    as_complaints(failures(soundness(dealings, generators), dealings.len() as int))
}

/// Every receiver checks every dealer's share and complains of those that fail.
pub fn file_complaints<C: Curve, X: Carrier<C>>(
    dealings: &Vec<Dealing<C, X>>,
    generators: &PedersenGenerators<C>,
    base: &ElGamalBase<C>,
    pks: &Vec<Point<C>>,
    degree: usize,
    keys: &Vec<ElGamalKeypair<C>>,
) -> (r: Vec<Complaint>)
    requires
        all_valid(dealings@, *generators, *base, pks@, degree as int),
        keys_match(*base, keys@, pks@),
    ensures
        r@ == complaints_of(dealings@, *generators),
{
    let n = dealings.len();
    let ghost sound = soundness(dealings@, *generators);
    let mut complaints: Vec<Complaint> = Vec::new();
    assert(complaints@ =~= as_complaints(failures_upto(sound, n as int, 0, 0)));
    for d in 0..n
        invariant
            n == dealings.len(),
            all_valid(dealings@, *generators, *base, pks@, degree as int),
            keys_match(*base, keys@, pks@),
            sound == soundness(dealings@, *generators),
            complaints@ == as_complaints(failures_upto(sound, n as int, d as int, 0)),
    {
        for j in 0..n
            invariant
                d < n,
                n == dealings.len(),
                all_valid(dealings@, *generators, *base, pks@, degree as int),
                keys_match(*base, keys@, pks@),
                sound == soundness(dealings@, *generators),
                complaints@ == as_complaints(failures_upto(sound, n as int, d as int, j as int)),
        {
            let (_, ok) = receive(&dealings[d], generators, base, pks, degree, j, &keys[j].sk);
            if !ok {
                complaints.push(Complaint { dealer: d, complainer: j + 1 });
            }
            assert(complaints@ =~= as_complaints(
                failures_upto(sound, n as int, d as int, j + 1),
            ));
        }
    }
    complaints
}

/// The receivers, counted from one, whose share from dealer `d` does not check.
pub open spec fn unsound_receivers<C: Curve, X>(
    dealings: Seq<Dealing<C, X>>,
    generators: PedersenGenerators<C>,
    d: int,
) -> Set<usize> {
    failing_receivers(soundness(dealings, generators), dealings.len() as int, d)
}

/// The dealers some of whose shares do not check.
pub open spec fn unsound_dealers<C: Curve, X>(
    dealings: Seq<Dealing<C, X>>,
    generators: PedersenGenerators<C>,
) -> Set<usize> {
    Set::new(
        |d: usize| d < dealings.len() && !dealings[d as int].sound_throughout(generators),
    )
}

/// The accused of a round are the dealers with unsound shares, each accused by the receivers of
/// those.
pub proof fn lemma_accused<C: Curve, X>(
    dealings: Seq<Dealing<C, X>>,
    generators: PedersenGenerators<C>,
)
    requires
        dealings.len() <= usize::MAX,
        forall|d: int|
            0 <= d < dealings.len() ==> (#[trigger] dealings[d]).distribution.shares.len()
                == dealings.len(),
    ensures
        complaints_of(dealings, generators).len() <= dealings.len() * dealings.len(),
        accused(pairs(complaints_of(dealings, generators))) == unsound_dealers(
            dealings,
            generators,
        ),
        forall|d: usize|
            d < dealings.len() ==> #[trigger] complainers(
                pairs(complaints_of(dealings, generators)),
                d,
            ) == unsound_receivers(dealings, generators, d as int),
{
    let n = dealings.len() as int;
    let sound = soundness(dealings, generators);
    lemma_failures(sound, n);
    assert(pairs(complaints_of(dealings, generators)) =~= failures(sound, n));
    let bad = unsound_dealers(dealings, generators);
    assert forall|d: usize| failing_dealers(sound, n).contains(d) == bad.contains(d) by {
        if d < n {
            assert(dealings[d as int].distribution.shares.len() == n);
            if bad.contains(d) {
                let j = choose|j: int|
                    0 <= j < n && !#[trigger] dealings[d as int].sound(generators, j);
                assert(!sound(d as int, j));
            }
            if failing_dealers(sound, n).contains(d) {
                let j = choose|j: int| 0 <= j < n && !#[trigger] sound(d as int, j);
                assert(!dealings[d as int].sound(generators, j));
            }
        }
    }
    assert(failing_dealers(sound, n) =~= bad);
}

/// Why a dealer with unsound shares is disqualified: reported by the publicly verifiable layer, more
/// unsound shares than `degree - 1`, or a disputation lost.
pub open spec fn reason_for<C: Curve, X>(
    dealings: Seq<Dealing<C, X>>,
    generators: PedersenGenerators<C>,
    degree: usize,
    qagg: Set<usize>,
    d: usize,
) -> DisqualificationReason {
    if qagg.contains(d) {
        DisqualificationReason::InQagg
    } else if unsound_receivers(dealings, generators, d as int).len() > if degree >= 1 {
        degree - 1
    } else {
        0
    } {
        DisqualificationReason::TooManyComplaints
    } else {
        DisqualificationReason::LostDisputation
    }
}

/// Resolves the complaints of a round: exactly the dealers with unsound shares are disqualified,
/// and the others qualify.
pub fn resolve<C: Curve, X>(
    dealings: &Vec<Dealing<C, X>>,
    generators: &PedersenGenerators<C>,
    degree: usize,
    qagg: &BTreeSet<usize>,
    complaints: &Vec<Complaint>,
    neutral_count: usize,
    rng: &mut ChaCha20Rng,
) -> (r: Result<ComplaintOutcome, VssError>)
    requires
        complaints@ == complaints_of(dealings@, *generators),
        forall|d: int|
            0 <= d < dealings.len() ==> (#[trigger] dealings[d]).distribution.shares.len()
                == dealings.len(),
    ensures
        r matches Ok(outcome) && {
            &&& outcome.disqualified@.dom() == unsound_dealers(dealings@, *generators)
            &&& forall|d: usize|
                outcome.disqualified@.contains_key(d) ==> #[trigger] outcome.disqualified@[d]
                    == reason_for(dealings@, *generators, degree, qagg@, d)
            &&& forall|d: usize| #[trigger]
                outcome.qual@.contains(d) <==> d < dealings.len()
                    && dealings[d as int].sound_throughout(*generators)
        },
{
    let n = dealings.len();
    let mut all_dealers: BTreeSet<usize> = BTreeSet::new();
    let mut commitments: BTreeMap<usize, Vec<Point<C>>> = BTreeMap::new();
    let mut openings: BTreeMap<usize, Vec<PedersenShare<C>>> = BTreeMap::new();
    for i in 0..n
        invariant
            n == dealings.len(),
            forall|d: usize| all_dealers@.contains(d) <==> d < i,
            forall|d: usize| #[trigger]
                commitments@.contains_key(d) <==> d < i,
            forall|d: usize| #[trigger]
                openings@.contains_key(d) <==> d < i,
            forall|d: usize|
                d < i ==> (#[trigger] commitments@[d])@
                    == dealings[d as int].distribution.commitments@,
            forall|d: usize|
                d < i ==> (#[trigger] openings@[d])@ == dealings[d as int].distribution.shares@,
    {
        all_dealers.insert(i);
        commitments.insert(i, copied(&dealings[i].distribution.commitments));
        openings.insert(i, copied(&dealings[i].distribution.shares));
    }
    let r = run_complaint_phase(
        generators,
        degree,
        &all_dealers,
        qagg,
        &commitments,
        &openings,
        complaints.as_slice(),
        neutral_count,
        rng,
    );
    proof {
        let gens = *generators;
        let ps = pairs(complaints@);
        let dealers = accused(ps);
        let judged = judge(gens, degree, qagg@, commitments@, openings@, ps);
        lemma_accused(dealings@, gens);
        assert forall|d: usize| dealers.contains(d) implies #[trigger] judged(d)
            == crate::dkg::accusations::Judgement::<DisqualificationReason>::Ok(
            Some(reason_for(dealings@, gens, degree, qagg@, d)),
        ) by {
            let against = complainers(ps, d);
            let bad = unsound_receivers(dealings@, gens, d as int);
            assert(against == bad);
            let deal = dealings[d as int];
            let sound = opening_sound(
                gens,
                exponents(commitments@[d]@),
                openings@[d]@,
            );
            assert(deal.distribution.shares.len() == n);
            let j = choose|j: int|
                0 <= j < deal.distribution.shares.len() && !#[trigger] deal.sound(gens, j);
            let b = (j + 1) as usize;
            assert(!deal.sound(gens, b - 1));
            assert(bad.contains(b));
            assert forall|x: usize| bad.contains(x) implies #[trigger] sound(x) == Some(false) by {
                assert(!deal.sound(gens, x - 1));
            }
            lemma_lost(against, sound, b);
        }
        assert(r matches Ok(outcome) ==> outcome.disqualified@.dom() =~= unsound_dealers(
            dealings@,
            gens,
        ));
    }
    r
}

/// The sum over the listed dealers of `g1 sf` for the receiver at index `j`.
pub open spec fn sf_sum<C: Curve, X>(
    dealings: Seq<Dealing<C, X>>,
    generators: PedersenGenerators<C>,
    order: Seq<usize>,
    j: int,
    n: int,
) -> int {
    sum(
        |k: int| generators.g1@ * dealings[order[k] as int].distribution.shares[j].sf@,
        0,
        n,
    )
}

/// The sum over the listed dealers of `g2 sg` for the receiver at index `j`.
pub open spec fn sg_sum<C: Curve, X>(
    dealings: Seq<Dealing<C, X>>,
    generators: PedersenGenerators<C>,
    order: Seq<usize>,
    j: int,
    n: int,
) -> int {
    sum(
        |k: int| generators.g2@ * dealings[order[k] as int].distribution.shares[j].sg@,
        0,
        n,
    )
}

/// What the group elements of receivers, counted from one, come to over the listed dealers.
pub open spec fn message_values<C: Curve, X>(
    dealings: Seq<Dealing<C, X>>,
    generators: PedersenGenerators<C>,
    order: Seq<usize>,
    xs: Seq<int>,
) -> Seq<int> {
    let l = order.len() as int;
    xs.map_values(
        |x: int|
            sf_sum(dealings, generators, order, x - 1, l) % C::order() + sg_sum(
                dealings,
                generators,
                order,
                x - 1,
                l,
            ) % C::order(),
    )
}

/// The receivers `1, 2, ..`.
pub open spec fn receivers(count: nat) -> Seq<int> {
    Seq::new(count, |j: int| j + 1)
}

/// The polynomials `(f, g)` of the listed dealers.
pub open spec fn polynomials<C: Curve, X>(
    dealings: Seq<Dealing<C, X>>,
    order: Seq<usize>,
) -> Seq<(Seq<int>, Seq<int>)> {
    order.map_values(
        |d: usize|
            (
                dealings[d as int].secrets.f.coefficients(),
                dealings[d as int].secrets.g.coefficients(),
            ),
    )
}

/// What the receiver at index `j` holds in sum over the listed dealers: `(Mf, Mg)`.
fn joint_message<C: Curve, X: Carrier<C>>(
    dealings: &Vec<Dealing<C, X>>,
    generators: &PedersenGenerators<C>,
    base: &ElGamalBase<C>,
    pks: &Vec<Point<C>>,
    degree: usize,
    keys: &Vec<ElGamalKeypair<C>>,
    order: &Vec<usize>,
    j: usize,
) -> (r: (Point<C>, Point<C>))
    requires
        all_valid(dealings@, *generators, *base, pks@, degree as int),
        keys_match(*base, keys@, pks@),
        j < pks.len(),
        forall|k: int| 0 <= k < order.len() ==> (#[trigger] order[k]) < dealings.len(),
    ensures
        r.0@ == sf_sum(dealings@, *generators, order@, j as int, order.len() as int) % C::order(),
        r.1@ == sg_sum(dealings@, *generators, order@, j as int, order.len() as int) % C::order(),
{
    let ghost m = C::order();
    let mut mf: Point<C> = Point::zero();
    let mut mg: Point<C> = Point::zero();
    proof {
        C::order_exceeds_words();
    }
    for k in 0..order.len()
        invariant
            m == C::order(),
            m > 1,
            all_valid(dealings@, *generators, *base, pks@, degree as int),
            keys_match(*base, keys@, pks@),
            j < pks.len(),
            forall|k: int| 0 <= k < order.len() ==> (#[trigger] order[k]) < dealings.len(),
            cong(mf@, sf_sum(dealings@, *generators, order@, j as int, k as int), m),
            cong(mg@, sg_sum(dealings@, *generators, order@, j as int, k as int), m),
    {
        let d = order[k];
        let rec = dealings[d].encrypted[j].open(&keys[j].sk);
        let ghost (a, b) = (mf@, mg@);
        mf = mf.add(&rec.m_sf);
        mg = mg.add(&rec.m_sg);
        proof {
            let share = dealings[d as int].distribution.shares[j as int];
            assert(dealings[d as int].valid(*generators, *base, pks@, degree as int));
            assert(dealings[d as int].encrypted[j as int].carries(
                *generators,
                *base,
                pks[j as int]@,
                share,
            ));
            assert(is_key(*base, keys[j as int].sk@, pks[j as int]@));
            let (p, q) = (generators.g1@ * share.sf@, generators.g2@ * share.sg@);
            lemma_cong_mod(p, m);
            lemma_cong_mod(q, m);
            lemma_cong_add(
                a,
                sf_sum(dealings@, *generators, order@, j as int, k as int),
                rec.m_sf@,
                p,
                m,
            );
            lemma_cong_add(
                b,
                sg_sum(dealings@, *generators, order@, j as int, k as int),
                rec.m_sg@,
                q,
                m,
            );
            lemma_cong_mod(a + rec.m_sf@, m);
            lemma_cong_mod(b + rec.m_sg@, m);
        }
    }
    proof {
        mf.lemma_range();
        mg.lemma_range();
        lemma_cong_small(mf@, m);
        lemma_cong_small(mg@, m);
    }
    (mf, mg)
}

/// What every receiver holds in sum over the listed dealers.
pub fn joint_messages<C: Curve, X: Carrier<C>>(
    dealings: &Vec<Dealing<C, X>>,
    generators: &PedersenGenerators<C>,
    base: &ElGamalBase<C>,
    pks: &Vec<Point<C>>,
    degree: usize,
    keys: &Vec<ElGamalKeypair<C>>,
    order: &Vec<usize>,
) -> (r: Vec<(usize, Point<C>, Point<C>)>)
    requires
        all_valid(dealings@, *generators, *base, pks@, degree as int),
        keys_match(*base, keys@, pks@),
        forall|k: int| 0 <= k < order.len() ==> (#[trigger] order[k]) < dealings.len(),
    ensures
        r.len() == pks.len(),
        forall|j: int|
            0 <= j < r.len() ==> {
                let l = order.len() as int;
                &&& (#[trigger] r[j]).0 == j + 1
                &&& r[j].1@ == sf_sum(dealings@, *generators, order@, j, l) % C::order()
                &&& r[j].2@ == sg_sum(dealings@, *generators, order@, j, l) % C::order()
            },
{
    let mut r: Vec<(usize, Point<C>, Point<C>)> = Vec::new();
    for j in 0..pks.len()
        invariant
            all_valid(dealings@, *generators, *base, pks@, degree as int),
            keys_match(*base, keys@, pks@),
            forall|k: int| 0 <= k < order.len() ==> (#[trigger] order[k]) < dealings.len(),
            r.len() == j,
            forall|i: int|
                0 <= i < j ==> {
                    let l = order.len() as int;
                    &&& (#[trigger] r[i]).0 == i + 1
                    &&& r[i].1@ == sf_sum(dealings@, *generators, order@, i, l) % C::order()
                    &&& r[i].2@ == sg_sum(dealings@, *generators, order@, i, l) % C::order()
                },
    {
        let (mf, mg) = joint_message(dealings, generators, base, pks, degree, keys, order, j);
        r.push((j + 1, mf, mg));
    }
    r
}

/// The points recovered at `-1` and `-2` from what the first `degree + 1` receivers hold in sum over
/// the listed dealers.
pub open spec fn reconstructed<C: Curve, X>(
    c: (Point<C>, Point<C>),
    dealings: Seq<Dealing<C, X>>,
    generators: PedersenGenerators<C>,
    order: Seq<usize>,
    degree: int,
) -> bool {
    let m = C::order();
    let count = (degree + 1) as nat;
    let values = message_values(dealings, generators, order, receivers(count));
    &&& lagrange_value(c.0@, receivers(count), values, (-1) % m, m)
    &&& lagrange_value(c.1@, receivers(count), values, (-2) % m, m)
    &&& recovers(c.0@, receivers(count), values, -1, m)
    &&& recovers(c.1@, receivers(count), values, -2, m)
}

/// Reconstructs `(c1, c2)` over the listed dealers from the first `degree + 1` receivers.
pub fn reconstruct<C: Curve, X: Carrier<C>>(
    dealings: &Vec<Dealing<C, X>>,
    generators: &PedersenGenerators<C>,
    base: &ElGamalBase<C>,
    pks: &Vec<Point<C>>,
    degree: usize,
    keys: &Vec<ElGamalKeypair<C>>,
    order: &Vec<usize>,
) -> (r: (Point<C>, Point<C>))
    requires
        all_valid(dealings@, *generators, *base, pks@, degree as int),
        keys_match(*base, keys@, pks@),
        degree < pks.len() <= i64::MAX,
        forall|k: int| 0 <= k < order.len() ==> (#[trigger] order[k]) < dealings.len(),
    ensures
        reconstructed(r, dealings@, *generators, order@, degree as int),
{
    let messages = joint_messages(dealings, generators, base, pks, degree, keys, order);
    let subset = vstd::slice::slice_subrange(messages.as_slice(), 0, degree + 1);
    let ghost count = (degree + 1) as nat;
    proof {
        let xs = receiver_indices(subset@);
        assert(xs =~= receivers(count));
        assert(receiver_values(subset@) =~= message_values(
            dealings@,
            *generators,
            order@,
            receivers(count),
        ));
        assert(distinct(xs));
    }
    match reconstruct_pk_components(subset) {
        Ok(c) => c,
        Err(_) => {
            assert(false);
            (Point::zero(), Point::zero())
        },
    }
}

/// Over dealers all of whose shares check, a value recovered from any `degree + 1` or more receivers
/// is the joint value of the dealers' polynomials.
pub proof fn law_round_reconstructs<C: Curve, X>(
    dealings: Seq<Dealing<C, X>>,
    generators: PedersenGenerators<C>,
    degree: int,
    order: Seq<usize>,
    xs: Seq<int>,
    x: int,
    v: int,
)
    requires
        0 <= degree < xs.len(),
        forall|i: int| 0 <= i < xs.len() ==> 1 <= #[trigger] xs[i] <= dealings.len(),
        forall|k: int|
            0 <= k < order.len() ==> {
                &&& (#[trigger] order[k]) < dealings.len()
                &&& dealings[order[k] as int].well_dealt(
                    generators,
                    degree,
                    dealings.len() as int,
                )
                &&& dealings[order[k] as int].sound_throughout(generators)
            },
        recovers(
            v,
            xs,
            message_values(dealings, generators, order, xs),
            x,
            C::order(),
        ),
    ensures
        v == joint_value(
            generators.g1@,
            generators.g2@,
            polynomials(dealings, order),
            x,
        ) % C::order(),
{
    let m = C::order();
    C::order_exceeds_words();
    let count = (degree + 1) as nat;
    let (g1, g2) = (generators.g1@, generators.g2@);
    let polys = polynomials(dealings, order);
    let values = message_values(dealings, generators, order, xs);
    let l = order.len() as int;
    assert forall|d: int| 0 <= d < polys.len() implies (#[trigger] polys[d]).0.len() == count
        && polys[d].1.len() == count by {
        assert(dealings[order[d] as int].well_dealt(generators, degree, dealings.len() as int));
    }
    assert forall|i: int| 0 <= i < xs.len() implies cong(
        #[trigger] values[i],
        joint_value(g1, g2, polys, xs[i]),
        m,
    ) by {
        let j = xs[i] - 1;
        let tf = |k: int| g1 * dealings[order[k] as int].distribution.shares[j].sf@;
        let tg = |k: int| g2 * dealings[order[k] as int].distribution.shares[j].sg@;
        let both = |k: int| tf(k) + tg(k);
        let want = |d: int| g1 * poly(polys[d].0, j + 1) + g2 * poly(polys[d].1, j + 1);
        assert forall|k: int| 0 <= k < l implies cong(#[trigger] both(k), want(k), m) by {
            let d = dealings[order[k] as int];
            assert(d.well_dealt(generators, degree, dealings.len() as int));
            assert(d.sound(generators, j));
            lemma_sound_carries(d, generators, degree, dealings.len() as int, j);
            assert(is_share_but_first(d.distribution.shares[j], d.secrets, j + 1));
            let g = poly(d.secrets.g.coefficients(), j + 1);
            lemma_cong_mod(g, m);
            lemma_cong_mul(g2, g2, d.distribution.shares[j].sg@, g, m);
            lemma_cong_add(
                tf(k),
                g1 * poly(d.secrets.f.coefficients(), j + 1),
                tg(k),
                g2 * g,
                m,
            );
        }
        lemma_sum_cong(both, want, 0, l, m);
        lemma_sum_linear(tf, tg, both, 1, 1, 0, l);
        let (sf, sg) = (
            sf_sum(dealings, generators, order, j, l),
            sg_sum(dealings, generators, order, j, l),
        );
        lemma_sum_eq(
            tf,
            |k: int| generators.g1@ * dealings[order[k] as int].distribution.shares[j].sf@,
            0,
            l,
        );
        lemma_sum_eq(
            tg,
            |k: int| generators.g2@ * dealings[order[k] as int].distribution.shares[j].sg@,
            0,
            l,
        );
        lemma_cong_mod(sf, m);
        lemma_cong_mod(sg, m);
        lemma_cong_add(sf % m, sf, sg % m, sg, m);
        lemma_sum_eq(
            want,
            |d: int| g1 * poly(polys[d].0, j + 1) + g2 * poly(polys[d].1, j + 1),
            0,
            l,
        );
    }
    law_reconstruction(g1, g2, polys, count, xs, values, x, v, m);
}

/// What the receivers hold in first components, over the listed dealers.
pub open spec fn first_values<C: Curve, X>(
    dealings: Seq<Dealing<C, X>>,
    generators: PedersenGenerators<C>,
    order: Seq<usize>,
    count: nat,
) -> Seq<int> {
    Seq::new(
        count,
        |j: int| sf_sum(dealings, generators, order, j, order.len() as int) % C::order(),
    )
}

/// The points, weighted and added up.
pub fn combine<C: Curve>(weights: &Vec<Scalar<C>>, points: &Vec<Point<C>>) -> (r: Point<C>)
    requires
        weights.len() == points.len(),
    ensures
        r@ == weigh(residues(weights@), exponents(points@)) % C::order(),
{
    let ghost m = C::order();
    let ghost (ls, values) = (residues(weights@), exponents(points@));
    let ghost t = |i: int| ls[i] * values[i];
    let mut acc: Point<C> = Point::zero();
    proof {
        C::order_exceeds_words();
    }
    for i in 0..points.len()
        invariant
            m == C::order(),
            m > 1,
            weights.len() == points.len(),
            ls == residues(weights@),
            values == exponents(points@),
            t == (|i: int| ls[i] * values[i]),
            cong(acc@, sum(t, 0, i as int), m),
    {
        let term = points[i].mul(&weights[i]);
        let ghost a = acc@;
        acc = acc.add(&term);
        proof {
            let (p, l) = (points[i as int]@, weights[i as int]@);
            assert(ls[i as int] == l && values[i as int] == p);
            lemma_cong_mod(p * l, m);
            assert(p * l == l * p) by (nonlinear_arith);
            lemma_cong_add(a, sum(t, 0, i as int), term@, l * p, m);
            lemma_cong_mod(a + term@, m);
        }
    }
    proof {
        acc.lemma_range();
        lemma_cong_small(acc@, m);
    }
    acc
}

/// The scalars `1, 2, .., count`.
pub fn receiver_scalars<C: Curve>(count: usize) -> (r: Vec<Scalar<C>>)
    requires
        count <= i64::MAX,
    ensures
        residues(r@) == receivers(count as nat),
        distinct(residues(r@)),
{
    let mut r: Vec<Scalar<C>> = Vec::new();
    for j in 0..count
        invariant
            count <= i64::MAX,
            r.len() == j,
            forall|k: int| 0 <= k < j ==> #[trigger] r[k]@ == k + 1,
    {
        proof {
            C::order_exceeds_words();
            lemma_cong_small(j + 1, C::order());
        }
        r.push(MSSPolynomial::point((j + 1) as i64));
    }
    assert(residues(r@) =~= receivers(count as nat));
    r
}

/// Recovers at `-1` what the first `degree + 1` receivers hold in first components, over the listed
/// dealers.
pub fn reconstruct_first<C: Curve, X: Carrier<C>>(
    dealings: &Vec<Dealing<C, X>>,
    generators: &PedersenGenerators<C>,
    base: &ElGamalBase<C>,
    pks: &Vec<Point<C>>,
    degree: usize,
    keys: &Vec<ElGamalKeypair<C>>,
    order: &Vec<usize>,
) -> (r: Point<C>)
    requires
        all_valid(dealings@, *generators, *base, pks@, degree as int),
        keys_match(*base, keys@, pks@),
        degree < pks.len() <= i64::MAX,
        forall|k: int| 0 <= k < order.len() ==> (#[trigger] order[k]) < dealings.len(),
    ensures
        ({
            let (m, count) = (C::order(), (degree + 1) as nat);
            let values = first_values(dealings@, *generators, order@, count);
            &&& lagrange_value(r@, receivers(count), values, (-1) % m, m)
            &&& recovers(r@, receivers(count), values, -1, m)
        }),
{
    let messages = joint_messages(dealings, generators, base, pks, degree, keys, order);
    let mut points: Vec<Point<C>> = Vec::new();
    for j in 0..degree + 1
        invariant
            degree < messages.len(),
            points.len() == j,
            forall|k: int| 0 <= k < j ==> #[trigger] points[k] == messages[k].1,
    {
        points.push(messages[j].1);
    }
    let indices = receiver_scalars::<C>(degree + 1);
    let ghost count = (degree + 1) as nat;
    let ghost values = first_values(dealings@, *generators, order@, count);
    match MSSPolynomial::lambda1(indices.as_slice()) {
        Ok(lambda1) => {
            let r = combine(&lambda1, &points);
            proof {
                assert(exponents(points@) =~= values);
                lemma_recovers::<C>(residues(lambda1@), receivers(count), values, -1, r@);
            }
            r
        },
        Err(_) => {
            assert(false);
            Point::zero()
        },
    }
}

/// Over dealers all of whose shares check, a value recovered from the first components is the joint
/// value of the dealers' first polynomials.
pub proof fn law_first_reconstructs<C: Curve, X>(
    dealings: Seq<Dealing<C, X>>,
    generators: PedersenGenerators<C>,
    degree: int,
    order: Seq<usize>,
    x: int,
    v: int,
)
    requires
        0 <= degree < dealings.len(),
        forall|k: int|
            0 <= k < order.len() ==> {
                &&& (#[trigger] order[k]) < dealings.len()
                &&& dealings[order[k] as int].well_dealt(
                    generators,
                    degree,
                    dealings.len() as int,
                )
                &&& dealings[order[k] as int].sound_throughout(generators)
            },
        recovers(
            v,
            receivers((degree + 1) as nat),
            first_values(dealings, generators, order, (degree + 1) as nat),
            x,
            C::order(),
        ),
    ensures
        v == joint_value(generators.g1@, 0, polynomials(dealings, order), x) % C::order(),
{
    let m = C::order();
    C::order_exceeds_words();
    let count = (degree + 1) as nat;
    let g1 = generators.g1@;
    let polys = polynomials(dealings, order);
    let values = first_values(dealings, generators, order, count);
    let l = order.len() as int;
    assert forall|d: int| 0 <= d < polys.len() implies (#[trigger] polys[d]).0.len() == count
        && polys[d].1.len() == count by {
        assert(dealings[order[d] as int].well_dealt(generators, degree, dealings.len() as int));
    }
    assert forall|j: int| 0 <= j < count implies cong(
        #[trigger] values[j],
        joint_value(g1, 0, polys, receivers(count)[j]),
        m,
    ) by {
        let have = |k: int| g1 * dealings[order[k] as int].distribution.shares[j].sf@;
        let want = |d: int| g1 * poly(polys[d].0, j + 1) + 0 * poly(polys[d].1, j + 1);
        assert forall|k: int| 0 <= k < l implies cong(#[trigger] have(k), want(k), m) by {
            let d = dealings[order[k] as int];
            assert(d.well_dealt(generators, degree, dealings.len() as int));
            assert(d.sound(generators, j));
            lemma_sound_carries(d, generators, degree, dealings.len() as int, j);
            assert(0 * poly(polys[k].1, j + 1) == 0) by (nonlinear_arith);
        }
        lemma_sum_cong(have, want, 0, l, m);
        lemma_sum_eq(
            have,
            |k: int| generators.g1@ * dealings[order[k] as int].distribution.shares[j].sf@,
            0,
            l,
        );
        lemma_sum_eq(
            want,
            |d: int| g1 * poly(polys[d].0, j + 1) + 0 * poly(polys[d].1, j + 1),
            0,
            l,
        );
        lemma_cong_mod(sf_sum(dealings, generators, order, j, l), m);
    }
    law_reconstruction(g1, 0, polys, count, receivers(count), values, x, v, m);
}

} // verus!
