//! The single-secret key generation with Feldman commitments, run between parties who are all
//! dealers and receivers.
use crate::algebra::{
    cong, lemma_cong_add, lemma_cong_mod, lemma_cong_small, lemma_poly_linear, lemma_poly_zeros,
    lemma_sum_cong, lemma_sum_eq, poly, sum,
};
use crate::bench::env::Env;
use crate::bench::malice::first_receiver;
use crate::bench::report::Outcome;
use crate::collections::{ascending, copied, enumerates, keys_ascending};
use crate::curve::{exponents, residues, Curve, Point, Scalar};
use crate::dkg::accusations::{
    accused, complainers, failing_receivers, fails_victims, failures, failures_upto,
    law_one_accusation_each, lemma_failures, lemma_lost, one_each,
};
use crate::dkg::dmkg::lemma_recovers;
use crate::dkg::encryption::{is_key, law_decrypt_inverts_encrypt, ElGamalBase, ElGamalCiphertext};
use crate::dkg::errors::VssError;
use crate::dkg::mss::{lagrange_value, recovers, values_at};
use crate::dkg::neji::{
    encrypt_share, judge, law_honest_share_opens, law_shifted_opening_detected, opening_checks,
    opening_sound, pairs, run_complaint_phase, Complaint, ComplaintOutcome,
    DisqualificationReason, FeldmanDistribution, FeldmanSecrets, NejiGenerators, ShamirPolynomial,
};
use crate::dkg::params::neutral_count;
use crate::dkg::round::{combine, receiver_scalars, receivers};
use crate::dkg::suite::Suite;
use crate::dkg::tampering::{
    draw_offsets, lemma_rest_len, offset_at, offset_of, shift_value, telling,
};
use rand_chacha::ChaCha20Rng;
use std::collections::{BTreeMap, BTreeSet};
use vstd::prelude::*;

verus! {

broadcast use {vstd::laws_cmp::group_laws_cmp, vstd::std_specs::btree::group_btree_axioms};

/// One dealer's contribution.
pub struct NejiContribution<C: Curve> {
    pub secrets: FeldmanSecrets<C>,
    /// The commitments, and the shares as they open in a disputation.
    pub distribution: FeldmanDistribution<C>,
    /// One ciphertext of `g^share` per receiver.
    pub enc: Vec<ElGamalCiphertext<C>>,
    /// `h^s`, the contribution to the public key.
    pub pk_contrib: Point<C>,
    /// `g^s`, the commitment to the secret.
    pub c0: Point<C>,
}

impl<C: Curve> NejiContribution<C> {
    /// The commitments are honest, and the shares, whatever they are, are encrypted to the
    /// receivers' keys.
    pub open spec fn valid(
        self,
        gens: NejiGenerators<C>,
        base: ElGamalBase<C>,
        pks: Seq<Point<C>>,
        degree: int,
    ) -> bool {
        &&& self.distribution.commits(gens, self.secrets)
        &&& self.distribution.commitments.len() == degree + 1
        &&& poly(self.secrets.poly.coefficients(), 0) % C::order() == self.secrets.secret@
        &&& self.distribution.shares.len() == pks.len()
        &&& self.enc.len() == pks.len()
        &&& forall|j: int|
            0 <= j < pks.len() ==> (#[trigger] self.enc[j]).encrypts(
                base,
                pks[j]@,
                (gens.g@ * self.distribution.shares[j]@) % C::order(),
            )
        &&& self.c0 == self.distribution.commitments[0]
        &&& self.pk_contrib@ == (gens.h@ * self.secrets.secret@) % C::order()
    }

    /// The share of the receiver at index `j` is off by `delta`.
    pub open spec fn off_by(self, j: int, delta: int) -> bool {
        let m = C::order();
        self.distribution.shares[j]@ == (poly(self.secrets.poly.coefficients(), j + 1) % m + delta)
            % m
    }

    /// Of the shares to `n` receivers, that of the first is off by `delta`, and the others are not
    /// off.
    pub open spec fn tampered(self, n: int, delta: int) -> bool {
        forall|j: int|
            0 <= j < n ==> #[trigger] self.off_by(j, offset_at(j, 0, delta))
    }

    /// The share of the receiver at index `j` opens the commitments.
    pub open spec fn sound(self, gens: NejiGenerators<C>, j: int) -> bool {
        opening_checks(
            gens,
            exponents(self.distribution.commitments@),
            j + 1,
            self.distribution.shares[j]@,
        )
    }

    /// Every share opens the commitments.
    pub open spec fn sound_throughout(self, gens: NejiGenerators<C>) -> bool {
        forall|j: int| 0 <= j < self.distribution.shares.len() ==> #[trigger] self.sound(gens, j)
    }

    /// The size of the broadcast in bytes.
    pub fn payload(&self) -> (r: usize)
        requires
            neji_payload_bytes::<C>(
                self.distribution.commitments.len() - 1,
                self.enc.len() as int,
            ) <= usize::MAX,
        ensures
            r == neji_payload_bytes::<C>(
                self.distribution.commitments.len() - 1,
                self.enc.len() as int,
            ),
    {
        let size = C::encoded_size();
        let n = self.enc.len();
        let k = self.distribution.commitments.len();
        proof {
            C::encoding_is_short();
            let total = k + 2 * n + 2;
            assert(total <= total * size) by (nonlinear_arith)
                requires
                    total >= 0,
                    size >= 1,
            ;
        }
        (k + 2 * n + 2) * size
    }
}

/// The size of one dealer's broadcast in bytes: the commitments, a ciphertext of two points per
/// receiver, `h^s` and `g^s`.
pub open spec fn neji_payload_bytes<C: Curve>(degree: int, n: int) -> int {
    (degree + 1 + 2 * n + 2) * C::encoding_len()
}

/// One dealer's contribution; a dishonest one shifts the share of the first receiver by `shift`.
pub fn deal_neji<C: Curve>(
    suite: &Suite<C>,
    gens: &NejiGenerators<C>,
    degree: usize,
    shift: Option<Scalar<C>>,
    rng: &mut ChaCha20Rng,
) -> (r: Result<NejiContribution<C>, VssError>)
    requires
        degree < usize::MAX,
        suite.receiver_pks.len() >= 1,
    ensures
        match r {
            Ok(c) => {
                &&& degree >= 1
                &&& c.valid(*gens, suite.base, suite.receiver_pks@, degree as int)
                &&& c.tampered(suite.receiver_pks.len() as int, shift_value(shift))
            },
            Err(e) => degree < 1 && e == VssError::InsufficientDegree(degree),
        },
{
    let n = suite.receiver_pks.len();
    let (mut distribution, secrets) = FeldmanDistribution::deal(gens, degree, n, rng)?;
    let ghost dealt = distribution;
    if let Some(delta) = shift {
        let share = distribution.shares[0].add(&delta);
        distribution.shares.set(0, share);
    }
    let mut enc: Vec<ElGamalCiphertext<C>> = Vec::new();
    for j in 0..n
        invariant
            n == suite.receiver_pks.len(),
            distribution.shares.len() == n,
            enc.len() == j,
            forall|k: int|
                0 <= k < j ==> (#[trigger] enc[k]).encrypts(
                    suite.base,
                    suite.receiver_pks[k]@,
                    (gens.g@ * distribution.shares[k]@) % C::order(),
                ),
    {
        let ct = encrypt_share(
            gens,
            &suite.base,
            &suite.receiver_pks[j],
            distribution.shares[j],
            rng,
        );
        enc.push(ct);
    }
    let pk_contrib = gens.h.mul(&secrets.secret);
    let c0 = distribution.commitments[0];
    let c = NejiContribution { secrets, distribution, enc, pk_contrib, c0 };
    assert(c.distribution.commits(*gens, c.secrets)) by {
        assert(dealt.commits(*gens, secrets));
    }
    proof {
        C::order_exceeds_words();
        let delta = shift_value(shift);
        assert forall|j: int| 0 <= j < n implies #[trigger] c.off_by(j, offset_at(j, 0, delta)) by {
            let value = poly(secrets.poly.coefficients(), j + 1);
            assert(dealt.shares[j]@ == value % C::order());
            lemma_cong_mod(value, C::order());
        }
    }
    Ok(c)
}

/// A share that is off by `delta` opens the commitments exactly where `g^delta` is the neutral
/// element.
pub proof fn law_off_share_detected<C: Curve>(
    c: NejiContribution<C>,
    gens: NejiGenerators<C>,
    j: int,
    delta: int,
)
    requires
        c.distribution.commits(gens, c.secrets),
        c.off_by(j, delta),
    ensures
        c.sound(gens, j) <==> cong(gens.g@ * delta, 0, C::order()),
{
    let value = poly(c.secrets.poly.coefficients(), j + 1);
    law_honest_share_opens(c.distribution, gens, c.secrets, value % C::order(), j + 1);
    law_shifted_opening_detected(
        gens,
        exponents(c.distribution.commitments@),
        j + 1,
        value % C::order(),
        delta,
    );
}

/// Every contribution is valid, and there is one per receiver.
pub open spec fn all_valid<C: Curve>(
    dealt: Seq<NejiContribution<C>>,
    gens: NejiGenerators<C>,
    suite: Suite<C>,
    degree: int,
) -> bool {
    &&& dealt.len() == suite.receiver_pks.len()
    &&& forall|d: int|
        0 <= d < dealt.len() ==> (#[trigger] dealt[d]).valid(
            gens,
            suite.base,
            suite.receiver_pks@,
            degree,
        )
}

/// Whether dealer `d`'s share of the receiver at index `j` opens the commitments.
pub open spec fn soundness<C: Curve>(
    dealt: Seq<NejiContribution<C>>,
    gens: NejiGenerators<C>,
) -> spec_fn(int, int) -> bool {
    |d: int, j: int| dealt[d].sound(gens, j)
}

/// Decrypts the share of the receiver at index `j` and checks it.
pub fn receive<C: Curve>(
    c: &NejiContribution<C>,
    gens: &NejiGenerators<C>,
    suite: &Suite<C>,
    degree: usize,
    j: usize,
) -> (r: (Point<C>, bool))
    requires
        suite.ready(suite.receiver_pks.len() as int),
        c.valid(*gens, suite.base, suite.receiver_pks@, degree as int),
        j < suite.receiver_pks.len(),
    ensures
        r.0@ == (gens.g@ * c.distribution.shares[j as int]@) % C::order(),
        r.1 == c.sound(*gens, j as int),
{
    let m = c.enc[j].decrypt(&suite.elgamal[j].sk);
    proof {
        let v = gens.g@ * c.distribution.shares[j as int]@;
        C::order_exceeds_words();
        lemma_cong_mod(v, C::order());
        assert(is_key(suite.base, suite.elgamal[j as int].sk@, suite.receiver_pks[j as int]@));
        law_decrypt_inverts_encrypt(
            c.enc[j as int],
            suite.base,
            suite.elgamal[j as int].sk@,
            suite.receiver_pks[j as int]@,
            v % C::order(),
        );
    }
    let ok = FeldmanDistribution::verify_in_exponent(
        c.distribution.commitments.as_slice(),
        j + 1,
        &m,
    );
    (m, ok)
}

/// Every receiver checks every dealer's share and complains of those that fail.
pub fn file_complaints<C: Curve>(
    dealt: &Vec<NejiContribution<C>>,
    gens: &NejiGenerators<C>,
    suite: &Suite<C>,
    degree: usize,
) -> (r: Vec<Complaint>)
    requires
        suite.ready(dealt.len() as int),
        all_valid(dealt@, *gens, *suite, degree as int),
    ensures
        pairs(r@) == failures(soundness(dealt@, *gens), dealt.len() as int),
{
    let n = dealt.len();
    let ghost sound = soundness(dealt@, *gens);
    let mut complaints: Vec<Complaint> = Vec::new();
    assert(pairs(complaints@) =~= failures_upto(sound, n as int, 0, 0));
    for d in 0..n
        invariant
            n == dealt.len(),
            suite.ready(dealt.len() as int),
            all_valid(dealt@, *gens, *suite, degree as int),
            sound == soundness(dealt@, *gens),
            pairs(complaints@) == failures_upto(sound, n as int, d as int, 0),
    {
        for j in 0..n
            invariant
                d < n,
                n == dealt.len(),
                suite.ready(dealt.len() as int),
                all_valid(dealt@, *gens, *suite, degree as int),
                sound == soundness(dealt@, *gens),
                pairs(complaints@) == failures_upto(sound, n as int, d as int, j as int),
        {
            let (_, ok) = receive(&dealt[d], gens, suite, degree, j);
            if !ok {
                complaints.push(Complaint { dealer: d, complainer: j + 1 });
            }
            assert(pairs(complaints@) =~= failures_upto(sound, n as int, d as int, j + 1));
        }
    }
    complaints
}

/// Why a dealer with shares that do not open its commitments is disqualified: more of them than
/// `degree - 1`, or a disputation lost.
pub open spec fn reason_for<C: Curve>(
    dealt: Seq<NejiContribution<C>>,
    gens: NejiGenerators<C>,
    degree: usize,
    d: usize,
) -> DisqualificationReason {
    let failing = failing_receivers(soundness(dealt, gens), dealt.len() as int, d as int);
    if failing.len() > if degree >= 1 {
        degree - 1
    } else {
        0
    } {
        DisqualificationReason::TooManyComplaints
    } else {
        DisqualificationReason::LostDisputation
    }
}

/// Resolves the complaints: the dealers all of whose shares open their commitments qualify, and the
/// others are disqualified, each with its reason.
pub fn resolve<C: Curve>(
    dealt: &Vec<NejiContribution<C>>,
    gens: &NejiGenerators<C>,
    degree: usize,
    complaints: &Vec<Complaint>,
    neutral_count: usize,
    rng: &mut ChaCha20Rng,
) -> (r: Result<ComplaintOutcome, VssError>)
    requires
        pairs(complaints@) == failures(soundness(dealt@, *gens), dealt.len() as int),
        forall|d: int|
            0 <= d < dealt.len() ==> (#[trigger] dealt[d]).distribution.shares.len()
                == dealt.len(),
    ensures
        r matches Ok(outcome) && {
            &&& forall|d: usize| #[trigger]
                outcome.qual@.contains(d) <==> d < dealt.len()
                    && dealt[d as int].sound_throughout(*gens)
            &&& forall|d: usize| #[trigger]
                outcome.disqualified@.contains_key(d) <==> d < dealt.len()
                    && !dealt[d as int].sound_throughout(*gens)
            &&& forall|d: usize| #[trigger]
                outcome.disqualified@.contains_key(d) ==> outcome.disqualified@[d] == reason_for(
                    dealt@,
                    *gens,
                    degree,
                    d,
                )
        },
{
    let n = dealt.len();
    let mut all_dealers: BTreeSet<usize> = BTreeSet::new();
    let mut commitments: BTreeMap<usize, Vec<Point<C>>> = BTreeMap::new();
    let mut openings: BTreeMap<usize, Vec<Scalar<C>>> = BTreeMap::new();
    for i in 0..n
        invariant
            n == dealt.len(),
            forall|d: usize| all_dealers@.contains(d) <==> d < i,
            forall|d: usize| #[trigger]
                commitments@.contains_key(d) <==> d < i,
            forall|d: usize| #[trigger]
                openings@.contains_key(d) <==> d < i,
            forall|d: usize|
                d < i ==> (#[trigger] commitments@[d])@
                    == dealt[d as int].distribution.commitments@,
            forall|d: usize|
                d < i ==> (#[trigger] openings@[d])@ == dealt[d as int].distribution.shares@,
    {
        all_dealers.insert(i);
        commitments.insert(i, copied(&dealt[i].distribution.commitments));
        openings.insert(i, copied(&dealt[i].distribution.shares));
    }
    let r = run_complaint_phase(
        gens,
        degree,
        &all_dealers,
        &commitments,
        &openings,
        complaints.as_slice(),
        neutral_count,
        rng,
    );
    proof {
        let ps = pairs(complaints@);
        let sound = soundness(dealt@, *gens);
        let dealers = accused(ps);
        let judged = judge(*gens, degree, commitments@, openings@, ps);
        lemma_failures(sound, n as int);
        assert forall|d: usize| dealers.contains(d) implies #[trigger] judged(d)
            == crate::dkg::accusations::Judgement::<DisqualificationReason>::Ok(
            Some(reason_for(dealt@, *gens, degree, d)),
        ) by {
            let bad = failing_receivers(sound, n as int, d as int);
            assert(complainers(ps, d) == bad);
            let opens = opening_sound(*gens, exponents(commitments@[d]@), openings@[d]@);
            assert(dealt[d as int].distribution.shares.len() == n);
            let j = choose|j: int| 0 <= j < n && !#[trigger] sound(d as int, j);
            let b = (j + 1) as usize;
            assert(bad.contains(b));
            assert forall|x: usize| bad.contains(x) implies #[trigger] opens(x) == Some(false) by {
                assert(!sound(d as int, x - 1));
            }
            lemma_lost(bad, opens, b);
        }
        assert forall|d: usize| d < n implies (!dealers.contains(d)
            <==> #[trigger] dealt[d as int].sound_throughout(*gens)) by {
            assert(dealt[d as int].distribution.shares.len() == n);
            if !dealers.contains(d) {
                assert forall|j: int| 0 <= j < n implies #[trigger] dealt[d as int].sound(
                    *gens,
                    j,
                ) by {
                    assert(sound(d as int, j));
                }
            } else {
                let j = choose|j: int| 0 <= j < n && !#[trigger] sound(d as int, j);
                assert(!dealt[d as int].sound(*gens, j));
            }
        }
    }
    r
}

/// The sum over the listed dealers of `g share` for the receiver at index `j`.
pub open spec fn share_sum<C: Curve>(
    dealt: Seq<NejiContribution<C>>,
    gens: NejiGenerators<C>,
    order: Seq<usize>,
    j: int,
    n: int,
) -> int {
    sum(|k: int| gens.g@ * dealt[order[k] as int].distribution.shares[j]@, 0, n)
}

/// What the first `count` receivers hold in sum over the listed dealers.
pub open spec fn share_values<C: Curve>(
    dealt: Seq<NejiContribution<C>>,
    gens: NejiGenerators<C>,
    order: Seq<usize>,
    count: nat,
) -> Seq<int> {
    Seq::new(
        count,
        |j: int| share_sum(dealt, gens, order, j, order.len() as int) % C::order(),
    )
}

/// The sum over the listed dealers of `g^s`.
pub open spec fn secret_sum<C: Curve>(
    dealt: Seq<NejiContribution<C>>,
    order: Seq<usize>,
    n: int,
) -> int {
    sum(|k: int| dealt[order[k] as int].c0@, 0, n)
}

/// What the receiver at index `j` holds in sum over the listed dealers.
fn joint_share<C: Curve>(
    dealt: &Vec<NejiContribution<C>>,
    gens: &NejiGenerators<C>,
    suite: &Suite<C>,
    degree: usize,
    order: &Vec<usize>,
    j: usize,
) -> (r: Point<C>)
    requires
        suite.ready(dealt.len() as int),
        all_valid(dealt@, *gens, *suite, degree as int),
        j < dealt.len(),
        forall|k: int| 0 <= k < order.len() ==> (#[trigger] order[k]) < dealt.len(),
    ensures
        r@ == share_sum(dealt@, *gens, order@, j as int, order.len() as int) % C::order(),
{
    let ghost m = C::order();
    let mut acc: Point<C> = Point::zero();
    proof {
        C::order_exceeds_words();
    }
    for k in 0..order.len()
        invariant
            m == C::order(),
            m > 1,
            suite.ready(dealt.len() as int),
            all_valid(dealt@, *gens, *suite, degree as int),
            j < dealt.len(),
            forall|k: int| 0 <= k < order.len() ==> (#[trigger] order[k]) < dealt.len(),
            cong(acc@, share_sum(dealt@, *gens, order@, j as int, k as int), m),
    {
        let d = order[k];
        assert(dealt[d as int].valid(*gens, suite.base, suite.receiver_pks@, degree as int));
        let (part, _) = receive(&dealt[d], gens, suite, degree, j);
        let ghost a = acc@;
        acc = acc.add(&part);
        proof {
            let v = gens.g@ * dealt[d as int].distribution.shares[j as int]@;
            lemma_cong_mod(v, m);
            lemma_cong_add(
                a,
                share_sum(dealt@, *gens, order@, j as int, k as int),
                part@,
                v,
                m,
            );
            lemma_cong_mod(a + part@, m);
        }
    }
    proof {
        acc.lemma_range();
        lemma_cong_small(acc@, m);
    }
    acc
}

/// Over dealers all of whose shares open their commitments, what is recovered at zero is the sum of
/// the commitments to their secrets.
pub proof fn law_secret_recovered<C: Curve>(
    dealt: Seq<NejiContribution<C>>,
    gens: NejiGenerators<C>,
    degree: int,
    order: Seq<usize>,
    v: int,
)
    requires
        0 <= degree < dealt.len(),
        forall|k: int|
            0 <= k < order.len() ==> {
                let d = dealt[(#[trigger] order[k]) as int];
                &&& order[k] < dealt.len()
                &&& d.distribution.commitments.len() == degree + 1
                &&& d.distribution.shares.len() == dealt.len()
                &&& d.c0 == d.distribution.commitments[0]
                &&& d.sound_throughout(gens)
            },
        recovers(
            v,
            receivers((degree + 1) as nat),
            share_values(dealt, gens, order, (degree + 1) as nat),
            0,
            C::order(),
        ),
    ensures
        v == secret_sum(dealt, order, order.len() as int) % C::order(),
{
    let m = C::order();
    C::order_exceeds_words();
    let count = (degree + 1) as nat;
    let l = order.len() as int;
    let polys = Seq::new(
        order.len(),
        |k: int| exponents(dealt[order[k] as int].distribution.commitments@),
    );
    let values = share_values(dealt, gens, order, count);
    assert forall|k: int| 0 <= k < polys.len() implies (#[trigger] polys[k]).len() == count by {
        assert(dealt[order[k] as int].distribution.commitments.len() == count);
    }
    let joint = total(polys, count, l);
    assert forall|j: int| 0 <= j < count implies cong(
        #[trigger] values[j],
        poly(joint, receivers(count)[j]),
        m,
    ) by {
        let have = |k: int| gens.g@ * dealt[order[k] as int].distribution.shares[j]@;
        let want = |k: int| poly(polys[k], j + 1);
        assert forall|k: int| 0 <= k < l implies cong(#[trigger] have(k), want(k), m) by {
            let d = dealt[order[k] as int];
            assert(d.sound_throughout(gens));
            assert(d.sound(gens, j));
        }
        lemma_sum_cong(have, want, 0, l, m);
        lemma_sum_eq(
            have,
            |k: int| gens.g@ * dealt[order[k] as int].distribution.shares[j]@,
            0,
            l,
        );
        lemma_total(polys, count, l, j + 1);
        lemma_sum_eq(want, |k: int| poly(polys[k], j + 1), 0, l);
        lemma_cong_mod(share_sum(dealt, gens, order, j, l), m);
    }
    lemma_total(polys, count, l, 0);
    assert(values_at(values, joint, receivers(count), m));
    let at_zero = |k: int| poly(polys[k], 0);
    assert forall|k: int| 0 <= k < l implies #[trigger] at_zero(k) == dealt[order[k] as int].c0@ by {
        let c = polys[k];
        assert(c.len() == count);
        assert(poly(c, 0) == c[0] + 0 * poly(c.drop_first(), 0));
        assert(dealt[order[k] as int].c0 == dealt[order[k] as int].distribution.commitments[0]);
    }
    lemma_sum_eq(at_zero, |k: int| dealt[order[k] as int].c0@, 0, l);
    lemma_sum_eq(at_zero, |k: int| poly(polys[k], 0), 0, l);
}

/// The sum of the first `n` polynomials, each of `len` coefficients.
spec fn total(polys: Seq<Seq<int>>, len: nat, n: int) -> Seq<int>
    decreases n,
{
    if n <= 0 {
        Seq::new(len, |k: int| 0)
    } else {
        let rest = total(polys, len, n - 1);
        Seq::new(len, |k: int| rest[k] + polys[n - 1][k])
    }
}

proof fn lemma_total(polys: Seq<Seq<int>>, len: nat, n: int, x: int)
    requires
        0 <= n <= polys.len(),
        forall|k: int| 0 <= k < polys.len() ==> (#[trigger] polys[k]).len() == len,
    ensures
        total(polys, len, n).len() == len,
        poly(total(polys, len, n), x) == sum(|k: int| poly(polys[k], x), 0, n),
    decreases n,
{
    let w = total(polys, len, n);
    if n == 0 {
        lemma_poly_zeros(w, x);
    } else {
        lemma_total(polys, len, n - 1, x);
        assert(polys[n - 1].len() == len);
        lemma_poly_linear(total(polys, len, n - 1), polys[n - 1], w, 1, 1, x);
    }
}

/// Whether `b` tells if what the first `degree + 1` receivers hold over the listed dealers recovers
/// the sum of the commitments to the dealers' secrets.
pub open spec fn agrees<C: Curve>(
    dealt: Seq<NejiContribution<C>>,
    gens: NejiGenerators<C>,
    degree: int,
    order: Seq<usize>,
    b: bool,
) -> bool {
    exists|v: int|
        #[trigger] reconstructed(v, dealt, gens, degree, order) && b == (v == secret_sum(
            dealt,
            order,
            order.len() as int,
        ) % C::order())
}

/// `v` is what Lagrange's weights for zero make of what the first `degree + 1` receivers hold over
/// the listed dealers.
pub open spec fn reconstructed<C: Curve>(
    v: int,
    dealt: Seq<NejiContribution<C>>,
    gens: NejiGenerators<C>,
    degree: int,
    order: Seq<usize>,
) -> bool {
    let count = (degree + 1) as nat;
    lagrange_value(
        v,
        receivers(count),
        share_values(dealt, gens, order, count),
        0,
        C::order(),
    )
}

/// Reconstructs `g^sk` over the qualified dealers and compares it with the sum of their commitments;
/// `None` where nobody qualifies or there are too few receivers. Over dealers all of whose shares
/// open their commitments it agrees.
pub fn neji_reconstruct_ok<C: Curve>(
    dealt: &Vec<NejiContribution<C>>,
    gens: &NejiGenerators<C>,
    suite: &Suite<C>,
    degree: usize,
    qual: &BTreeSet<usize>,
) -> (r: Option<bool>)
    requires
        suite.ready(dealt.len() as int),
        all_valid(dealt@, *gens, *suite, degree as int),
        dealt.len() <= i64::MAX,
        forall|d: usize| #[trigger] qual@.contains(d) ==> d < dealt.len(),
    ensures
        match r {
            Some(b) => {
                &&& qual@.len() > 0
                &&& degree < dealt.len()
                &&& exists|order: Seq<usize>|
                    #[trigger] enumerates(order, qual@) && agrees(
                        dealt@,
                        *gens,
                        degree as int,
                        order,
                        b,
                    )
            },
            None => qual@.len() == 0 || degree >= dealt.len(),
        },
        (forall|d: usize| #[trigger] qual@.contains(d) ==> dealt[d as int].sound_throughout(*gens))
            ==> r != Some(false),
{
    if qual.len() == 0 || degree >= dealt.len() {
        return None;
    }
    let ghost m = C::order();
    let order = ascending(qual);
    proof {
        C::order_exceeds_words();
        assert forall|k: int| 0 <= k < order.len() implies (#[trigger] order[k]) < dealt.len()
            && qual@.contains(order[k]) by {
            assert(order@.to_set().contains(order@[k]));
        }
    }
    let mut agg: Point<C> = Point::zero();
    for k in 0..order.len()
        invariant
            m == C::order(),
            m > 1,
            forall|k: int| 0 <= k < order.len() ==> (#[trigger] order[k]) < dealt.len(),
            cong(agg@, secret_sum(dealt@, order@, k as int), m),
    {
        let ghost a = agg@;
        let c0 = dealt[order[k]].c0;
        agg = agg.add(&c0);
        proof {
            lemma_cong_add(a, secret_sum(dealt@, order@, k as int), c0@, c0@, m);
            lemma_cong_mod(a + c0@, m);
        }
    }
    let mut points: Vec<Point<C>> = Vec::new();
    for j in 0..degree + 1
        invariant
            degree < dealt.len(),
            suite.ready(dealt.len() as int),
            all_valid(dealt@, *gens, *suite, degree as int),
            forall|k: int| 0 <= k < order.len() ==> (#[trigger] order[k]) < dealt.len(),
            points.len() == j,
            forall|i: int|
                0 <= i < j ==> #[trigger] points[i]@ == share_sum(
                    dealt@,
                    *gens,
                    order@,
                    i,
                    order.len() as int,
                ) % C::order(),
    {
        points.push(joint_share(dealt, gens, suite, degree, &order, j));
    }
    let indices = receiver_scalars::<C>(degree + 1);
    let ghost count = (degree + 1) as nat;
    let ghost values = share_values(dealt@, *gens, order@, count);
    match ShamirPolynomial::lambda_at_zero(indices.as_slice()) {
        Ok(lambdas) => {
            let recon = combine(&lambdas, &points);
            let b = recon == agg;
            proof {
                assert(exponents(points@) =~= values);
                lemma_cong_small(0, m);
                lemma_recovers::<C>(residues(lambdas@), receivers(count), values, 0, recon@);
                agg.lemma_range();
                lemma_cong_small(agg@, m);
                assert(agg@ == secret_sum(dealt@, order@, order.len() as int) % m);
                assert(reconstructed(recon@, dealt@, *gens, degree as int, order@));
                assert(enumerates(order@, qual@));
                assert(agrees(dealt@, *gens, degree as int, order@, b));
                if forall|d: usize| #[trigger]
                    qual@.contains(d) ==> dealt[d as int].sound_throughout(*gens) {
                    assert forall|k: int| 0 <= k < order.len() implies {
                        let d = dealt[(#[trigger] order[k]) as int];
                        &&& d.distribution.commitments.len() == degree + 1
                        &&& d.distribution.shares.len() == dealt.len()
                        &&& d.c0 == d.distribution.commitments[0]
                        &&& d.sound_throughout(*gens)
                    } by {
                        assert(dealt[order[k] as int].valid(
                            *gens,
                            suite.base,
                            suite.receiver_pks@,
                            degree as int,
                        ));
                    }
                    law_secret_recovered(dealt@, *gens, degree as int, order@, recon@);
                }
            }
            Some(b)
        },
        Err(_) => {
            assert(false);
            None
        },
    }
}

/// A run: the contributions, the complaints, who qualified, and the outcome.
pub struct NejiRun<C: Curve> {
    pub contributions: Vec<NejiContribution<C>>,
    pub complaints: Vec<Complaint>,
    pub qual: BTreeSet<usize>,
    pub outcome: Outcome,
    pub payload: usize,
}

/// What a run guarantees: the dealers shift the share of the first receiver by their offsets, the
/// complaints are those over shares that do not open, the dealers all of whose shares open qualify,
/// among them all without an offset, and the key reconstructs wherever somebody qualifies.
pub open spec fn ran<C: Curve>(
    run: NejiRun<C>,
    gens: NejiGenerators<C>,
    suite: Suite<C>,
    degree: int,
    offsets: Map<usize, Scalar<C>>,
) -> bool {
    let n = suite.receiver_pks.len() as int;
    let dealt = run.contributions@;
    &&& all_valid(dealt, gens, suite, degree)
    &&& forall|d: int|
        0 <= d < n ==> (#[trigger] dealt[d]).tampered(n, offset_of(offsets, d))
    &&& pairs(run.complaints@) == failures(soundness(dealt, gens), n)
    &&& forall|d: usize| #[trigger]
        run.qual@.contains(d) <==> d < n && dealt[d as int].sound_throughout(gens)
    &&& forall|d: usize| d < n && !offsets.contains_key(d) ==> #[trigger] run.qual@.contains(d)
    &&& run.outcome.faulty@ == Set::<usize>::empty()
    &&& run.outcome.complaints == run.complaints.len()
    &&& run.outcome.qual == run.qual@.len()
    &&& run.outcome.reconstructed_ok == if run.qual@.len() == 0 || degree >= n {
        None
    } else {
        Some(true)
    }
    &&& run.payload == neji_payload_bytes::<C>(degree, n)
}

/// Where every offset shows, each dealer with an offset draws exactly one complaint, of the first
/// receiver; nobody else draws any; exactly the others qualify; and the key reconstructs wherever
/// there is one among them.
pub proof fn law_run_by_malice<C: Curve>(
    run: NejiRun<C>,
    gens: NejiGenerators<C>,
    suite: Suite<C>,
    degree: int,
    offsets: Map<usize, Scalar<C>>,
)
    requires
        ran(run, gens, suite, degree, offsets),
        telling(offsets, gens.g@),
        forall|i: usize| #[trigger] offsets.contains_key(i) ==> i < suite.receiver_pks.len(),
    ensures
        pairs(run.complaints@) == one_each(
            offsets.dom(),
            first_receiver(),
            suite.receiver_pks.len() as int,
        ),
        offsets.dom().finite(),
        run.outcome.complaints == offsets.dom().len(),
        forall|d: usize| #[trigger]
            run.qual@.contains(d) <==> d < suite.receiver_pks.len() && !offsets.contains_key(d),
        run.outcome.qual == suite.receiver_pks.len() - offsets.dom().len(),
        offsets.dom().len() < suite.receiver_pks.len() && degree < suite.receiver_pks.len()
            ==> run.outcome.reconstructed_ok == Some(true),
{
    let n = suite.receiver_pks.len() as int;
    let dealt = run.contributions@;
    let (bad, victim) = (offsets.dom(), first_receiver());
    let sound = soundness(dealt, gens);
    assert forall|d: int, j: int| 0 <= d < n && 0 <= j < n implies (#[trigger] sound(d, j) <==> !(
    bad.contains(d as usize) && j == victim(d))) by {
        let c = dealt[d];
        assert(c.valid(gens, suite.base, suite.receiver_pks@, degree));
        assert(c.tampered(n, offset_of(offsets, d)));
        let delta = offset_at(j, 0, offset_of(offsets, d));
        assert(c.off_by(j, delta));
        law_off_share_detected(c, gens, j, delta);
        assert(gens.g@ * 0 == 0) by (nonlinear_arith);
    }
    assert(forall|d: int| 0 <= d < n ==> 0 <= #[trigger] victim(d) < n);
    assert(fails_victims(sound, n, bad, victim));
    law_one_accusation_each(sound, n, bad, victim);
    assert forall|d: usize| #[trigger] run.qual@.contains(d) <==> d < n && !offsets.contains_key(
        d,
    ) by {
        if d < n && offsets.contains_key(d) {
            let c = dealt[d as int];
            assert(c.valid(gens, suite.base, suite.receiver_pks@, degree));
            assert(!sound(d as int, 0));
            assert(!c.sound(gens, 0));
        }
    }
    lemma_rest_len(n, bad, run.qual@);
}

/// Runs the protocol, the dealers tampering with the given offsets: every party deals, checks and
/// complains; disputations decide who qualifies.
pub fn run_neji_with<J: Curve>(
    env: &Env<J>,
    offsets: &BTreeMap<usize, Scalar<J>>,
    rng: &mut ChaCha20Rng,
) -> (r: Result<NejiRun<J>, VssError>)
    requires
        env.wf(),
        env.n >= 1,
        env.degree < usize::MAX,
        neji_payload_bytes::<J>(env.degree as int, env.n as int) <= usize::MAX,
    ensures
        match r {
            Ok(run) => env.degree >= 1 && ran(
                run,
                env.jj_neji,
                env.jj,
                env.degree as int,
                offsets@,
            ),
            Err(e) => env.degree < 1 && e == VssError::InsufficientDegree(env.degree),
        },
{
    let n = env.n;
    let gens = &env.jj_neji;
    let mut contributions: Vec<NejiContribution<J>> = Vec::new();
    for i in 0..n
        invariant
            n == env.n,
            env.wf(),
            env.n >= 1,
            env.degree < usize::MAX,
            i > 0 ==> env.degree >= 1,
            *gens == env.jj_neji,
            contributions.len() == i,
            forall|d: int|
                0 <= d < i ==> (#[trigger] contributions[d]).valid(
                    *gens,
                    env.jj.base,
                    env.jj.receiver_pks@,
                    env.degree as int,
                ),
            forall|d: int|
                0 <= d < i ==> (#[trigger] contributions[d]).tampered(
                    n as int,
                    offset_of(offsets@, d),
                ),
    {
        let shift: Option<Scalar<J>> = match offsets.get(&i) {
            Some(delta) => Some(*delta),
            None => None,
        };
        let c = deal_neji(&env.jj, gens, env.degree, shift, rng)?;
        let ghost before = contributions@;
        contributions.push(c);
        assert forall|d: int| 0 <= d <= i implies (#[trigger] contributions[d]).tampered(
            n as int,
            offset_of(offsets@, d),
        ) by {
            if d < i {
                assert(contributions[d] == before[d]);
            }
        }
    }
    let complaints = file_complaints(&contributions, gens, &env.jj, env.degree);
    assert forall|d: int| 0 <= d < contributions.len() implies
        (#[trigger] contributions[d]).distribution.shares.len() == contributions.len() by {
        assert(contributions[d].valid(
            *gens,
            env.jj.base,
            env.jj.receiver_pks@,
            env.degree as int,
        ));
    }
    let settled = resolve(
        &contributions,
        gens,
        env.degree,
        &complaints,
        neutral_count(env.n),
        rng,
    )?;
    let qual = settled.qual;
    let reconstructed_ok = neji_reconstruct_ok(&contributions, gens, &env.jj, env.degree, &qual);
    proof {
        assert(gens.g@ * 0 == 0) by (nonlinear_arith);
        assert forall|d: usize| d < n && !offsets@.contains_key(d) implies
            #[trigger] qual@.contains(d) by {
            let c = contributions[d as int];
            assert(c.valid(*gens, env.jj.base, env.jj.receiver_pks@, env.degree as int));
            assert(c.tampered(n as int, offset_of(offsets@, d as int)));
            assert forall|j: int| 0 <= j < n implies #[trigger] c.sound(*gens, j) by {
                assert(c.off_by(j, offset_at(j, 0, offset_of(offsets@, d as int))));
                law_off_share_detected(c, *gens, j, 0);
            }
        }
    }
    let payload = contributions[0].payload();
    let outcome = Outcome {
        faulty: BTreeSet::new(),
        complaints: complaints.len(),
        qual: qual.len(),
        reconstructed_ok,
    };
    Ok(NejiRun { contributions, complaints, qual, outcome, payload })
}

/// Runs the protocol, the dishonest dealers tampering with offsets drawn at random. Which layer a
/// dealer is said to corrupt plays no part.
pub fn run_neji<J: Curve>(env: &Env<J>, rng: &mut ChaCha20Rng) -> (r: Result<NejiRun<J>, VssError>)
    requires
        env.wf(),
        env.n >= 1,
        env.degree < usize::MAX,
        neji_payload_bytes::<J>(env.degree as int, env.n as int) <= usize::MAX,
    ensures
        match r {
            Ok(run) => env.degree >= 1 && exists|offsets: Map<usize, Scalar<J>>|
                offsets.dom() == env.malice@.dom() && #[trigger] ran(
                    run,
                    env.jj_neji,
                    env.jj,
                    env.degree as int,
                    offsets,
                ),
            Err(e) => env.degree < 1 && e == VssError::InsufficientDegree(env.degree),
        },
{
    let offsets = draw_offsets(&keys_ascending(&env.malice), rng);
    run_neji_with(env, &offsets, rng)
}

} // verus!
