//! What runs of the protocols report, in terms of what was dealt.
use crate::algebra::{cong, lemma_cong_mod, lemma_sum_eq, poly};
use crate::bench::aggregatable::AggregatableRun;
use crate::bench::five::{payload_bytes, FiveRun};
use crate::bench::gurkan::{checked, places, secrets_of, weighted_sum};
use crate::bench::malice::{corrupting, offset_in, tampering_of};
use crate::bench::neji::{reason_for, soundness, NejiContribution, NejiRun};
use crate::bench::protocol::Layer;
use crate::bls::{g1_order, Bls12381};
use crate::curve::{exponents, Curve, Point, Scalar};
use crate::dkg::accusations::{failing_receivers, failures, one_each};
use crate::dkg::carrier::{Carrier, HalfShare};
use crate::dkg::complaint::pairs;
use crate::dkg::encryption::EncryptedPedersenShare;
use crate::dkg::neji::{DisqualificationReason, NejiGenerators};
use crate::dkg::published::Published;
use crate::dkg::suite::Suite;
use crate::dkg::tampering::{offset_at, telling};
use crate::jubjub::Jubjub;
use crate::laws::rounds::fails;
use crate::pairing::G2Point;
use vstd::arithmetic::power::pow;
use vstd::prelude::*;

verus! {

broadcast use {vstd::laws_cmp::group_laws_cmp, vstd::std_specs::btree::group_btree_axioms};

/// In a run of five secrets a dealer qualifies exactly if none of its shares of either sharing fails.
/// The outcome counts the complaints over both sharings and the qualified; nobody is caught publicly;
/// and the key reconstructs unless nobody qualifies or there are too few receivers to ask.
pub proof fn law_five_secrets<C: Curve, X: Carrier<C>>(
    run: FiveRun<C, X>,
    suite: Suite<C>,
    degree: int,
    d: usize,
)
    requires
        run.settled(suite, degree),
        suite.receiver_pks.len() <= usize::MAX,
        d < suite.receiver_pks.len(),
    ensures
        run.qual@.contains(d) <==> (forall|c: usize|
            !#[trigger] fails(run.contributions.xy@, suite.generators, d, c)) && (forall|c: usize|
            !#[trigger] fails(run.contributions.z@, suite.generators, d, c)),
        run.outcome.complaints == run.complaints_xy.len() + run.complaints_z.len(),
        run.outcome.qual == run.qual@.len(),
        forall|i: usize| !#[trigger] run.outcome.faulty@.contains(i),
        run.qual@.len() > 0 && degree < suite.receiver_pks.len() ==> run.outcome.reconstructed_ok
            == Some(true),
        run.qual@.len() == 0 || degree >= suite.receiver_pks.len()
            ==> run.outcome.reconstructed_ok is None,
{
    let dealt = run.contributions;
    let (gens, n) = (suite.generators, suite.receiver_pks.len() as int);
    assert(dealt.at(d as int).valid(suite, degree));
    let (xy, z) = (dealt.xy[d as int], dealt.z[d as int]);
    assert(xy.distribution.shares.len() == n && z.distribution.shares.len() == n);
    if dealt.sound(suite, d as int) {
        assert forall|c: usize| !#[trigger] fails(dealt.xy@, gens, d, c) by {
            if 1 <= c <= n {
                assert(xy.sound(gens, c - 1));
            }
        }
        assert forall|c: usize| !#[trigger] fails(dealt.z@, gens, d, c) by {
            if 1 <= c <= n {
                assert(z.sound(gens, c - 1));
            }
        }
    }
    if (forall|c: usize| !#[trigger] fails(dealt.xy@, gens, d, c)) && (forall|c: usize|
        !#[trigger] fails(dealt.z@, gens, d, c)) {
        assert forall|j: int| 0 <= j < n implies #[trigger] xy.sound(gens, j) by {
            assert(!fails(dealt.xy@, gens, d, (j + 1) as usize));
        }
        assert forall|j: int| 0 <= j < n implies #[trigger] z.sound(gens, j) by {
            assert(!fails(dealt.z@, gens, d, (j + 1) as usize));
        }
        assert(dealt.sound(suite, d as int));
    }
    assert(run.qual@.contains(d) <==> dealt.sound(suite, d as int));
}

/// The size of a broadcast of five secrets: every commitment, every point of every encrypted share,
/// eight for the first four secrets and eight or four for the last one, and the three points of the
/// key, each encoded.
pub proof fn law_five_secrets_payload<C: Curve>(
    full: FiveRun<C, EncryptedPedersenShare<C>>,
    half: FiveRun<C, HalfShare<C>>,
    suite: Suite<C>,
    degree: int,
)
    requires
        suite.receiver_pks.len() >= 1,
    ensures
        full.settled(suite, degree) ==> {
            let (xy, z) = (full.contributions.xy[0], full.contributions.z[0]);
            full.payload == (xy.distribution.commitments.len() + z.distribution.commitments.len()
                + 8 * xy.encrypted.len() + 8 * z.encrypted.len() + 3) * C::encoding_len()
        },
        half.settled(suite, degree) ==> {
            let (xy, z) = (half.contributions.xy[0], half.contributions.z[0]);
            half.payload == (xy.distribution.commitments.len() + z.distribution.commitments.len()
                + 8 * xy.encrypted.len() + 4 * z.encrypted.len() + 3) * C::encoding_len()
        },
{
    let n = suite.receiver_pks.len() as int;
    if full.settled(suite, degree) {
        assert(full.contributions.at(0).valid(suite, degree));
        assert(payload_bytes::<C, EncryptedPedersenShare<C>>(degree, n) == (2 * (degree + 1) + 8 * n
            + 8 * n + 3) * C::encoding_len());
        assert(full.contributions.xy[0].distribution.commitments.len() == degree + 1);
        assert(full.contributions.z[0].distribution.commitments.len() == degree + 1);
    }
    if half.settled(suite, degree) {
        assert(half.contributions.at(0).valid(suite, degree));
        assert(payload_bytes::<C, HalfShare<C>>(degree, n) == (2 * (degree + 1) + 8 * n + 4 * n + 3)
            * C::encoding_len());
        assert(half.contributions.xy[0].distribution.commitments.len() == degree + 1);
        assert(half.contributions.z[0].distribution.commitments.len() == degree + 1);
    }
}

/// Encoded points take 48 bytes on the pairing curve and 32 on the other.
pub proof fn law_encoded_sizes()
    ensures
        Bls12381::encoding_len() == 48,
        Jubjub::encoding_len() == 32,
{
}

/// A dealer that has both a layer to corrupt and an offset shifts the share of the first receiver in
/// that layer by it, and nothing in the other; everybody else shifts nothing.
pub proof fn law_tampering<C: Curve>(
    malice: Map<usize, Layer>,
    offsets: Map<usize, Scalar<C>>,
    i: usize,
    layer: Layer,
)
    ensures
        ({
            let shift = offset_in(tampering_of(malice, offsets, i as int), layer);
            &&& malice.contains_key(i) && offsets.contains_key(i) && malice[i] == layer ==> shift
                == offsets[i]@
            &&& malice.contains_key(i) && malice[i] != layer ==> shift == 0
            &&& !malice.contains_key(i) || !offsets.contains_key(i) ==> shift == 0
            &&& corrupting(malice, layer).contains(i) <==> malice.contains_key(i) && malice[i]
                == layer
        }),
{
}

/// The share that dealer `d` of the single-secret protocol dealt to receiver `c`, counted from one,
/// does not open its commitments.
pub open spec fn opens_not<C: Curve>(
    dealt: Seq<NejiContribution<C>>,
    gens: NejiGenerators<C>,
    d: usize,
    c: usize,
) -> bool {
    let it = dealt[d as int].distribution;
    &&& d < dealt.len()
    &&& 1 <= c <= dealt.len()
    &&& !cong(
        gens.g@ * it.shares[c - 1]@,
        poly(exponents(it.commitments@), c as int),
        C::order(),
    )
}

/// In a run of the single-secret protocol a dealer qualifies exactly if all its shares open its
/// commitments. The outcome counts the complaints and the qualified; nobody is caught publicly; the
/// key reconstructs unless nobody qualifies or there are too few receivers; and a broadcast is every
/// commitment, two points for every receiver and two more, each encoded.
pub proof fn law_single_secret<C: Curve>(
    run: NejiRun<C>,
    gens: NejiGenerators<C>,
    suite: Suite<C>,
    degree: int,
    offsets: Map<usize, Scalar<C>>,
    d: usize,
)
    requires
        crate::bench::neji::ran(run, gens, suite, degree, offsets),
        suite.receiver_pks.len() <= usize::MAX,
        d < suite.receiver_pks.len(),
    ensures
        run.qual@.contains(d) <==> forall|c: usize|
            !#[trigger] opens_not(run.contributions@, gens, d, c),
        run.outcome.complaints == run.complaints.len(),
        run.outcome.qual == run.qual@.len(),
        forall|i: usize| !#[trigger] run.outcome.faulty@.contains(i),
        run.qual@.len() > 0 && degree < suite.receiver_pks.len() ==> run.outcome.reconstructed_ok
            == Some(true),
        run.qual@.len() == 0 || degree >= suite.receiver_pks.len()
            ==> run.outcome.reconstructed_ok is None,
        run.payload == (run.contributions[0].distribution.commitments.len() + 2
            * run.contributions[0].enc.len() + 2) * C::encoding_len(),
{
    let n = suite.receiver_pks.len() as int;
    let dealt = run.contributions@;
    assert(dealt[0].valid(gens, suite.base, suite.receiver_pks@, degree));
    assert(dealt[d as int].valid(gens, suite.base, suite.receiver_pks@, degree));
    let c0 = dealt[d as int];
    if c0.sound_throughout(gens) {
        assert forall|c: usize| !#[trigger] opens_not(dealt, gens, d, c) by {
            if 1 <= c <= n {
                assert(c0.sound(gens, c - 1));
            }
        }
    }
    if forall|c: usize| !#[trigger] opens_not(dealt, gens, d, c) {
        assert forall|j: int| 0 <= j < n implies #[trigger] c0.sound(gens, j) by {
            assert(!opens_not(dealt, gens, d, (j + 1) as usize));
        }
    }
}

/// A dealer of the single-secret protocol is out for too many complaints if at least `degree` of its
/// shares, and at least one, do not open its commitments, and else for a lost disputation.
pub proof fn law_single_secret_reasons<C: Curve>(
    dealt: Seq<NejiContribution<C>>,
    gens: NejiGenerators<C>,
    degree: usize,
    d: usize,
    receivers: Set<usize>,
)
    requires
        d < dealt.len() <= usize::MAX,
        receivers.finite(),
    ensures
        receivers.len() >= degree && receivers.len() >= 1 && (forall|c: usize| #[trigger]
            receivers.contains(c) ==> opens_not(dealt, gens, d, c)) ==> reason_for(
            dealt,
            gens,
            degree,
            d,
        ) == DisqualificationReason::TooManyComplaints,
        receivers.len() < degree && (forall|c: usize| #[trigger]
            opens_not(dealt, gens, d, c) ==> receivers.contains(c)) ==> reason_for(
            dealt,
            gens,
            degree,
            d,
        ) == DisqualificationReason::LostDisputation,
{
    let n = dealt.len() as int;
    let sound = soundness(dealt, gens);
    let bad = failing_receivers(sound, n, d as int);
    assert forall|c: usize| #[trigger] bad.contains(c) <==> opens_not(dealt, gens, d, c) by {
        if 1 <= c <= n {
            assert(sound(d as int, c - 1) == dealt[d as int].sound(gens, c - 1));
        }
    }
    let ints = vstd::set_lib::set_int_range(0, n + 1);
    vstd::set_lib::lemma_int_range(0, n + 1);
    let all = ints.map(|x: int| x as usize);
    assert forall|c: usize| bad.contains(c) implies all.contains(c) by {
        assert(ints.contains(c as int));
    }
    ints.lemma_map_finite(|x: int| x as usize);
    vstd::set_lib::lemma_len_subset(bad, all);
    if forall|c: usize| #[trigger] receivers.contains(c) ==> opens_not(dealt, gens, d, c) {
        assert(receivers.subset_of(bad));
        vstd::set_lib::lemma_len_subset(receivers, bad);
    }
    if forall|c: usize| #[trigger] opens_not(dealt, gens, d, c) ==> receivers.contains(c) {
        assert forall|c: usize| bad.contains(c) implies receivers.contains(c) by {
            assert(opens_not(dealt, gens, d, c));
        }
        vstd::set_lib::lemma_len_subset(bad, receivers);
    }
}

/// In a run of the aggregatable protocol a dealer qualifies exactly if the layer for `z` did not
/// reject it and none of its shares fails. The outcome shows the rejected and counts the complaints
/// and the qualified; the key reconstructs unless nobody qualifies or there are too few receivers;
/// and a broadcast is every commitment, eight points for every receiver and three more, each encoded.
pub proof fn law_aggregatable<S>(
    run: AggregatableRun,
    suite: Suite<Bls12381>,
    degree: int,
    published: Published<Bls12381, S>,
    qagg: Set<usize>,
    d: usize,
)
    requires
        published.valid(suite, degree),
        run.settled(suite, degree, published, qagg),
        published.dealings.len() <= usize::MAX,
        d < suite.receiver_pks.len(),
    ensures
        run.qual@.contains(d) <==> !qagg.contains(d) && forall|c: usize|
            !#[trigger] fails(published.dealings@, suite.generators, d, c),
        run.outcome.faulty@.contains(d) <==> qagg.contains(d),
        run.outcome.complaints == run.complaints.len(),
        run.outcome.qual == run.qual@.len(),
        run.qual@.len() > 0 && degree < suite.receiver_pks.len() ==> run.outcome.reconstructed_ok
            == Some(true),
        run.qual@.len() == 0 || degree >= suite.receiver_pks.len()
            ==> run.outcome.reconstructed_ok is None,
        run.payload == (published.contributions@[0].commitments.len() + 8
            * published.contributions@[0].encrypted_shares.len() + 3) * 48,
{
    let gens = suite.generators;
    assert(published.dealings[d as int].valid(gens, suite.base, suite.receiver_pks@, degree));
    assert(published.dealings[0].valid(gens, suite.base, suite.receiver_pks@, degree));
    let c0 = published.contributions@[0];
    assert(c0.commitments@ == published.dealings[0].distribution.commitments@);
    assert(c0.encrypted_shares@ == published.dealings[0].encrypted@);
    let it = published.dealings[d as int];
    let n = published.dealings.len() as int;
    if it.sound_throughout(gens) {
        assert forall|c: usize| !#[trigger] fails(published.dealings@, gens, d, c) by {
            if 1 <= c <= n {
                assert(it.sound(gens, c - 1));
            }
        }
    }
    if forall|c: usize| !#[trigger] fails(published.dealings@, gens, d, c) {
        assert forall|j: int| 0 <= j < n implies #[trigger] it.sound(gens, j) by {
            assert(!fails(published.dealings@, gens, d, (j + 1) as usize));
        }
    }
    assert(run.qual@.contains(d) <==> published.qualifies(suite, qagg, d));
}

/// The combined commitment of nobody is neutral, and each contribution adds its weight times its
/// commitment.
pub proof fn law_combined_commitment(
    accepted: Seq<(u64, Point<Bls12381>)>,
    weight: u64,
    commitment: Point<Bls12381>,
)
    ensures
        weighted_sum(accepted, 0) == 0,
        weighted_sum(accepted.push((weight, commitment)), accepted.len() as int + 1) == weighted_sum(
            accepted,
            accepted.len() as int,
        ) + weight * commitment@,
{
    let more = accepted.push((weight, commitment));
    lemma_sum_eq(
        |k: int| more[k].0 * more[k].1@,
        |k: int| accepted[k].0 * accepted[k].1@,
        0,
        accepted.len() as int,
    );
}

/// The check of the receivers' secrets is made where there are more than the degree, all at
/// different places, and not otherwise.
pub proof fn law_secrets_checked(
    r: Option<bool>,
    degree: int,
    g: int,
    h: int,
    c: int,
    indices: Seq<int>,
    secrets: Seq<int>,
)
    requires
        checked(r, degree, g, h, c, indices, secrets),
    ensures
        r is Some <==> indices.len() > degree && forall|i: int, j: int|
            0 <= i < j < indices.len() ==> indices[i] != indices[j],
{
}

/// A receiver's place is the power of the domain's generator by its index, and its secret is its own.
pub proof fn law_places(received: Seq<(usize, G2Point)>, generator: int, k: int)
    requires
        0 <= k < received.len(),
    ensures
        places(received, generator).len() == received.len(),
        secrets_of(received).len() == received.len(),
        places(received, generator)[k] == pow(generator, received[k].0 as nat) % g1_order(),
        secrets_of(received)[k] == received[k].1@,
{
}

/// An honest share of the single-secret protocol is the value of the polynomial at its receiver's
/// place; only the first receiver's is off, by the offset.
pub proof fn law_single_secret_tampering<C: Curve>(
    c: NejiContribution<C>,
    n: int,
    delta: int,
    j: int,
)
    requires
        c.tampered(n, delta),
        0 <= j < n,
    ensures
        ({
            let m = C::order();
            let honest = poly(c.secrets.poly.coefficients(), j + 1) % m;
            let dealt = c.distribution.shares[j]@;
            &&& j == 0 ==> dealt == (honest + delta) % m
            &&& j > 0 ==> dealt == honest
        }),
{
    C::order_exceeds_words();
    assert(c.off_by(j, offset_at(j, 0, delta)));
    lemma_cong_mod(poly(c.secrets.poly.coefficients(), j + 1), C::order());
}

proof fn lemma_one_each(bad: Set<usize>, victim: spec_fn(int) -> int, n: int, k: int)
    requires
        0 <= n <= usize::MAX + 1,
        0 <= k < one_each(bad, victim, n).len(),
        forall|d: int| 0 <= d < n ==> 0 <= #[trigger] victim(d) < usize::MAX,
    ensures
        ({
            let it = one_each(bad, victim, n)[k];
            &&& it.0 < n
            &&& bad.contains(it.0)
            &&& it.1 == victim(it.0 as int) + 1
        }),
    decreases n,
{
    if n > 0 {
        let rest = one_each(bad, victim, n - 1);
        if k < rest.len() {
            lemma_one_each(bad, victim, n - 1, k);
        }
    }
}

/// Where every offset shows, all complaints of a run of five secrets are those of the first receiver,
/// and each is of a dealer that corrupts the layer in question.
pub proof fn law_first_receiver_complains<C: Curve, X: Carrier<C>>(
    run: FiveRun<C, X>,
    suite: Suite<C>,
    degree: int,
    malice: Map<usize, Layer>,
    offsets: Map<usize, Scalar<C>>,
    k: int,
)
    requires
        crate::bench::malice::ran(run, suite, degree, malice, offsets),
        offsets.dom() == malice.dom(),
        telling(offsets, suite.generators.g1@),
        forall|i: usize| #[trigger] malice.contains_key(i) ==> i < suite.receiver_pks.len(),
    ensures
        0 <= k < run.complaints_xy.len() ==> run.complaints_xy[k].complainer == 1
            && malice.contains_key(run.complaints_xy[k].dealer) && malice[run.complaints_xy[k].dealer]
            == Layer::Xy,
        0 <= k < run.complaints_z.len() ==> run.complaints_z[k].complainer == 1
            && malice.contains_key(run.complaints_z[k].dealer) && malice[run.complaints_z[k].dealer]
            == Layer::Z,
{
    crate::bench::malice::law_run_by_malice(run, suite, degree, malice, offsets);
    let n = suite.receiver_pks.len() as int;
    let victim = crate::bench::malice::first_receiver();
    if 0 <= k < run.complaints_xy.len() {
        let ps = pairs(run.complaints_xy@);
        assert(ps[k] == (run.complaints_xy[k].dealer, run.complaints_xy[k].complainer));
        lemma_one_each(corrupting(malice, Layer::Xy), victim, n, k);
    }
    if 0 <= k < run.complaints_z.len() {
        let ps = pairs(run.complaints_z@);
        assert(ps[k] == (run.complaints_z[k].dealer, run.complaints_z[k].complainer));
        lemma_one_each(corrupting(malice, Layer::Z), victim, n, k);
    }
}

/// So are all complaints of a run of the single-secret protocol, each of a dealer with an offset.
pub proof fn law_single_secret_complaints<C: Curve>(
    run: NejiRun<C>,
    gens: NejiGenerators<C>,
    suite: Suite<C>,
    degree: int,
    offsets: Map<usize, Scalar<C>>,
    k: int,
)
    requires
        crate::bench::neji::ran(run, gens, suite, degree, offsets),
        telling(offsets, gens.g@),
        forall|i: usize| #[trigger] offsets.contains_key(i) ==> i < suite.receiver_pks.len(),
        0 <= k < run.complaints.len(),
    ensures
        run.complaints[k].complainer == 1,
        offsets.contains_key(run.complaints[k].dealer),
{
    crate::bench::neji::law_run_by_malice(run, gens, suite, degree, offsets);
    let n = suite.receiver_pks.len() as int;
    let ps = crate::dkg::neji::pairs(run.complaints@);
    assert(ps[k] == (run.complaints[k].dealer, run.complaints[k].complainer));
    lemma_one_each(offsets.dom(), crate::bench::malice::first_receiver(), n, k);
}

/// The complaints of the single-secret protocol are those over shares that do not open, in the order of
/// the dealers and, for one dealer, of the receivers.
pub proof fn law_single_secret_filed<C: Curve>(
    dealt: Seq<NejiContribution<C>>,
    gens: NejiGenerators<C>,
    complaints: Seq<crate::dkg::neji::Complaint>,
    d: usize,
    c: usize,
    a: int,
    b: int,
)
    requires
        dealt.len() <= usize::MAX,
        crate::dkg::neji::pairs(complaints) == failures(soundness(dealt, gens), dealt.len() as int),
    ensures
        complaints.contains(crate::dkg::neji::Complaint { dealer: d, complainer: c }) <==> opens_not(
            dealt,
            gens,
            d,
            c,
        ),
        0 <= a < b < complaints.len() ==> complaints[a].dealer < complaints[b].dealer || (
        complaints[a].dealer == complaints[b].dealer && complaints[a].complainer
            < complaints[b].complainer),
{
    let n = dealt.len() as int;
    let sound = soundness(dealt, gens);
    let ps = failures(sound, n);
    crate::dkg::accusations::lemma_failures(sound, n);
    crate::laws::rounds::lemma_ascending(sound, n, n, 0);
    let it = crate::dkg::neji::Complaint { dealer: d, complainer: c };
    if complaints.contains(it) {
        let k = choose|k: int| 0 <= k < complaints.len() && complaints[k] == it;
        assert(ps[k] == (d, c));
        assert(crate::dkg::accusations::complainers(ps, d).contains(c));
        assert(failing_receivers(sound, n, d as int).contains(c));
    }
    if opens_not(dealt, gens, d, c) {
        assert(!sound(d as int, c - 1));
        assert(failing_receivers(sound, n, d as int).contains(c));
        assert(crate::dkg::accusations::complainers(ps, d).contains(c));
        let k = choose|k: int| 0 <= k < ps.len() && ps[k] == (d, c);
        assert(complaints[k].dealer == d && complaints[k].complainer == c);
        assert(complaints[k] == it);
    }
    if 0 <= a < b < complaints.len() {
        assert(ps[a] == (complaints[a].dealer, complaints[a].complainer));
        assert(ps[b] == (complaints[b].dealer, complaints[b].complainer));
    }
}

} // verus!
