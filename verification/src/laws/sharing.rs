//! What committing, sharing, encrypting and disputing come to, in terms of exponents.
use crate::algebra::{
    cong, lemma_cong_add, lemma_cong_mod, lemma_cong_sub, lemma_poly_monomials, lemma_poly_push,
    poly, sum,
};
use crate::bench::five::{reconstructed_first, sums_to, Contribution, Contributions};
use crate::bench::neji::NejiContribution;
use crate::curve::{exponents, Curve, Point, Scalar};
use crate::dkg::accusations::{accused, complainers};
use crate::dkg::carrier::{Carrier, HalfShare};
use crate::dkg::complaint::{NeutralBlind, Verdict};
use crate::dkg::dmkg::{
    aggregated, aggregates, joint_value, law_reconstruction, receiver_indices, receiver_values,
    DMKGContribution, PublicKey,
};
use crate::dkg::encryption::{is_key, ElGamalBase, ElGamalCiphertext};
use crate::dkg::keygen::matches_key;
use crate::dkg::mss::{indices_of, recovers, values_at, values_of};
use crate::dkg::neji::NejiGenerators;
use crate::dkg::pedersen::{
    PedersenDealerSecrets, PedersenDistribution, PedersenGenerators, PedersenShare,
};
use crate::dkg::published::Published;
use crate::dkg::round::{reconstructed, Dealing, PedersenDealing};
use crate::dkg::suite::Suite;
use crate::dkg::tampering::offset_at;
use crate::hash::{blake2s_digest, derived};
use vstd::arithmetic::power::pow;
use vstd::prelude::*;
use vstd::utf8::encode_utf8;

verus! {

/// The value of a polynomial is the sum of its coefficients times powers of the place, the constant
/// term first.
pub proof fn law_polynomial(c: Seq<int>, x: int, v: int)
    ensures
        poly(c, x) == sum(|k: int| c[k] * pow(x, k as nat), 0, c.len() as int),
        poly(c.push(v), x) == poly(c, x) + v * pow(x, c.len()),
        c.len() > 0 ==> poly(c, 0) == c[0],
{
    lemma_poly_monomials(c, x, c.len() as int);
    assert(c.take(c.len() as int) =~= c);
    lemma_poly_push(c, v, x);
    if c.len() > 0 {
        assert(poly(c, 0) == c[0] + 0 * poly(c.drop_first(), 0));
        assert(0 * poly(c.drop_first(), 0) == 0) by (nonlinear_arith);
    }
}

/// A sum adds the values one by one.
pub proof fn law_sum(f: spec_fn(int) -> int, lo: int, hi: int)
    ensures
        hi <= lo ==> sum(f, lo, hi) == 0,
        hi >= lo ==> sum(f, lo, hi + 1) == sum(f, lo, hi) + f(hi),
{
}

/// The commitment to four values is the sum of each by its own generator: the first with `g1` and its
/// mask with `h1`, the second with `g2` and its mask with `h2`.
pub proof fn law_commitment<C: Curve>(
    gens: PedersenGenerators<C>,
    a: int,
    b: int,
    a_prime: int,
    b_prime: int,
    blind: NeutralBlind<C>,
)
    ensures
        gens.commitment(a, b, a_prime, b_prime) == gens.g1@ * a + gens.h1@ * b + gens.g2@ * a_prime
            + gens.h2@ * b_prime,
        blind.committed(gens) <==> blind.commitment@ == (gens.g1@ * blind.da@ + gens.h1@
            * blind.db@ + gens.g2@ * blind.da_prime@ + gens.h2@ * blind.db_prime@) % C::order(),
{
}

/// A dealing shares `x1` and `y1` by the first polynomial and `x2` and `y2` by the second, at `-1` and
/// `-2`; it commits to every coefficient; and receiver `j` has the values at `j`.
pub proof fn law_dealing<C: Curve>(
    gens: PedersenGenerators<C>,
    secrets: PedersenDealerSecrets<C>,
    dealt: PedersenDistribution<C>,
    degree: int,
    k: int,
    j: int,
)
    requires
        secrets.pinned(degree),
        dealt.deals(gens, secrets),
        0 <= k <= degree,
        1 <= j <= dealt.shares.len(),
    ensures
        ({
            let m = C::order();
            let (f, g) = (secrets.f.coefficients(), secrets.g.coefficients());
            let (fp, gp) = (secrets.f_prime.coefficients(), secrets.g_prime.coefficients());
            let share = dealt.shares[j - 1];
            &&& f.len() == degree + 1 && g.len() == degree + 1
            &&& fp.len() == degree + 1 && gp.len() == degree + 1
            &&& poly(f, -1) % m == secrets.x1@ && poly(f, -2) % m == secrets.y1@
            &&& poly(g, -1) % m == secrets.x2@ && poly(g, -2) % m == secrets.y2@
            &&& dealt.commitments.len() == degree + 1
            &&& dealt.commitments[k]@ == (gens.g1@ * f[k] + gens.h1@ * fp[k] + gens.g2@ * g[k]
                + gens.h2@ * gp[k]) % m
            &&& share.sf@ == poly(f, j) % m && share.sf_prime@ == poly(fp, j) % m
            &&& share.sg@ == poly(g, j) % m && share.sg_prime@ == poly(gp, j) % m
        }),
{
}

/// The generators are hashed from their own names, each layer's under its own domain separator.
pub proof fn law_generators<C: Curve>(suite: Suite<C>)
    requires
        suite.hashed(),
    ensures
        ({
            let from = |tag: Seq<char>, name: Seq<char>|
                C::seeded(blake2s_digest(encode_utf8(tag), encode_utf8(name)));
            &&& suite.generators.g1@ == from("DMKGPEDR"@, "pedersen-g1"@)
            &&& suite.generators.g2@ == from("DMKGPEDR"@, "pedersen-g2"@)
            &&& suite.generators.h1@ == from("DMKGPEDR"@, "pedersen-h1"@)
            &&& suite.generators.h2@ == from("DMKGPEDR"@, "pedersen-h2"@)
            &&& suite.base.g@ == from("DMKGENCR"@, "elgamal-base"@)
            &&& derived::<C>(crate::dkg::neji::PERSONALIZATION@, "neji-g"@) == from(
                "NEJIDKG_"@,
                "neji-g"@,
            )
            &&& derived::<C>(crate::dkg::neji::PERSONALIZATION@, "neji-h"@) == from(
                "NEJIDKG_"@,
                "neji-h"@,
            )
        }),
{
}

/// Every receiver's public key is the base raised to its secret key.
pub proof fn law_receivers<C: Curve>(suite: Suite<C>, n: int, j: int)
    requires
        suite.ready(n),
        0 <= j < n,
    ensures
        suite.elgamal.len() == n,
        suite.receiver_pks.len() == n,
        suite.receiver_pks[j]@ == (suite.base.g@ * suite.elgamal[j].sk@) % C::order(),
        suite.elgamal[j].pk == suite.receiver_pks[j],
{
    assert(is_key(suite.base, suite.elgamal[j].sk@, suite.receiver_pks[j]@));
}

/// A ciphertext holds the base raised to the nonce, and the message masked by the public key raised to
/// the nonce; the secret key takes off the first part raised to it.
pub proof fn law_ciphertext<C: Curve>(
    ct: ElGamalCiphertext<C>,
    base: ElGamalBase<C>,
    pk: int,
    message: int,
    nonce: int,
    sk: int,
)
    ensures
        ct.encrypts_with(base, pk, message, nonce) <==> ct.r@ == (base.g@ * nonce) % C::order()
            && ct.c@ == (message + pk * nonce) % C::order(),
        ct.decrypted(sk) == (ct.c@ - ct.r@ * sk) % C::order(),
        is_key(base, sk, pk) <==> pk == (base.g@ * sk) % C::order(),
{
}

/// Ciphertexts to one key add up: what the key makes of the sum is the sum of what it makes of each.
pub proof fn law_ciphertexts_add_up<C: Curve>(
    a: ElGamalCiphertext<C>,
    b: ElGamalCiphertext<C>,
    both: ElGamalCiphertext<C>,
    sk: int,
)
    requires
        both.r@ == (a.r@ + b.r@) % C::order(),
        both.c@ == (a.c@ + b.c@) % C::order(),
    ensures
        both.decrypted(sk) == (a.decrypted(sk) + b.decrypted(sk)) % C::order(),
{
    let m = C::order();
    C::order_exceeds_words();
    lemma_cong_mod(a.r@ + b.r@, m);
    lemma_cong_mod(a.c@ + b.c@, m);
    crate::algebra::lemma_cong_mul(both.r@, a.r@ + b.r@, sk, sk, m);
    lemma_cong_sub(both.c@, a.c@ + b.c@, both.r@ * sk, (a.r@ + b.r@) * sk, m);
    let (x, y) = (a.c@ - a.r@ * sk, b.c@ - b.r@ * sk);
    assert((a.c@ + b.c@) - (a.r@ + b.r@) * sk == x + y) by (nonlinear_arith)
        requires
            x == a.c@ - a.r@ * sk,
            y == b.c@ - b.r@ * sk,
    ;
    lemma_cong_mod(x, m);
    lemma_cong_mod(y, m);
    lemma_cong_add(x % m, x, y % m, y, m);
}

/// A disputation finds against the dealer exactly if its opening does not commit to the value of the
/// commitments at the complainer's place, and else against the complainer.
pub proof fn law_verdict<C: Curve>(
    gens: PedersenGenerators<C>,
    commitments: Seq<Point<C>>,
    j: int,
    opening: PedersenShare<C>,
)
    ensures
        ({
            let found = crate::dkg::complaint::verdict_of(
                gens,
                exponents(commitments),
                j,
                opening,
            );
            let opens = cong(
                gens.g1@ * opening.sf@ + gens.h1@ * opening.sf_prime@ + gens.g2@ * opening.sg@
                    + gens.h2@ * opening.sg_prime@,
                poly(exponents(commitments), j),
                C::order(),
            );
            &&& opens ==> found == Verdict::ComplainerDishonest
            &&& !opens ==> found == Verdict::DealerDishonest
        }),
{
}

/// So does a disputation over a single secret.
pub proof fn law_single_verdict<C: Curve>(
    gens: NejiGenerators<C>,
    commitments: Seq<Point<C>>,
    j: int,
    opening: int,
)
    ensures
        ({
            let found = crate::dkg::neji::verdict_of(gens, exponents(commitments), j, opening);
            let opens = cong(gens.g@ * opening, poly(exponents(commitments), j), C::order());
            &&& opens ==> found == crate::dkg::neji::Verdict::ComplainerDishonest
            &&& !opens ==> found == crate::dkg::neji::Verdict::DealerDishonest
        }),
{
}

/// The key of a single dealer is its contribution, point by point, and neutral where it has none.
pub proof fn law_key_of_one<C: Curve, S>(
    pk: PublicKey<C>,
    contributions: Map<usize, DMKGContribution<C, S>>,
    d: usize,
)
    requires
        aggregated(pk, contributions, Set::<usize>::empty().insert(d)),
    ensures
        contributions.contains_key(d) ==> {
            &&& pk.c1@ == contributions[d].c1_i@
            &&& pk.c2@ == contributions[d].c2_i@
            &&& pk.c3@ == contributions[d].c3_i@
        },
        !contributions.contains_key(d) ==> pk.c1@ == 0 && pk.c2@ == 0 && pk.c3@ == 0,
{
    let set = Set::<usize>::empty().insert(d);
    let order = choose|order: Seq<usize>| #[trigger]
        crate::collections::enumerates(order, set) && aggregates(pk, contributions, order);
    let one = seq![d];
    assert(one.to_set() =~= set) by {
        assert(one[0] == d);
    }
    crate::collections::lemma_enumeration_unique(order, one, set);
    reveal_with_fuel(sum, 2);
    let c = contributions[d];
    c.c1_i.lemma_range();
    c.c2_i.lemma_range();
    c.c3_i.lemma_range();
    crate::algebra::lemma_cong_small(c.c1_i@, C::order());
    crate::algebra::lemma_cong_small(c.c2_i@, C::order());
    crate::algebra::lemma_cong_small(c.c3_i@, C::order());
    crate::algebra::lemma_cong_small(0, C::order());
}

/// A contribution to the key commits to the values of the dealer's polynomials at `-1` and at `-2` and
/// to `z`, and every receiver decrypts from it the group elements of its own share.
pub proof fn law_contribution<C: Curve, S>(
    c: DMKGContribution<C, S>,
    gens: PedersenGenerators<C>,
    base: ElGamalBase<C>,
    pks: Seq<Point<C>>,
    secrets: PedersenDealerSecrets<C>,
    dealt: PedersenDistribution<C>,
    z: int,
    degree: int,
    j: int,
    sk: int,
)
    requires
        secrets.pinned(degree),
        dealt.deals(gens, secrets),
        c.publishes(gens, base, pks, secrets, dealt, z),
        1 <= j <= pks.len(),
        pks[j - 1]@ == (base.g@ * sk) % C::order(),
    ensures
        ({
            let m = C::order();
            let (f, g) = (secrets.f.coefficients(), secrets.g.coefficients());
            let (fp, gp) = (secrets.f_prime.coefficients(), secrets.g_prime.coefficients());
            let ct = c.encrypted_shares[j - 1];
            &&& cong(c.c1_i@, gens.g1@ * poly(f, -1) + gens.g2@ * poly(g, -1), m)
            &&& cong(c.c2_i@, gens.g1@ * poly(f, -2) + gens.g2@ * poly(g, -2), m)
            &&& cong(c.c3_i@, gens.g1@ * z, m)
            &&& c.commitments@ == dealt.commitments@
            &&& c.encrypted_shares.len() == pks.len()
            &&& cong(ct.sf.decrypted(sk), gens.g1@ * poly(f, j), m)
            &&& cong(ct.sf_prime.decrypted(sk), gens.h1@ * poly(fp, j), m)
            &&& cong(ct.sg.decrypted(sk), gens.g2@ * poly(g, j), m)
            &&& cong(ct.sg_prime.decrypted(sk), gens.h2@ * poly(gp, j), m)
        }),
{
    let m = C::order();
    C::order_exceeds_words();
    let (f, g) = (secrets.f.coefficients(), secrets.g.coefficients());
    let (fp, gp) = (secrets.f_prime.coefficients(), secrets.g_prime.coefficients());
    let (g1, g2, h1, h2) = (gens.g1@, gens.g2@, gens.h1@, gens.h2@);
    crate::dkg::keygen::lemma_pair::<C>(g1, g2, poly(f, -1), poly(g, -1));
    crate::dkg::keygen::lemma_pair::<C>(g1, g2, poly(f, -2), poly(g, -2));
    lemma_cong_mod(g1 * z, m);
    let share = dealt.shares[j - 1];
    let ct = c.encrypted_shares[j - 1];
    assert(ct.encrypts(gens, base, pks[j - 1]@, share));
    crate::dkg::encryption::law_share_decrypts(ct, gens, base, share, sk, pks[j - 1]@);
    assert(crate::dkg::pedersen::is_share(share, secrets, j));
    lemma_reduced(g1, share.sf@, poly(f, j), m);
    lemma_reduced(h1, share.sf_prime@, poly(fp, j), m);
    lemma_reduced(g2, share.sg@, poly(g, j), m);
    lemma_reduced(h2, share.sg_prime@, poly(gp, j), m);
}

proof fn lemma_reduced(g: int, s: int, v: int, m: int)
    requires
        m > 1,
        s == v % m,
    ensures
        cong((g * s) % m, g * v, m),
{
    lemma_cong_mod(v, m);
    crate::algebra::lemma_cong_mul(g, g, s, v, m);
    lemma_cong_mod(g * s, m);
}

/// What enough receivers hold recovers the first two points of the key: where each holds the values of
/// a dealer's two polynomials at its place in the exponent, the recovered points are the values of the
/// polynomials at `-1` and at `-2`.
pub proof fn law_components_recovered<C: Curve>(
    receivers: Seq<(usize, Point<C>, Point<C>)>,
    c1: int,
    c2: int,
    g1: int,
    g2: int,
    f: Seq<int>,
    g: Seq<int>,
)
    requires
        recovers(c1, receiver_indices(receivers), receiver_values(receivers), -1, C::order()),
        recovers(c2, receiver_indices(receivers), receiver_values(receivers), -2, C::order()),
        f.len() == g.len(),
        f.len() <= receivers.len(),
        forall|i: int|
            0 <= i < receivers.len() ==> {
                let (j, mf, mg) = #[trigger] receivers[i];
                &&& cong(mf@, g1 * poly(f, j as int), C::order())
                &&& cong(mg@, g2 * poly(g, j as int), C::order())
            },
    ensures
        c1 == (g1 * poly(f, -1) + g2 * poly(g, -1)) % C::order(),
        c2 == (g1 * poly(f, -2) + g2 * poly(g, -2)) % C::order(),
{
    let m = C::order();
    C::order_exceeds_words();
    let (xs, values) = (receiver_indices(receivers), receiver_values(receivers));
    let polys = seq![(f, g)];
    assert forall|i: int| 0 <= i < xs.len() implies cong(
        #[trigger] values[i],
        joint_value(g1, g2, polys, xs[i]),
        m,
    ) by {
        let (j, mf, mg) = receivers[i];
        lemma_cong_add(mf@, g1 * poly(f, j as int), mg@, g2 * poly(g, j as int), m);
        lemma_joint_of_one(g1, g2, f, g, xs[i]);
    }
    lemma_joint_of_one(g1, g2, f, g, -1);
    lemma_joint_of_one(g1, g2, f, g, -2);
    law_reconstruction(g1, g2, polys, f.len(), xs, values, -1, c1, m);
    law_reconstruction(g1, g2, polys, f.len(), xs, values, -2, c2, m);
}

proof fn lemma_joint_of_one(g1: int, g2: int, f: Seq<int>, g: Seq<int>, x: int)
    ensures
        joint_value(g1, g2, seq![(f, g)], x) == g1 * poly(f, x) + g2 * poly(g, x),
{
    reveal_with_fuel(sum, 2);
}

/// A contribution to a single secret shows the secret under both generators, commits to every
/// coefficient, and every receiver decrypts its own share in the exponent.
pub proof fn law_single_contribution<C: Curve>(
    c: NejiContribution<C>,
    gens: NejiGenerators<C>,
    base: ElGamalBase<C>,
    pks: Seq<Point<C>>,
    degree: int,
    k: int,
    j: int,
    sk: int,
)
    requires
        c.valid(gens, base, pks, degree),
        0 <= k <= degree,
        1 <= j <= pks.len(),
        pks[j - 1]@ == (base.g@ * sk) % C::order(),
    ensures
        ({
            let m = C::order();
            let a = c.secrets.poly.coefficients();
            &&& c.pk_contrib@ == (gens.h@ * c.secrets.secret@) % m
            &&& cong(c.c0@, gens.g@ * c.secrets.secret@, m)
            &&& a.len() == degree + 1
            &&& c.distribution.commitments.len() == degree + 1
            &&& c.distribution.commitments[k]@ == (gens.g@ * a[k]) % m
            &&& c.enc[j - 1].decrypted(sk) == (gens.g@ * c.distribution.shares[j - 1]@) % m
        }),
{
    let m = C::order();
    C::order_exceeds_words();
    let a = c.secrets.poly.coefficients();
    law_polynomial(a, 0, 0);
    lemma_reduced(gens.g@, c.secrets.secret@, a[0], m);
    lemma_cong_mod(gens.g@ * a[0], m);
    lemma_cong_mod(gens.g@ * c.secrets.secret@, m);
    assert(c.distribution.commitments[0]@ == (gens.g@ * a[0]) % m);
    let message = (gens.g@ * c.distribution.shares[j - 1]@) % m;
    assert(c.enc[j - 1].encrypts(base, pks[j - 1]@, message));
    crate::dkg::encryption::law_decrypt_inverts_encrypt(
        c.enc[j - 1],
        base,
        sk,
        pks[j - 1]@,
        message,
    );
    lemma_cong_mod(gens.g@ * c.distribution.shares[j - 1]@, m);
}

/// Points of a polynomial recover its value anywhere: of each point the first part is the place and
/// the second the value there, and no more coefficients than points are needed.
pub proof fn law_points_recover<C: Curve>(
    points: Seq<(Scalar<C>, Scalar<C>)>,
    f: Seq<int>,
    target: int,
    v: int,
)
    requires
        recovers(v, indices_of(points), values_of(points), target, C::order()),
        f.len() <= points.len(),
        forall|i: int|
            0 <= i < points.len() ==> (#[trigger] points[i]).1@ == poly(f, points[i].0@)
                % C::order(),
    ensures
        v == poly(f, target) % C::order(),
{
    let m = C::order();
    C::order_exceeds_words();
    let (xs, values) = (indices_of(points), values_of(points));
    assert forall|i: int| 0 <= i < xs.len() implies cong(
        #[trigger] values[i],
        poly(f, xs[i]),
        m,
    ) by {
        assert(points[i].1@ == poly(f, points[i].0@) % m);
        lemma_cong_mod(poly(f, xs[i]), m);
    }
    assert(values_at(values, f, xs, m));
}

/// What the dealers published: each under its own number, the commitments and the encrypted shares of
/// its own dealing, and the commitments to its own secrets.
pub proof fn law_published<C: Curve, S>(
    published: Published<C, S>,
    suite: Suite<C>,
    degree: int,
    i: usize,
)
    requires
        published.valid(suite, degree),
    ensures
        ({
            let (n, m) = (suite.receiver_pks.len(), C::order());
            let (c, d) = (published.contributions@[i], published.dealings[i as int]);
            let (g1, g2) = (suite.generators.g1@, suite.generators.g2@);
            &&& published.dealings.len() == n
            &&& published.contributions@.contains_key(i) <==> i < n
            &&& i < n ==> {
                &&& c.dealer_id == i
                &&& c.commitments@ == d.distribution.commitments@
                &&& c.encrypted_shares@ == d.encrypted@
                &&& c.c1_i@ == (g1 * d.secrets.x1@ + g2 * d.secrets.x2@) % m
                &&& c.c2_i@ == (g1 * d.secrets.y1@ + g2 * d.secrets.y2@) % m
            }
        }),
{
    if i < suite.receiver_pks.len() {
        assert(published.contributions@.contains_key(i));
    }
}

/// A valid dealing commits to the coefficients of its polynomials, takes its secrets at `-1` and `-2`,
/// and every receiver decrypts the group elements of the share that was dealt to it, whose last three
/// components are honest.
pub proof fn law_valid_dealing<C: Curve>(
    d: PedersenDealing<C>,
    gens: PedersenGenerators<C>,
    base: ElGamalBase<C>,
    pks: Seq<Point<C>>,
    degree: int,
    k: int,
    j: int,
    sk: int,
)
    requires
        d.valid(gens, base, pks, degree),
        0 <= k <= degree,
        1 <= j <= pks.len(),
        pks[j - 1]@ == (base.g@ * sk) % C::order(),
    ensures
        ({
            let m = C::order();
            let (f, g) = (d.secrets.f.coefficients(), d.secrets.g.coefficients());
            let (fp, gp) = (d.secrets.f_prime.coefficients(), d.secrets.g_prime.coefficients());
            let (share, ct) = (d.distribution.shares[j - 1], d.encrypted[j - 1]);
            &&& poly(f, -1) % m == d.secrets.x1@ && poly(f, -2) % m == d.secrets.y1@
            &&& poly(g, -1) % m == d.secrets.x2@ && poly(g, -2) % m == d.secrets.y2@
            &&& d.distribution.commitments.len() == degree + 1
            &&& d.distribution.commitments[k]@ == (gens.g1@ * f[k] + gens.h1@ * fp[k] + gens.g2@
                * g[k] + gens.h2@ * gp[k]) % m
            &&& d.distribution.shares.len() == pks.len()
            &&& d.encrypted.len() == pks.len()
            &&& share.sf_prime@ == poly(fp, j) % m
            &&& share.sg@ == poly(g, j) % m
            &&& share.sg_prime@ == poly(gp, j) % m
            &&& ct.sf.decrypted(sk) == (gens.g1@ * share.sf@) % m
            &&& ct.sf_prime.decrypted(sk) == (gens.h1@ * share.sf_prime@) % m
            &&& ct.sg.decrypted(sk) == (gens.g2@ * share.sg@) % m
            &&& ct.sg_prime.decrypted(sk) == (gens.h2@ * share.sg_prime@) % m
        }),
{
    let (share, ct) = (d.distribution.shares[j - 1], d.encrypted[j - 1]);
    assert(ct.carries(gens, base, pks[j - 1]@, share));
    crate::dkg::encryption::law_share_decrypts(ct, gens, base, share, sk, pks[j - 1]@);
}

/// A dealer that tampers shifts the first component of the share of its victim by its offset, and
/// every other share is the one that the polynomial gives.
pub proof fn law_tampered_dealing<C: Curve, X>(
    d: Dealing<C, X>,
    n: int,
    victim: int,
    delta: int,
    j: int,
)
    requires
        d.tampered(n, victim, delta),
        0 <= j < n,
    ensures
        ({
            let m = C::order();
            let honest = poly(d.secrets.f.coefficients(), j + 1) % m;
            let dealt = d.distribution.shares[j].sf@;
            &&& j == victim ==> dealt == (honest + delta) % m
            &&& j != victim ==> dealt == honest
        }),
{
    let m = C::order();
    C::order_exceeds_words();
    assert(d.off_by(j, offset_at(j, victim, delta)));
    let value = poly(d.secrets.f.coefficients(), j + 1);
    lemma_cong_mod(value, m);
}

/// A dealer's key of five secrets is that of its first four at `-1` and `-2` of one sharing, and of the
/// last at `-1` of the other.
pub proof fn law_five_secret_key<C: Curve, X: Carrier<C>>(
    c: Contribution<C, X>,
    suite: Suite<C>,
    degree: int,
)
    requires
        c.valid(suite, degree),
    ensures
        ({
            let (m, g1, g2) = (C::order(), suite.generators.g1@, suite.generators.g2@);
            let (f, g) = (c.xy.secrets.f.coefficients(), c.xy.secrets.g.coefficients());
            let z = c.z.secrets.f.coefficients();
            &&& cong(c.key.c1@, g1 * poly(f, -1) + g2 * poly(g, -1), m)
            &&& cong(c.key.c2@, g1 * poly(f, -2) + g2 * poly(g, -2), m)
            &&& cong(c.key.c3@, g1 * poly(z, -1), m)
        }),
{
    let (m, g1, g2) = (C::order(), suite.generators.g1@, suite.generators.g2@);
    C::order_exceeds_words();
    let (f, g) = (c.xy.secrets.f.coefficients(), c.xy.secrets.g.coefficients());
    crate::dkg::keygen::lemma_pair::<C>(g1, g2, poly(f, -1), poly(g, -1));
    crate::dkg::keygen::lemma_pair::<C>(g1, g2, poly(f, -2), poly(g, -2));
    lemma_reduced(g1, c.z.secrets.x1@, poly(c.z.secrets.f.coefficients(), -1), m);
}

/// The sum of dealers' keys adds each of their points to the same point.
pub proof fn law_keys_summed<C: Curve>(
    keys: Seq<PublicKey<C>>,
    order: Seq<usize>,
    key: PublicKey<C>,
)
    requires
        sums_to(keys, order, key),
    ensures
        key.c1@ == sum(|k: int| keys[order[k] as int].c1@, 0, order.len() as int) % C::order(),
        key.c2@ == sum(|k: int| keys[order[k] as int].c2@, 0, order.len() as int) % C::order(),
        key.c3@ == sum(|k: int| keys[order[k] as int].c3@, 0, order.len() as int) % C::order(),
{
    let n = order.len() as int;
    let (p1, p2, p3) = (
        |k: PublicKey<C>| k.c1@,
        |k: PublicKey<C>| k.c2@,
        |k: PublicKey<C>| k.c3@,
    );
    crate::algebra::lemma_sum_eq(
        |k: int| p1(keys[order[k] as int]),
        |k: int| keys[order[k] as int].c1@,
        0,
        n,
    );
    crate::algebra::lemma_sum_eq(
        |k: int| p2(keys[order[k] as int]),
        |k: int| keys[order[k] as int].c2@,
        0,
        n,
    );
    crate::algebra::lemma_sum_eq(
        |k: int| p3(keys[order[k] as int]),
        |k: int| keys[order[k] as int].c3@,
        0,
        n,
    );
}

/// A further accusation accuses its dealer and adds its complainer to those of that dealer; it changes
/// nothing for others.
pub proof fn law_accusations(
    accusations: Seq<(usize, usize)>,
    dealer: usize,
    complainer: usize,
    other: usize,
)
    ensures
        accused(Seq::empty()) == Set::<usize>::empty(),
        complainers(Seq::empty(), dealer) == Set::<usize>::empty(),
        accused(accusations.push((dealer, complainer))) == accused(accusations).insert(dealer),
        complainers(accusations.push((dealer, complainer)), dealer) == complainers(
            accusations,
            dealer,
        ).insert(complainer),
        other != dealer ==> complainers(accusations.push((dealer, complainer)), other)
            == complainers(accusations, other),
{
    let more = accusations.push((dealer, complainer));
    let n = accusations.len() as int;
    assert(more[n] == (dealer, complainer));
    assert(forall|i: int| 0 <= i < n ==> #[trigger] more[i] == accusations[i]);
    assert(accused(Seq::empty()) =~= Set::<usize>::empty());
    assert(complainers(Seq::empty(), dealer) =~= Set::<usize>::empty());
    assert forall|d: usize| #[trigger] accused(more).contains(d) <==> accused(accusations).contains(
        d,
    ) || d == dealer by {
        if accused(accusations).contains(d) {
            let i = choose|i: int| 0 <= i < n && accusations[i].0 == d;
            assert(more[i].0 == d);
        }
        if d == dealer {
            assert(more[n].0 == d);
        }
    }
    assert(accused(more) =~= accused(accusations).insert(dealer));
    assert forall|d: usize, c: usize| #[trigger] complainers(more, d).contains(c)
        <==> complainers(accusations, d).contains(c) || (d == dealer && c == complainer) by {
        if complainers(accusations, d).contains(c) {
            let i = choose|i: int| 0 <= i < n && accusations[i] == (d, c);
            assert(more[i] == (d, c));
        }
        if d == dealer && c == complainer {
            assert(more[n] == (d, c));
        }
    }
    assert(complainers(more, dealer) =~= complainers(accusations, dealer).insert(complainer));
    assert(other != dealer ==> complainers(more, other) =~= complainers(accusations, other));
}

/// A share of which only the first part is used carries that part and its mask, each under its own
/// generator, and nothing else.
pub proof fn law_half_share<C: Curve>(
    ct: HalfShare<C>,
    gens: PedersenGenerators<C>,
    base: ElGamalBase<C>,
    sk: int,
    share: PedersenShare<C>,
)
    requires
        ct.carries(gens, base, (base.g@ * sk) % C::order(), share),
    ensures
        ct.sf.decrypted(sk) == (gens.g1@ * share.sf@) % C::order(),
        ct.sf_prime.decrypted(sk) == (gens.h1@ * share.sf_prime@) % C::order(),
        share.sg@ == 0,
        share.sg_prime@ == 0,
{
    let m = C::order();
    C::order_exceeds_words();
    let pk = (base.g@ * sk) % m;
    let (a, b) = (gens.g1@ * share.sf@, gens.h1@ * share.sf_prime@);
    lemma_cong_mod(a, m);
    lemma_cong_mod(b, m);
    crate::dkg::encryption::law_decrypt_inverts_encrypt(ct.sf, base, sk, pk, a % m);
    crate::dkg::encryption::law_decrypt_inverts_encrypt(ct.sf_prime, base, sk, pk, b % m);
}

/// A shifted share differs in its first component alone, by the shift.
pub proof fn law_shifted_share<C: Curve>(share: PedersenShare<C>, from: PedersenShare<C>, delta: int)
    requires
        share.shifts(from, delta),
    ensures
        cong(share.sf@ - from.sf@, delta, C::order()),
        share.sf_prime@ == from.sf_prime@,
        share.sg@ == from.sg@,
        share.sg_prime@ == from.sg_prime@,
{
    let m = C::order();
    C::order_exceeds_words();
    lemma_cong_mod(from.sf@ + delta, m);
    lemma_cong_sub(share.sf@, from.sf@ + delta, from.sf@, from.sf@, m);
}

/// A reconstructed pair of points matches a key exactly if both are the key's, in their order.
pub proof fn law_matching_key<C: Curve>(c: (Point<C>, Point<C>), pk: PublicKey<C>)
    ensures
        matches_key(c, pk) ==> c.0@ == pk.c1@ && c.1@ == pk.c2@,
        !matches_key(c, pk) ==> c.0@ != pk.c1@ || c.1@ != pk.c2@,
{
}

/// The comparison of a reconstruction over five secrets with the sum of the dealers' keys looks at all
/// three points.
pub proof fn law_five_secrets_compared<C: Curve, X: Carrier<C>>(
    dealt: Contributions<C, X>,
    suite: Suite<C>,
    degree: int,
    order: Seq<usize>,
    b: bool,
)
    requires
        dealt.agrees(suite, degree, order, b),
    ensures
        exists|c: (Point<C>, Point<C>), c3: Point<C>, key: PublicKey<C>|
            {
                &&& #[trigger] reconstructed(c, dealt.xy@, suite.generators, order, degree)
                &&& #[trigger] reconstructed_first(c3, dealt.z@, suite.generators, order, degree)
                &&& #[trigger] sums_to(dealt.keys@, order, key)
                &&& b ==> c.0@ == key.c1@ && c.1@ == key.c2@ && c3@ == key.c3@
                &&& !b ==> c.0@ != key.c1@ || c.1@ != key.c2@ || c3@ != key.c3@
            },
{
}

/// The comparison of a reconstruction of a single secret looks at the sum of the commitments to the
/// dealers' secrets.
pub proof fn law_single_secret_compared<C: Curve>(
    dealt: Seq<NejiContribution<C>>,
    gens: NejiGenerators<C>,
    degree: int,
    order: Seq<usize>,
    b: bool,
)
    requires
        crate::bench::neji::agrees(dealt, gens, degree, order, b),
    ensures
        exists|v: int|
            #[trigger] crate::bench::neji::reconstructed(v, dealt, gens, degree, order) && (b <==> v
                == sum(|k: int| dealt[order[k] as int].c0@, 0, order.len() as int) % C::order()),
{
}

} // verus!
