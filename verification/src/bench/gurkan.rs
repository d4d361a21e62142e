//! The single-secret aggregatable key generation: what is done with what its publicly verifiable
//! layer returns.
use crate::algebra::{
    cong, distinct, lagrange_weights, lemma_cong_add, lemma_cong_mod, lemma_cong_mul,
    lemma_cong_small, lemma_poly_linear, poly, sum,
};
use crate::bench::report::Outcome;
use crate::bls::{domain_generator, evaluation_generator, g1_order, Bls12381};
use crate::curve::{residues, Curve, Point, Scalar};
use crate::dkg::mss::{lemma_weigh_recovers, values_at, weigh, MSSPolynomial};
use crate::pairing::G2Point;
use std::collections::BTreeSet;
use vstd::arithmetic::power::pow;
use vstd::prelude::*;

verus! {

broadcast use {vstd::laws_cmp::group_laws_cmp, vstd::std_specs::btree::group_btree_axioms};

/// The sum of `weight c` over the first `n` accepted contributions.
pub open spec fn weighted_sum(accepted: Seq<(u64, Point<Bls12381>)>, n: int) -> int {
    sum(|k: int| accepted[k].0 * accepted[k].1@, 0, n)
}

/// The combined commitment of a transcript whose contributions are `(weight, commitment)`.
pub fn combined_commitment(accepted: &Vec<(u64, Point<Bls12381>)>) -> (r: Point<Bls12381>)
    ensures
        r@ == weighted_sum(accepted@, accepted.len() as int) % g1_order(),
{
    let ghost m = g1_order();
    let mut acc: Point<Bls12381> = Point::zero();
    proof {
        Bls12381::order_exceeds_words();
    }
    for k in 0..accepted.len()
        invariant
            m == g1_order(),
            m == Bls12381::order(),
            m > 0x1_0000_0000_0000_0000,
            cong(acc@, weighted_sum(accepted@, k as int), m),
    {
        let w = Scalar::from_u64(accepted[k].0);
        let term = accepted[k].1.mul(&w);
        let ghost a = acc@;
        acc = acc.add(&term);
        proof {
            let (p, x) = (accepted[k as int].1@, accepted[k as int].0 as int);
            lemma_cong_small(x, m);
            lemma_cong_mod(p * x, m);
            assert(p * x == x * p) by (nonlinear_arith);
            lemma_cong_add(a, weighted_sum(accepted@, k as int), term@, x * p, m);
            lemma_cong_mod(a + term@, m);
        }
    }
    proof {
        acc.lemma_range();
        lemma_cong_small(acc@, m);
    }
    acc
}

/// The exponents of points of the second group.
pub open spec fn g2_exponents(s: Seq<G2Point>) -> Seq<int> {
    s.map_values(|p: G2Point| p@)
}

/// `acc` is what Lagrange's weights for zero make of the secrets at the indices.
pub open spec fn interpolated(acc: int, indices: Seq<int>, secrets: Seq<int>) -> bool {
    exists|ls: Seq<int>|
        #[trigger] lagrange_weights(ls, indices, 0, g1_order()) && acc == weigh(ls, secrets)
            % g1_order()
}

/// What the check of the secrets at the indices comes to: `e(c, h) = e(g, h^F(0))` for the interpolated
/// `h^F(0)`, or `None` where there are fewer than `degree + 1` secrets, or indices repeat.
pub open spec fn checked(
    r: Option<bool>,
    degree: int,
    g: int,
    h: int,
    c: int,
    indices: Seq<int>,
    secrets: Seq<int>,
) -> bool {
    match r {
        Some(b) => {
            &&& indices.len() > degree
            &&& distinct(indices)
            &&& exists|acc: int|
                #[trigger] interpolated(acc, indices, secrets) && b == ((c * h) % g1_order() == (g
                    * acc) % g1_order())
        },
        None => indices.len() <= degree || !distinct(indices),
    }
}

/// Interpolates the receivers' secrets, as points `h^F(x)`, at zero and checks the result against the
/// combined commitment by a pairing: `e(c, h) = e(g, h^F(0))`. `None` where there are fewer than
/// `degree + 1` secrets, or indices repeat.
pub fn gurkan_reconstruct_ok(
    degree: usize,
    g: &Point<Bls12381>,
    h: &G2Point,
    c: &Point<Bls12381>,
    indices: &Vec<Scalar<Bls12381>>,
    secrets: &Vec<G2Point>,
) -> (r: Option<bool>)
    requires
        indices.len() == secrets.len(),
        degree < usize::MAX,
    ensures
        checked(
            r,
            degree as int,
            g@,
            h@,
            c@,
            residues(indices@),
            g2_exponents(secrets@),
        ),
        forall|f: Seq<int>|
            f.len() <= indices.len() && #[trigger] shares_lie_on(
                f,
                h@,
                residues(indices@),
                g2_exponents(secrets@),
            ) && cong(c@, g@ * poly(f, 0), g1_order()) ==> r != Some(false),
        forall|f: Seq<int>|
            f.len() <= indices.len() && #[trigger] shares_lie_on(
                f,
                h@,
                residues(indices@),
                g2_exponents(secrets@),
            ) && r is Some ==> r->0 == ((c@ * h@) % g1_order() == (g@ * (h@ * poly(f, 0)))
                % g1_order()),
{
    if indices.len() < degree + 1 {
        return None;
    }
    let ghost m = g1_order();
    proof {
        Bls12381::order_exceeds_words();
    }
    let zero: Scalar<Bls12381> = Scalar::zero();
    let lambdas = match MSSPolynomial::lagrange_coefficients(zero, indices.as_slice()) {
        Ok(l) => l,
        Err(_) => {
            return None;
        },
    };
    let ghost (ls, values) = (residues(lambdas@), g2_exponents(secrets@));
    let ghost t = |i: int| ls[i] * values[i];
    let mut acc = G2Point::zero();
    for i in 0..secrets.len()
        invariant
            m == g1_order(),
            m > 1,
            lambdas.len() == secrets.len(),
            ls == residues(lambdas@),
            values == g2_exponents(secrets@),
            t == (|i: int| ls[i] * values[i]),
            cong(acc@, sum(t, 0, i as int), m),
    {
        let ghost a = acc@;
        let term = secrets[i].mul(&lambdas[i]);
        acc = acc.add(&term);
        proof {
            let (p, l) = (secrets[i as int]@, lambdas[i as int]@);
            assert(ls[i as int] == l && values[i as int] == p);
            assert(p * l == l * p) by (nonlinear_arith);
            lemma_cong_mod(p * l, m);
            lemma_cong_add(a, sum(t, 0, i as int), term@, l * p, m);
            lemma_cong_mod(a + term@, m);
        }
    }
    let b = h.pairs_alike(c, &acc, g);
    proof {
        acc.lemma_range();
        lemma_cong_small(acc@, m);
        assert(interpolated(acc@, residues(indices@), values));
        assert forall|f: Seq<int>|
            f.len() <= indices.len() && #[trigger] shares_lie_on(
                f,
                h@,
                residues(indices@),
                values,
            ) && cong(c@, g@ * poly(f, 0), m) implies b by {
            lemma_pairings_agree(
                f,
                ls,
                residues(indices@),
                values,
                acc@,
                c@,
                g@,
                h@,
            );
        }
        assert forall|f: Seq<int>|
            f.len() <= indices.len() && #[trigger] shares_lie_on(
                f,
                h@,
                residues(indices@),
                values,
            ) implies b == ((c@ * h@) % m == (g@ * (h@ * poly(f, 0))) % m) by {
            lemma_interpolated(f, ls, residues(indices@), values, acc@, h@);
            lemma_cong_mul(g@, g@, acc@, h@ * poly(f, 0), m);
        }
    }
    Some(b)
}

/// The secrets are the values of the polynomial at the indices, in the exponent of `h`.
pub open spec fn shares_lie_on(
    f: Seq<int>,
    h: int,
    indices: Seq<int>,
    secrets: Seq<int>,
) -> bool {
    &&& secrets.len() == indices.len()
    &&& forall|i: int|
        0 <= i < indices.len() ==> cong(
            #[trigger] secrets[i],
            h * poly(f, indices[i]),
            g1_order(),
        )
}

proof fn lemma_interpolated(
    f: Seq<int>,
    ls: Seq<int>,
    xs: Seq<int>,
    values: Seq<int>,
    acc: int,
    h: int,
)
    requires
        f.len() <= xs.len(),
        shares_lie_on(f, h, xs, values),
        crate::algebra::interpolates(ls, xs, 0, g1_order()),
        acc == weigh(ls, values) % g1_order(),
    ensures
        cong(acc, h * poly(f, 0), g1_order()),
{
    let m = g1_order();
    Bls12381::order_exceeds_words();
    let scaled = Seq::new(f.len(), |k: int| h * f[k] + 0 * f[k]);
    assert forall|i: int| 0 <= i < xs.len() implies cong(
        #[trigger] values[i],
        poly(scaled, xs[i]),
        m,
    ) by {
        lemma_poly_linear(f, f, scaled, h, 0, xs[i]);
    }
    assert(values_at(values, scaled, xs, m));
    lemma_weigh_recovers(ls, xs, 0, values, scaled, m);
    lemma_poly_linear(f, f, scaled, h, 0, 0);
    lemma_cong_mod(weigh(ls, values), m);
}

proof fn lemma_pairings_agree(
    f: Seq<int>,
    ls: Seq<int>,
    xs: Seq<int>,
    values: Seq<int>,
    acc: int,
    c: int,
    g: int,
    h: int,
)
    requires
        f.len() <= xs.len(),
        shares_lie_on(f, h, xs, values),
        crate::algebra::interpolates(ls, xs, 0, g1_order()),
        acc == weigh(ls, values) % g1_order(),
        cong(c, g * poly(f, 0), g1_order()),
    ensures
        (c * h) % g1_order() == (g * acc) % g1_order(),
{
    let m = g1_order();
    Bls12381::order_exceeds_words();
    lemma_interpolated(f, ls, xs, values, acc, h);
    let v = poly(f, 0);
    lemma_cong_mul(g, g, acc, h * v, m);
    lemma_cong_mul(c, g * v, h, h, m);
    assert(g * v * h == g * (h * v)) by (nonlinear_arith);
}

/// The residues of powers of the domain's generator at the receivers' places.
pub open spec fn places(received: Seq<(usize, G2Point)>, generator: int) -> Seq<int> {
    received.map_values(
        |r: (usize, G2Point)| pow(generator, r.0 as nat) % g1_order(),
    )
}

/// The exponents of the receivers' secrets.
pub open spec fn secrets_of(received: Seq<(usize, G2Point)>) -> Seq<int> {
    received.map_values(|r: (usize, G2Point)| r.1@)
}

/// The outcome of a run. `faulty` are the dealers that public verification rejected, `accepted` the
/// `(weight, commitment)` of the others, and `received` the secrets of those receivers, by index,
/// who decrypted the transcript. `None` where there is no evaluation domain of the given size.
pub fn conclude_gurkan(
    degree: usize,
    domain_size: usize,
    g: &Point<Bls12381>,
    h: &G2Point,
    faulty: BTreeSet<usize>,
    accepted: &Vec<(u64, Point<Bls12381>)>,
    received: &Vec<(usize, G2Point)>,
) -> (r: Option<(Outcome, Point<Bls12381>)>)
    requires
        degree < usize::MAX,
        domain_size <= usize::MAX / 2 + 1,
    ensures
        match r {
            Some((outcome, c)) => {
                &&& domain_generator(domain_size as nat) matches Some(generator) && checked(
                    outcome.reconstructed_ok,
                    degree as int,
                    g@,
                    h@,
                    c@,
                    places(received@, generator as int),
                    secrets_of(received@),
                )
                &&& c@ == weighted_sum(accepted@, accepted.len() as int) % g1_order()
                &&& outcome.faulty == faulty
                &&& outcome.complaints == 0
                &&& outcome.qual == accepted.len()
                &&& forall|f: Seq<int>|
                    f.len() <= received.len() && #[trigger] shares_lie_on(
                        f,
                        h@,
                        places(received@, domain_generator(domain_size as nat)->0 as int),
                        secrets_of(received@),
                    ) && outcome.reconstructed_ok is Some ==> outcome.reconstructed_ok->0 == ((c@
                        * h@) % g1_order() == (g@ * (h@ * poly(f, 0))) % g1_order())
            },
            None => domain_generator(domain_size as nat) is None,
        },
{
    let c = combined_commitment(accepted);
    let generator = match evaluation_generator(domain_size) {
        Some(g) => g,
        None => {
            return None;
        },
    };
    let mut indices: Vec<Scalar<Bls12381>> = Vec::new();
    let mut secrets: Vec<G2Point> = Vec::new();
    proof {
        generator.lemma_range();
    }
    for i in 0..received.len()
        invariant
            indices.len() == i,
            secrets.len() == i,
            forall|k: int|
                0 <= k < i ==> #[trigger] indices[k]@ == pow(generator@, received[k].0 as nat)
                    % g1_order(),
            forall|k: int| 0 <= k < i ==> #[trigger] secrets[k] == received[k].1,
    {
        indices.push(generator.pow(received[i].0 as u64));
        secrets.push(received[i].1);
    }
    proof {
        assert(residues(indices@) =~= places(received@, generator@));
        assert(g2_exponents(secrets@) =~= secrets_of(received@));
    }
    let reconstructed_ok = gurkan_reconstruct_ok(degree, g, h, &c, &indices, &secrets);
    let outcome = Outcome { faulty, complaints: 0, qual: accepted.len(), reconstructed_ok };
    Some((outcome, c))
}

} // verus!
