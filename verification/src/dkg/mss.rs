//! Franklin-Yung multi-secret sharing.
//!
//! A dealer's polynomial of degree `t` encodes two secrets at the points `-1` and `-2`; its other
//! `t - 1` coefficients are free. Receivers hold its values at `1, 2, .., n`, and any `t + 1` of
//! them recover the values at `-1` and `-2` by Lagrange interpolation.
use crate::algebra::{
    cong, distinct, interpolates, inverts, lagrange_weights, lemma_cong_add, lemma_cong_eq,
    lemma_cong_mod, lemma_cong_mul, lemma_cong_small, lemma_cong_sub, lemma_lagrange, lemma_poly_cong,
    lemma_poly_monomials, lemma_sum_cong, poly, prod_except, sum,
};
use crate::curve::{residues, Curve, Scalar};
use crate::dkg::errors::VssError;
use rand_chacha::ChaCha20Rng;
use vstd::arithmetic::power::{lemma_pow_mod_noop, pow};
use vstd::prelude::*;

verus! {

/// A polynomial over the scalar field of `C`, constant term first, pinned at `-1` and `-2`.
#[derive(Debug)]
pub struct MSSPolynomial<C: Curve> {
    pub coeffs: Vec<Scalar<C>>,
}

/// The first components of a sequence of evaluation points.
pub open spec fn indices_of<C: Curve>(points: Seq<(Scalar<C>, Scalar<C>)>) -> Seq<int> {
    points.map_values(|p: (Scalar<C>, Scalar<C>)| p.0@)
}

/// The second components of a sequence of evaluation points.
pub open spec fn values_of<C: Curve>(points: Seq<(Scalar<C>, Scalar<C>)>) -> Seq<int> {
    points.map_values(|p: (Scalar<C>, Scalar<C>)| p.1@)
}

/// Values weighted and summed.
pub open spec fn weigh(ls: Seq<int>, values: Seq<int>) -> int {
    sum(|i: int| ls[i] * values[i], 0, values.len() as int)
}

/// Whether `values` are, modulo `m`, those of the polynomial `c` at `xs`.
pub open spec fn values_at(values: Seq<int>, c: Seq<int>, xs: Seq<int>, m: int) -> bool {
    &&& values.len() == xs.len()
    &&& forall|i: int| 0 <= i < xs.len() ==> cong(#[trigger] values[i], poly(c, xs[i]), m)
}

/// Whether `v` is what the Lagrange weights for `x` make of the values at `xs`.
pub open spec fn lagrange_value(v: int, xs: Seq<int>, values: Seq<int>, x: int, m: int) -> bool {
    exists|ls: Seq<int>|
        #[trigger] lagrange_weights(ls, xs, x, m) && v == weigh(ls, values) % m
}

/// Whether `v` is the value at `x` of every polynomial that takes the given values at `xs` and has
/// at most as many coefficients as there are points.
pub open spec fn recovers(v: int, xs: Seq<int>, values: Seq<int>, x: int, m: int) -> bool {
    forall|c: Seq<int>|
        c.len() <= xs.len() && #[trigger] values_at(values, c, xs, m) ==> v == poly(c, x) % m
}

/// The value of a polynomial at any point of an interpolating set of points.
pub proof fn lemma_weigh_recovers(
    ls: Seq<int>,
    xs: Seq<int>,
    x: int,
    values: Seq<int>,
    c: Seq<int>,
    m: int,
)
    requires
        m > 0,
        interpolates(ls, xs, x, m),
        values_at(values, c, xs, m),
        c.len() <= xs.len(),
    ensures
        cong(weigh(ls, values), poly(c, x), m),
{
    let t = |i: int| ls[i] * values[i];
    let w = |i: int| ls[i] * poly(c, xs[i]);
    assert forall|i: int| 0 <= i < xs.len() implies cong(#[trigger] t(i), w(i), m) by {
        assert(cong(values[i], poly(c, xs[i]), m));
        lemma_cong_mul(ls[i], ls[i], values[i], poly(c, xs[i]), m);
    }
    lemma_sum_cong(t, w, 0, xs.len() as int, m);
    assert(cong(crate::algebra::weighted_values(ls, xs, c), poly(c, x), m));
}

impl<C: Curve> MSSPolynomial<C> {
    /// The residues of the coefficients.
    pub open spec fn coefficients(self) -> Seq<int> {
        residues(self.coeffs@)
    }

    /// The evaluation point `-1`, where the first secret lives.
    pub fn point_minus1() -> (r: Scalar<C>)
        ensures
            r@ == (-1) % C::order(),
    {
        let one = Scalar::one();
        one.neg()
    }

    /// The evaluation point `-2`, where the second secret lives.
    pub fn point_minus2() -> (r: Scalar<C>)
        ensures
            r@ == (-2) % C::order(),
    {
        let one: Scalar<C> = Scalar::one();
        let two = one.add(&one);
        proof {
            C::order_exceeds_words();
            lemma_cong_mod(2, C::order());
            lemma_cong_small(2, C::order());
        }
        two.neg()
    }

    /// The field element of a possibly negative integer.
    pub fn point(i: i64) -> (r: Scalar<C>)
        ensures
            r@ == (i as int) % C::order(),
    {
        proof {
            C::order_exceeds_words();
        }
        if i >= 0 {
            proof {
                lemma_cong_mod(i as int, C::order());
                lemma_cong_small(i as int, C::order());
            }
            Scalar::from_u64(i as u64)
        } else {
            let magnitude: u64 = (-(i + 1)) as u64 + 1;
            let s = Scalar::from_u64(magnitude);
            s.neg()
        }
    }

    /// The polynomial with the given coefficients above the linear one that takes the two values
    /// at `-1` and `-2`: with `r1` and `r2` what the given coefficients contribute there, the two
    /// lowest solve `a0 - a1 = s_minus1 - r1` and `a0 - 2 a1 = s_minus2 - r2`.
    pub fn pinned(s_minus1: Scalar<C>, s_minus2: Scalar<C>, free: Vec<Scalar<C>>) -> (r: Self)
        requires
            free.len() + 2 <= usize::MAX,
        ensures
            r.coeffs.len() == free.len() + 2,
            r.coeffs@.skip(2) == free@,
            poly(r.coefficients(), -1) % C::order() == s_minus1@,
            poly(r.coefficients(), -2) % C::order() == s_minus2@,
    {
        let ghost m = C::order();
        let m1: Scalar<C> = Self::point_minus1();
        let m2: Scalar<C> = Self::point_minus2();
        let mut r1: Scalar<C> = Scalar::zero();
        let mut r2: Scalar<C> = Scalar::zero();
        let ghost c = seq![0int, 0int] + residues(free@);
        let ghost g1 = |k: int| c[k] * pow(-1, k as nat);
        let ghost g2 = |k: int| c[k] * pow(-2, k as nat);
        proof {
            C::order_exceeds_words();
            lemma_cong_mod(-1, m);
            lemma_cong_mod(-2, m);
            reveal_with_fuel(sum, 3);
            assert(0 * pow(-1, 0) == 0 && 0 * pow(-1, 1) == 0 && 0 * pow(-2, 0) == 0 && 0 * pow(
                -2,
                1,
            ) == 0) by (nonlinear_arith);
            assert(sum(g1, 0, 2) == 0);
            assert(sum(g2, 0, 2) == 0);
        }
        for i in 0..free.len()
            invariant
                m == C::order(),
                m > 1,
                free.len() + 2 <= usize::MAX,
                c == seq![0int, 0int] + residues(free@),
                m1@ == (-1) % m,
                m2@ == (-2) % m,
                g1 == (|k: int| c[k] * pow(-1, k as nat)),
                g2 == (|k: int| c[k] * pow(-2, k as nat)),
                cong(r1@, sum(g1, 0, i + 2), m),
                cong(r2@, sum(g2, 0, i + 2), m),
        {
            let k: u64 = (i + 2) as u64;
            let p1 = m1.pow(k);
            let p2 = m2.pow(k);
            let t1 = free[i].mul(&p1);
            let t2 = free[i].mul(&p2);
            proof {
                assert(c[i + 2] == free[i as int]@);
                lemma_pow_mod_noop(-1, k as nat, m);
                lemma_pow_mod_noop(-2, k as nat, m);
                lemma_cong_mod(pow(-1, k as nat), m);
                lemma_cong_mod(pow(-2, k as nat), m);
                lemma_cong_mod(free[i as int]@ * p1@, m);
                lemma_cong_mod(free[i as int]@ * p2@, m);
                lemma_cong_mul(free[i as int]@, free[i as int]@, p1@, pow(-1, k as nat), m);
                lemma_cong_mul(free[i as int]@, free[i as int]@, p2@, pow(-2, k as nat), m);
                lemma_cong_add(r1@, sum(g1, 0, i + 2), t1@, g1(i + 2), m);
                lemma_cong_add(r2@, sum(g2, 0, i + 2), t2@, g2(i + 2), m);
                lemma_cong_mod(r1@ + t1@, m);
                lemma_cong_mod(r2@ + t2@, m);
            }
            r1 = r1.add(&t1);
            r2 = r2.add(&t2);
        }
        let rhs1 = s_minus1.sub(&r1);
        let rhs2 = s_minus2.sub(&r2);
        let a1 = rhs1.sub(&rhs2);
        let a0 = rhs1.add(&a1);
        let mut coeffs: Vec<Scalar<C>> = Vec::new();
        coeffs.push(a0);
        coeffs.push(a1);
        for i in 0..free.len()
            invariant
                coeffs@ == seq![a0, a1] + free@.take(i as int),
        {
            coeffs.push(free[i]);
            assert(free@.take(i as int).push(free[i as int]) =~= free@.take(i + 1));
        }
        assert(free@.take(free.len() as int) =~= free@);
        let r = MSSPolynomial { coeffs };
        proof {
            assert(r.coeffs@.skip(2) =~= free@);
            let n = free.len() as int + 2;
            let f = r.coefficients();
            assert(c.take(n) =~= c);
            lemma_poly_monomials(c, -1, n);
            lemma_poly_monomials(c, -2, n);
            assert(f.skip(2) =~= c.skip(2));
            lemma_pinned(f, c, -1, a0@, a1@);
            lemma_pinned(f, c, -2, a0@, a1@);
            lemma_solves(a0@, a1@, rhs1@, rhs2@, m);
            s_minus1.lemma_range();
            s_minus2.lemma_range();
            lemma_cong_mod(s_minus1@ - r1@, m);
            lemma_cong_mod(s_minus2@ - r2@, m);
            // f(-1) = a0 - a1 + c(-1) = rhs1 + r1 = s_minus1, and likewise at -2.
            let (c1, c2) = (poly(c, -1), poly(c, -2));
            lemma_cong_add(a0@ - a1@, rhs1@, c1, r1@, m);
            lemma_cong_add(rhs1@, s_minus1@ - r1@, r1@, r1@, m);
            lemma_cong_add(a0@ - 2 * a1@, rhs2@, c2, r2@, m);
            lemma_cong_add(rhs2@, s_minus2@ - r2@, r2@, r2@, m);
            lemma_cong_mod(poly(f, -1), m);
            lemma_cong_mod(poly(f, -2), m);
            lemma_cong_eq(poly(f, -1) % m, s_minus1@, m);
            lemma_cong_eq(poly(f, -2) % m, s_minus2@, m);
        }
        r
    }

    /// A polynomial of the given degree that takes the two values at `-1` and `-2`, its other
    /// `degree - 1` coefficients drawn at random.
    pub fn sample(
        degree: usize,
        s_minus1: Scalar<C>,
        s_minus2: Scalar<C>,
        rng: &mut ChaCha20Rng,
    ) -> (r: Result<Self, VssError>)
        requires
            degree < usize::MAX,
        ensures
            match r {
                Ok(f) => {
                    &&& degree >= 1
                    &&& f.coeffs.len() == degree + 1
                    &&& poly(f.coefficients(), -1) % C::order() == s_minus1@
                    &&& poly(f.coefficients(), -2) % C::order() == s_minus2@
                },
                Err(e) => degree < 1 && e == VssError::InsufficientDegree(degree),
            },
    {
        if degree < 1 {
            return Err(VssError::InsufficientDegree(degree));
        }
        let mut free: Vec<Scalar<C>> = Vec::new();
        for i in 0..degree - 1
            invariant
                free.len() == i,
        {
            free.push(Scalar::random(rng));
        }
        Ok(Self::pinned(s_minus1, s_minus2, free))
    }

    /// The value at a field point, by Horner's rule.
    pub fn evaluate(&self, x: Scalar<C>) -> (r: Scalar<C>)
        ensures
            r@ == poly(self.coefficients(), x@) % C::order(),
    {
        evaluate(&self.coeffs, &x)
    }

    /// The value at an integer point.
    pub fn evaluate_at(&self, i: i64) -> (r: Scalar<C>)
        ensures
            r@ == poly(self.coefficients(), i as int) % C::order(),
    {
        let x = Self::point(i);
        proof {
            C::order_exceeds_words();
            lemma_cong_mod(i as int, C::order());
            lemma_poly_cong(self.coefficients(), self.coefficients(), x@, i as int, C::order());
        }
        self.evaluate(x)
    }

    /// The secret pinned at `-1`.
    pub fn secret_minus1(&self) -> (r: Scalar<C>)
        ensures
            r@ == poly(self.coefficients(), -1) % C::order(),
    {
        let x = Self::point_minus1();
        proof {
            C::order_exceeds_words();
            lemma_cong_mod(-1, C::order());
            lemma_poly_cong(self.coefficients(), self.coefficients(), x@, -1, C::order());
        }
        self.evaluate(x)
    }

    /// The secret pinned at `-2`.
    pub fn secret_minus2(&self) -> (r: Scalar<C>)
        ensures
            r@ == poly(self.coefficients(), -2) % C::order(),
    {
        let x = Self::point_minus2();
        proof {
            C::order_exceeds_words();
            lemma_cong_mod(-2, C::order());
            lemma_poly_cong(self.coefficients(), self.coefficients(), x@, -2, C::order());
        }
        self.evaluate(x)
    }

    /// The values at `1, 2, .., n`.
    pub fn shares(&self, n: usize) -> (r: Vec<Scalar<C>>)
        ensures
            r.len() == n,
            forall|i: int|
                0 <= i < n ==> #[trigger] r[i]@ == poly(self.coefficients(), i + 1) % C::order(),
    {
        shares(&self.coeffs, n)
    }

    /// The Lagrange weights by which values at `indices` recover the value at `target`; indices
    /// that repeat are rejected.
    pub fn lagrange_coefficients(target: Scalar<C>, indices: &[Scalar<C>]) -> (r: Result<
        Vec<Scalar<C>>,
        VssError,
    >)
        ensures
            match r {
                Ok(l) => {
                    &&& distinct(residues(indices@))
                    &&& lagrange_weights(residues(l@), residues(indices@), target@, C::order())
                    &&& interpolates(residues(l@), residues(indices@), target@, C::order())
                },
                Err(e) => !distinct(residues(indices@)) && e == VssError::BadIndices,
            },
    {
        lagrange_coefficients(&target, indices)
    }

    /// The weights that recover the value at `-1`.
    pub fn lambda1(indices: &[Scalar<C>]) -> (r: Result<Vec<Scalar<C>>, VssError>)
        ensures
            match r {
                Ok(l) => {
                    let target = (-1) % C::order();
                    &&& distinct(residues(indices@))
                    &&& lagrange_weights(residues(l@), residues(indices@), target, C::order())
                    &&& interpolates(residues(l@), residues(indices@), target, C::order())
                },
                Err(e) => !distinct(residues(indices@)) && e == VssError::BadIndices,
            },
    {
        Self::lagrange_coefficients(Self::point_minus1(), indices)
    }

    /// The weights that recover the value at `-2`.
    pub fn lambda2(indices: &[Scalar<C>]) -> (r: Result<Vec<Scalar<C>>, VssError>)
        ensures
            match r {
                Ok(l) => {
                    let target = (-2) % C::order();
                    &&& distinct(residues(indices@))
                    &&& lagrange_weights(residues(l@), residues(indices@), target, C::order())
                    &&& interpolates(residues(l@), residues(indices@), target, C::order())
                },
                Err(e) => !distinct(residues(indices@)) && e == VssError::BadIndices,
            },
    {
        Self::lagrange_coefficients(Self::point_minus2(), indices)
    }

    /// The value at `target` from the values at distinct indices: the values are weighed by
    /// Lagrange's weights, which gives back the value of every polynomial of fewer coefficients
    /// than, or as many as, there are points.
    pub fn recover(target: Scalar<C>, points: &[(Scalar<C>, Scalar<C>)]) -> (r: Result<
        Scalar<C>,
        VssError,
    >)
        ensures
            match r {
                Ok(v) => {
                    let (xs, values) = (indices_of(points@), values_of(points@));
                    &&& distinct(xs)
                    &&& lagrange_value(v@, xs, values, target@, C::order())
                    &&& recovers(v@, xs, values, target@, C::order())
                },
                Err(e) => !distinct(indices_of(points@)) && e == VssError::BadIndices,
            },
    {
        let ghost m = C::order();
        let mut indices: Vec<Scalar<C>> = Vec::new();
        for i in 0..points.len()
            invariant
                indices.len() == i,
                forall|k: int| 0 <= k < i ==> #[trigger] indices[k] == points[k].0,
        {
            indices.push(points[i].0);
        }
        let ghost xs = indices_of(points@);
        let ghost values = values_of(points@);
        assert(residues(indices@) =~= xs);
        let lambdas = match lagrange_coefficients(&target, indices.as_slice()) {
            Ok(l) => l,
            Err(e) => {
                return Err(e);
            },
        };
        let ghost ls = residues(lambdas@);
        let ghost t = |i: int| ls[i] * values[i];
        let mut acc = Scalar::zero();
        proof {
            C::order_exceeds_words();
        }
        for i in 0..points.len()
            invariant
                m == C::order(),
                m > 1,
                ls == residues(lambdas@),
                values == values_of(points@),
                lambdas.len() == points.len(),
                t == (|i: int| ls[i] * values[i]),
                cong(acc@, sum(t, 0, i as int), m),
        {
            let term = lambdas[i].mul(&points[i].1);
            proof {
                assert(ls[i as int] == lambdas[i as int]@);
                assert(values[i as int] == points[i as int].1@);
                lemma_cong_mod(t(i as int), m);
                lemma_cong_add(acc@, sum(t, 0, i as int), term@, t(i as int), m);
                lemma_cong_mod(acc@ + term@, m);
            }
            acc = acc.add(&term);
        }
        proof {
            acc.lemma_range();
            lemma_cong_mod(weigh(ls, values), m);
            lemma_cong_eq(acc@, weigh(ls, values) % m, m);
            assert(lagrange_weights(ls, xs, target@, m));
            assert forall|c: Seq<int>|
                c.len() <= xs.len() && #[trigger] values_at(values, c, xs, m) implies acc@ == poly(
                c,
                target@,
            ) % m by {
                lemma_weigh_recovers(ls, xs, target@, values, c, m);
            }
        }
        Ok(acc)
    }
}

/// The value at `x` of the polynomial with the given coefficients, constant term first, by
/// Horner's rule.
pub fn evaluate<C: Curve>(coeffs: &Vec<Scalar<C>>, x: &Scalar<C>) -> (r: Scalar<C>)
    ensures
        r@ == poly(residues(coeffs@), x@) % C::order(),
{
    let ghost m = C::order();
    let ghost c = residues(coeffs@);
    let mut acc = Scalar::zero();
    let mut i: usize = coeffs.len();
    proof {
        C::order_exceeds_words();
        assert(c.skip(i as int).len() == 0);
    }
    while i > 0
        invariant
            m == C::order(),
            m > 1,
            c == residues(coeffs@),
            i <= coeffs.len(),
            cong(acc@, poly(c.skip(i as int), x@), m),
        decreases i,
    {
        i = i - 1;
        let ghost p = poly(c.skip(i + 1), x@);
        let scaled = acc.mul(x);
        let ghost a = acc@;
        acc = scaled.add(&coeffs[i]);
        proof {
            let d = c.skip(i as int);
            assert(d.drop_first() =~= c.skip(i + 1));
            assert(d[0] == coeffs[i as int]@);
            lemma_cong_mod(a * x@, m);
            lemma_cong_mul(a, p, x@, x@, m);
            assert(p * x@ == x@ * p) by (nonlinear_arith);
            lemma_cong_add(scaled@, x@ * p, d[0], d[0], m);
            lemma_cong_mod(scaled@ + d[0], m);
        }
    }
    proof {
        assert(c.skip(0) =~= c);
        acc.lemma_range();
        lemma_cong_mod(poly(c, x@), m);
        lemma_cong_eq(acc@, poly(c, x@) % m, m);
    }
    acc
}

/// The values at `1, 2, .., n` of the polynomial with the given coefficients.
pub fn shares<C: Curve>(coeffs: &Vec<Scalar<C>>, n: usize) -> (r: Vec<Scalar<C>>)
    ensures
        r.len() == n,
        forall|i: int|
            0 <= i < n ==> #[trigger] r[i]@ == poly(residues(coeffs@), i + 1) % C::order(),
{
    let mut r: Vec<Scalar<C>> = Vec::new();
    for i in 0..n
        invariant
            r.len() == i,
            forall|k: int|
                0 <= k < i ==> #[trigger] r[k]@ == poly(residues(coeffs@), k + 1) % C::order(),
    {
        let j = Scalar::from_u64((i + 1) as u64);
        r.push(evaluate(coeffs, &j));
    }
    r
}

/// The Lagrange weights for `target` over `indices`; indices that repeat are rejected.
pub fn lagrange_coefficients<C: Curve>(target: &Scalar<C>, indices: &[Scalar<C>]) -> (r: Result<
    Vec<Scalar<C>>,
    VssError,
>)
    ensures
        match r {
            Ok(l) => {
                &&& distinct(residues(indices@))
                &&& lagrange_weights(residues(l@), residues(indices@), target@, C::order())
                &&& interpolates(residues(l@), residues(indices@), target@, C::order())
            },
            Err(e) => !distinct(residues(indices@)) && e == VssError::BadIndices,
        },
{
    let ghost m = C::order();
    let ghost xs = residues(indices@);
    let ghost n = xs.len() as int;
    let ghost x = target@;
    let ghost mut us: Seq<int> = Seq::empty();
    let mut coeffs: Vec<Scalar<C>> = Vec::new();
    proof {
        C::order_exceeds_words();
    }
    for i in 0..indices.len()
        invariant
            m == C::order(),
            m > 1,
            xs == residues(indices@),
            n == xs.len(),
            x == target@,
            coeffs.len() == i,
            us.len() == i,
            forall|k: int|
                0 <= k < i ==> {
                    &&& 0 <= #[trigger] coeffs[k]@ < m
                    &&& cong(coeffs[k]@, prod_except(xs, x, k, 0, n) * us[k], m)
                },
            forall|k: int|
                0 <= k < i ==> cong(#[trigger] prod_except(xs, xs[k], k, 0, n) * us[k], 1, m),
            forall|k: int, l: int| 0 <= k < i && 0 <= l < n && k != l ==> xs[k] != xs[l],
    {
        let mut num: Scalar<C> = Scalar::one();
        let mut den: Scalar<C> = Scalar::one();
        assert(xs[i as int] == indices[i as int]@);
        for k in 0..indices.len()
            invariant
                m == C::order(),
                m > 1,
                xs == residues(indices@),
                n == xs.len(),
                x == target@,
                i < n,
                xs[i as int] == indices[i as int]@,
                cong(num@, prod_except(xs, x, i as int, 0, k as int), m),
                cong(den@, prod_except(xs, xs[i as int], i as int, 0, k as int), m),
                den@ != 0 <==> forall|l: int| 0 <= l < k && l != i ==> xs[l] != xs[i as int],
        {
            if i != k {
                let dx = target.sub(&indices[k]);
                let di = indices[i].sub(&indices[k]);
                proof {
                    let (xi, xk) = (xs[i as int], xs[k as int]);
                    assert(xk == indices[k as int]@);
                    let (pn, pd) = (
                        prod_except(xs, x, i as int, 0, k as int),
                        prod_except(xs, xi, i as int, 0, k as int),
                    );
                    lemma_cong_mod(x - xk, m);
                    lemma_cong_mod(xi - xk, m);
                    lemma_cong_mul(num@, pn, dx@, x - xk, m);
                    lemma_cong_mul(den@, pd, di@, xi - xk, m);
                    lemma_cong_mod(num@ * dx@, m);
                    lemma_cong_mod(den@ * di@, m);
                    indices[i as int].lemma_range();
                    indices[k as int].lemma_range();
                    // The difference vanishes only where the two indices agree.
                    if di@ == 0 {
                        lemma_cong_add(xi - xk, 0, xk, xk, m);
                        lemma_cong_eq(xi, xk, m);
                    } else if xi == xk {
                        lemma_cong_small(0, m);
                    }
                }
                num = num.mul(&dx);
                den = den.mul(&di);
            }
        }
        match den.inverse() {
            Some(den_inv) => {
                let c = num.mul(&den_inv);
                proof {
                    let (pn, pd) = (
                        prod_except(xs, x, i as int, 0, n),
                        prod_except(xs, xs[i as int], i as int, 0, n),
                    );
                    us = us.push(den_inv@);
                    if den@ == 0 {
                        assert(0 * den_inv@ == 0) by (nonlinear_arith);
                        lemma_cong_small(0, m);
                    }
                    lemma_cong_mul(den@, pd, den_inv@, den_inv@, m);
                    lemma_cong_small(1, m);
                    lemma_cong_mul(num@, pn, den_inv@, den_inv@, m);
                    lemma_cong_mod(num@ * den_inv@, m);
                }
                coeffs.push(c);
            },
            None => {
                proof {
                    let l = choose|l: int| 0 <= l < n && l != i && xs[l] == xs[i as int];
                    assert(xs[l] == xs[i as int]);
                }
                return Err(VssError::BadIndices);
            },
        }
    }
    proof {
        let ls = residues(coeffs@);
        let uf = |i: int| us[i];
        assert forall|i: int| 0 <= i < n implies cong(
            #[trigger] prod_except(xs, xs[i], i, 0, n) * uf(i),
            1,
            m,
        ) by {
            assert(cong(prod_except(xs, xs[i], i, 0, n) * us[i], 1, m));
        }
        assert(inverts(xs, uf, 0, n, m));
        lemma_lagrange(ls, us, xs, x, m);
    }
    Ok(coeffs)
}

/// Setting the two lowest coefficients of `c`, which are zero, adds their linear polynomial.
proof fn lemma_pinned(f: Seq<int>, c: Seq<int>, x: int, a0: int, a1: int)
    requires
        c.len() == f.len() >= 2,
        c[0] == 0,
        c[1] == 0,
        f[0] == a0,
        f[1] == a1,
        f.skip(2) == c.skip(2),
    ensures
        poly(f, x) == a0 + x * a1 + poly(c, x),
{
    let t = poly(c.skip(2), x);
    assert(f.drop_first().drop_first() =~= f.skip(2));
    assert(c.drop_first().drop_first() =~= c.skip(2));
    assert(poly(f.drop_first(), x) == a1 + x * t);
    assert(poly(c.drop_first(), x) == 0 + x * t);
    assert(a0 + x * (a1 + x * t) == a0 + x * a1 + (0 + x * (0 + x * t))) by (nonlinear_arith);
}

/// The solution of the two pinning equations.
proof fn lemma_solves(a0: int, a1: int, rhs1: int, rhs2: int, m: int)
    requires
        m > 0,
        a1 == (rhs1 - rhs2) % m,
        a0 == (rhs1 + a1) % m,
    ensures
        cong(a0 - a1, rhs1, m),
        cong(a0 - 2 * a1, rhs2, m),
{
    lemma_cong_mod(rhs1 - rhs2, m);
    lemma_cong_mod(rhs1 + a1, m);
    lemma_cong_sub(a0, rhs1 + a1, a1, a1, m);
    lemma_cong_sub(a0 - a1, rhs1, a1, rhs1 - rhs2, m);
}

} // verus!
