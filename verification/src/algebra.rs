//! Congruences, polynomials and Lagrange interpolation over the integers modulo `m`.
use vstd::arithmetic::div_mod::*;
use vstd::arithmetic::power::*;
use vstd::prelude::*;

verus! {

/// `a` and `b` leave the same remainder modulo `m`.
pub open spec fn cong(a: int, b: int, m: int) -> bool {
    a % m == b % m
}

pub proof fn lemma_cong_mod(a: int, m: int)
    requires
        m > 0,
    ensures
        cong(a % m, a, m),
        0 <= a % m < m,
{
    lemma_mod_bound(a, m);
    lemma_small_mod((a % m) as nat, m as nat);
}

/// A representative in range is its own remainder.
pub proof fn lemma_cong_small(a: int, m: int)
    requires
        0 <= a < m,
    ensures
        a % m == a,
{
    lemma_small_mod(a as nat, m as nat);
}

/// Congruent representatives in range are equal.
pub proof fn lemma_cong_eq(a: int, b: int, m: int)
    requires
        cong(a, b, m),
        0 <= a < m,
        0 <= b < m,
    ensures
        a == b,
{
    lemma_small_mod(a as nat, m as nat);
    lemma_small_mod(b as nat, m as nat);
}

pub proof fn lemma_cong_add(a: int, b: int, c: int, d: int, m: int)
    requires
        m > 0,
        cong(a, b, m),
        cong(c, d, m),
    ensures
        cong(a + c, b + d, m),
{
    lemma_add_mod_noop(a, c, m);
    lemma_add_mod_noop(b, d, m);
}

pub proof fn lemma_cong_sub(a: int, b: int, c: int, d: int, m: int)
    requires
        m > 0,
        cong(a, b, m),
        cong(c, d, m),
    ensures
        cong(a - c, b - d, m),
{
    lemma_sub_mod_noop(a, c, m);
    lemma_sub_mod_noop(b, d, m);
}

pub proof fn lemma_cong_mul(a: int, b: int, c: int, d: int, m: int)
    requires
        m > 0,
        cong(a, b, m),
        cong(c, d, m),
    ensures
        cong(a * c, b * d, m),
{
    lemma_mul_mod_noop(a, c, m);
    lemma_mul_mod_noop(b, d, m);
}

/// The value at `x` of the polynomial with coefficients `c`, constant term first.
pub open spec fn poly(c: Seq<int>, x: int) -> int
    decreases c.len(),
{
    if c.len() == 0 {
        0
    } else {
        c[0] + x * poly(c.drop_first(), x)
    }
}

/// Polynomials with congruent coefficients take congruent values at congruent points.
pub proof fn lemma_poly_cong(c: Seq<int>, d: Seq<int>, x: int, y: int, m: int)
    requires
        m > 0,
        c.len() == d.len(),
        cong(x, y, m),
        forall|i: int| 0 <= i < c.len() ==> cong(#[trigger] c[i], d[i], m),
    ensures
        cong(poly(c, x), poly(d, y), m),
    decreases c.len(),
{
    if c.len() > 0 {
        let (cr, dr) = (c.drop_first(), d.drop_first());
        assert forall|i: int| 0 <= i < cr.len() implies cong(#[trigger] cr[i], dr[i], m) by {
            assert(cr[i] == c[i + 1]);
            assert(dr[i] == d[i + 1]);
        }
        lemma_poly_cong(cr, dr, x, y, m);
        lemma_cong_mul(x, y, poly(cr, x), poly(dr, y), m);
        assert(cong(c[0], d[0], m));
        lemma_cong_add(c[0], d[0], x * poly(cr, x), y * poly(dr, y), m);
    }
}

/// Evaluation is linear in the coefficients.
pub proof fn lemma_poly_linear(f: Seq<int>, g: Seq<int>, h: Seq<int>, a: int, b: int, x: int)
    requires
        f.len() == g.len() == h.len(),
        forall|i: int| 0 <= i < h.len() ==> #[trigger] h[i] == a * f[i] + b * g[i],
    ensures
        poly(h, x) == a * poly(f, x) + b * poly(g, x),
    decreases h.len(),
{
    if h.len() > 0 {
        let (fr, gr, hr) = (f.drop_first(), g.drop_first(), h.drop_first());
        assert forall|i: int| 0 <= i < hr.len() implies #[trigger] hr[i] == a * fr[i] + b
            * gr[i] by {
            assert(hr[i] == h[i + 1]);
        }
        lemma_poly_linear(fr, gr, hr, a, b, x);
        let (pf, pg, ph) = (poly(fr, x), poly(gr, x), poly(hr, x));
        assert(h[0] == a * f[0] + b * g[0]);
        assert(x * (a * pf + b * pg) == a * (x * pf) + b * (x * pg)) by (nonlinear_arith);
        let (f0, g0, xf, xg) = (f[0], g[0], x * pf, x * pg);
        assert(a * (f0 + xf) + b * (g0 + xg) == a * f0 + b * g0 + (a * xf + b * xg))
            by (nonlinear_arith);
    } else {
        assert(a * 0 + b * 0 == 0) by (nonlinear_arith);
    }
}

/// A further coefficient adds its monomial.
pub proof fn lemma_poly_push(c: Seq<int>, v: int, x: int)
    ensures
        poly(c.push(v), x) == poly(c, x) + v * pow(x, c.len()),
    decreases c.len(),
{
    let d = c.push(v);
    if c.len() == 0 {
        assert(d.drop_first() =~= c);
        lemma_pow0(x);
        assert(v + x * 0 == 0 + v * 1) by (nonlinear_arith);
    } else {
        let r = c.drop_first();
        assert(d.drop_first() =~= r.push(v));
        lemma_poly_push(r, v, x);
        reveal(pow);
        let (p, q) = (poly(r, x), pow(x, r.len()));
        assert(pow(x, c.len()) == x * q);
        assert(x * (p + v * q) == x * p + v * (x * q)) by (nonlinear_arith);
    }
}

/// A polynomial is the sum of its monomials.
pub proof fn lemma_poly_monomials(c: Seq<int>, x: int, n: int)
    requires
        0 <= n <= c.len(),
    ensures
        poly(c.take(n), x) == sum(|k: int| c[k] * pow(x, k as nat), 0, n),
    decreases n,
{
    if n > 0 {
        lemma_poly_monomials(c, x, n - 1);
        assert(c.take(n) =~= c.take(n - 1).push(c[n - 1]));
        lemma_poly_push(c.take(n - 1), c[n - 1], x);
    }
}

/// The quotient of the polynomial `c` by `x - a`.
pub open spec fn quotient(c: Seq<int>, a: int) -> Seq<int>
    decreases c.len(),
{
    if c.len() <= 1 {
        Seq::empty()
    } else {
        seq![poly(c.drop_first(), a)] + quotient(c.drop_first(), a)
    }
}

/// `c(x) = c(a) + (x - a) * quotient(c, a)(x)`.
proof fn lemma_quotient(c: Seq<int>, a: int, x: int)
    ensures
        c.len() > 0 ==> quotient(c, a).len() == c.len() - 1,
        poly(c, x) == poly(c, a) + (x - a) * poly(quotient(c, a), x),
    decreases c.len(),
{
    let q = quotient(c, a);
    if c.len() <= 1 {
        assert((x - a) * 0 == 0) by (nonlinear_arith);
        if c.len() == 1 {
            let r = c.drop_first();
            assert(poly(r, x) == 0);
            assert(poly(r, a) == 0);
            assert(x * 0 == 0 && a * 0 == 0) by (nonlinear_arith);
        }
    } else {
        let r = c.drop_first();
        lemma_quotient(r, a, x);
        let qr = quotient(r, a);
        assert(q.drop_first() =~= qr);
        let (px, pa, pq) = (poly(r, x), poly(r, a), poly(qr, x));
        assert(q[0] == pa);
        assert(c[0] + x * px == c[0] + a * pa + (x - a) * (pa + x * pq)) by (nonlinear_arith)
            requires
                px == pa + (x - a) * pq,
        ;
    }
}

/// The sum of `f(i)` over `lo <= i < hi`.
pub open spec fn sum(f: spec_fn(int) -> int, lo: int, hi: int) -> int
    decreases hi - lo,
{
    if hi <= lo {
        0
    } else {
        sum(f, lo, hi - 1) + f(hi - 1)
    }
}

pub proof fn lemma_sum_cong(f: spec_fn(int) -> int, g: spec_fn(int) -> int, lo: int, hi: int, m: int)
    requires
        m > 0,
        forall|i: int| lo <= i < hi ==> cong(#[trigger] f(i), g(i), m),
    ensures
        cong(sum(f, lo, hi), sum(g, lo, hi), m),
    decreases hi - lo,
{
    if lo < hi {
        lemma_sum_cong(f, g, lo, hi - 1, m);
        assert(cong(f(hi - 1), g(hi - 1), m));
        lemma_cong_add(sum(f, lo, hi - 1), sum(g, lo, hi - 1), f(hi - 1), g(hi - 1), m);
    }
}

pub proof fn lemma_sum_eq(f: spec_fn(int) -> int, g: spec_fn(int) -> int, lo: int, hi: int)
    requires
        forall|i: int| lo <= i < hi ==> #[trigger] f(i) == g(i),
    ensures
        sum(f, lo, hi) == sum(g, lo, hi),
    decreases hi - lo,
{
    if lo < hi {
        lemma_sum_eq(f, g, lo, hi - 1);
    }
}

/// Summation is linear.
pub proof fn lemma_sum_linear(
    f: spec_fn(int) -> int,
    g: spec_fn(int) -> int,
    h: spec_fn(int) -> int,
    a: int,
    b: int,
    lo: int,
    hi: int,
)
    requires
        forall|i: int| lo <= i < hi ==> #[trigger] h(i) == a * f(i) + b * g(i),
    ensures
        sum(h, lo, hi) == a * sum(f, lo, hi) + b * sum(g, lo, hi),
    decreases hi - lo,
{
    if lo < hi {
        lemma_sum_linear(f, g, h, a, b, lo, hi - 1);
        let (sf, sg, sh) = (sum(f, lo, hi - 1), sum(g, lo, hi - 1), sum(h, lo, hi - 1));
        let (lf, lg, lh) = (f(hi - 1), g(hi - 1), h(hi - 1));
        assert(sh + lh == a * (sf + lf) + b * (sg + lg)) by (nonlinear_arith)
            requires
                sh == a * sf + b * sg,
                lh == a * lf + b * lg,
        ;
    } else {
        assert(a * 0 + b * 0 == 0) by (nonlinear_arith);
    }
}

/// A sum whose first term stands apart.
pub proof fn lemma_sum_first(f: spec_fn(int) -> int, lo: int, hi: int)
    requires
        lo < hi,
    ensures
        sum(f, lo, hi) == f(lo) + sum(f, lo + 1, hi),
    decreases hi - lo,
{
    if lo + 1 < hi {
        lemma_sum_first(f, lo, hi - 1);
    } else {
        assert(sum(f, lo, lo) == 0);
        assert(sum(f, lo + 1, hi) == 0);
        assert(sum(f, lo, hi) == sum(f, lo, hi - 1) + f(hi - 1));
    }
}

/// The product of `x - xs[k]` over `lo <= k < hi` with `k != i`.
pub open spec fn prod_except(xs: Seq<int>, x: int, i: int, lo: int, hi: int) -> int
    decreases hi - lo,
{
    if hi <= lo {
        1
    } else if hi - 1 == i {
        prod_except(xs, x, i, lo, hi - 1)
    } else {
        prod_except(xs, x, i, lo, hi - 1) * (x - xs[hi - 1])
    }
}

proof fn lemma_prod_except_first(xs: Seq<int>, x: int, i: int, lo: int, hi: int)
    requires
        lo < hi,
        i != lo,
    ensures
        prod_except(xs, x, i, lo, hi) == (x - xs[lo]) * prod_except(xs, x, i, lo + 1, hi),
    decreases hi - lo,
{
    if lo + 1 < hi {
        lemma_prod_except_first(xs, x, i, lo, hi - 1);
        if hi - 1 != i {
            let (p, a, b) = (prod_except(xs, x, i, lo + 1, hi - 1), x - xs[lo], x - xs[hi - 1]);
            assert((a * p) * b == a * (p * b)) by (nonlinear_arith);
        }
    } else {
        assert(prod_except(xs, x, i, lo, lo) == 1);
        assert(prod_except(xs, x, i, lo + 1, hi) == 1);
        let a = x - xs[lo];
        assert(1 * a == a * 1) by (nonlinear_arith);
    }
}

/// Inverses of the Lagrange denominators: `us(i)` undoes the product of `xs[i] - xs[k]` over the
/// other points of the range.
pub open spec fn inverts(xs: Seq<int>, us: spec_fn(int) -> int, lo: int, hi: int, m: int) -> bool {
    forall|i: int|
        lo <= i < hi ==> cong(#[trigger] prod_except(xs, xs[i], i, lo, hi) * us(i), 1, m)
}

/// The Lagrange basis polynomial of the `i`-th point, at `x`.
pub open spec fn basis(
    xs: Seq<int>,
    us: spec_fn(int) -> int,
    x: int,
    i: int,
    lo: int,
    hi: int,
) -> int {
    prod_except(xs, x, i, lo, hi) * us(i)
}

spec fn us_without_last(xs: Seq<int>, us: spec_fn(int) -> int, hi: int) -> spec_fn(int) -> int {
    |i: int| us(i) * (xs[i] - xs[hi - 1])
}

spec fn us_without_first(xs: Seq<int>, us: spec_fn(int) -> int, lo: int) -> spec_fn(int) -> int {
    |i: int| us(i) * (xs[i] - xs[lo])
}

proof fn lemma_without_last(xs: Seq<int>, us: spec_fn(int) -> int, lo: int, hi: int, m: int)
    requires
        m > 0,
        lo < hi,
        inverts(xs, us, lo, hi, m),
    ensures
        inverts(xs, us_without_last(xs, us, hi), lo, hi - 1, m),
{
    let vs = us_without_last(xs, us, hi);
    assert forall|i: int| lo <= i < hi - 1 implies cong(
        #[trigger] prod_except(xs, xs[i], i, lo, hi - 1) * vs(i),
        1,
        m,
    ) by {
        let (p, d, u) = (prod_except(xs, xs[i], i, lo, hi - 1), xs[i] - xs[hi - 1], us(i));
        assert(cong(prod_except(xs, xs[i], i, lo, hi) * us(i), 1, m));
        assert(prod_except(xs, xs[i], i, lo, hi) == p * d);
        assert(p * (u * d) == (p * d) * u) by (nonlinear_arith);
    }
}

proof fn lemma_without_first(xs: Seq<int>, us: spec_fn(int) -> int, lo: int, hi: int, m: int)
    requires
        m > 0,
        lo < hi,
        inverts(xs, us, lo, hi, m),
    ensures
        inverts(xs, us_without_first(xs, us, lo), lo + 1, hi, m),
{
    let vs = us_without_first(xs, us, lo);
    assert forall|i: int| lo + 1 <= i < hi implies cong(
        #[trigger] prod_except(xs, xs[i], i, lo + 1, hi) * vs(i),
        1,
        m,
    ) by {
        let (p, d, u) = (prod_except(xs, xs[i], i, lo + 1, hi), xs[i] - xs[lo], us(i));
        assert(cong(prod_except(xs, xs[i], i, lo, hi) * us(i), 1, m));
        lemma_prod_except_first(xs, xs[i], i, lo, hi);
        assert(p * (u * d) == (d * p) * u) by (nonlinear_arith);
    }
}

/// The Lagrange basis polynomials sum to one.
proof fn lemma_basis_sum(xs: Seq<int>, us: spec_fn(int) -> int, x: int, lo: int, hi: int, m: int)
    requires
        m > 0,
        lo < hi,
        inverts(xs, us, lo, hi, m),
    ensures
        cong(sum(|i: int| basis(xs, us, x, i, lo, hi), lo, hi), 1, m),
    decreases hi - lo,
{
    let l = |i: int| basis(xs, us, x, i, lo, hi);
    if lo + 1 == hi {
        assert(sum(l, lo, lo) == 0);
        assert(sum(l, lo, hi) == sum(l, lo, hi - 1) + l(hi - 1));
        assert(prod_except(xs, xs[lo], lo, lo, hi) == prod_except(xs, xs[lo], lo, lo, lo));
        assert(prod_except(xs, x, lo, lo, hi) == prod_except(xs, x, lo, lo, lo));
        assert(cong(prod_except(xs, xs[lo], lo, lo, hi) * us(lo), 1, m));
        assert(sum(l, lo, hi) == prod_except(xs, xs[lo], lo, lo, hi) * us(lo));
    } else {
        let z = hi - 1;
        let (a, b) = (xs[lo], xs[z]);
        let ul = us_without_last(xs, us, hi);
        let uf = us_without_first(xs, us, lo);
        let ll = |i: int| basis(xs, ul, x, i, lo, hi - 1);
        let lf = |i: int| basis(xs, uf, x, i, lo + 1, hi);
        lemma_without_last(xs, us, lo, hi, m);
        lemma_without_first(xs, us, lo, hi, m);
        lemma_basis_sum(xs, ul, x, lo, hi - 1, m);
        lemma_basis_sum(xs, uf, x, lo + 1, hi, m);
        // Weighted by the distance to the last point, the basis is the shorter one, scaled.
        let wl = |i: int| l(i) * (xs[i] - b);
        assert forall|i: int| lo <= i < z implies #[trigger] wl(i) == (x - b) * ll(i) + 0 * ll(
            i,
        ) by {
            let (p, u, d, e) = (prod_except(xs, x, i, lo, z), us(i), xs[i] - b, x - b);
            assert(prod_except(xs, x, i, lo, hi) == p * e);
            assert((p * e) * u * d == e * (p * (u * d)) + 0 * (p * (u * d))) by (nonlinear_arith);
        }
        lemma_sum_linear(ll, ll, wl, x - b, 0, lo, z);
        assert(wl(z) == 0) by {
            let v = l(z);
            assert(v * (b - b) == 0) by (nonlinear_arith);
        }
        let sl = sum(ll, lo, z);
        assert(sum(wl, lo, hi) == (x - b) * sl + 0 * sl);
        // Likewise for the first point.
        let wf = |i: int| l(i) * (xs[i] - a);
        assert forall|i: int| lo + 1 <= i < hi implies #[trigger] wf(i) == (x - a) * lf(i) + 0 * lf(
            i,
        ) by {
            let (p, u, d, e) = (prod_except(xs, x, i, lo + 1, hi), us(i), xs[i] - a, x - a);
            lemma_prod_except_first(xs, x, i, lo, hi);
            assert((e * p) * u * d == e * (p * (u * d)) + 0 * (p * (u * d))) by (nonlinear_arith);
        }
        lemma_sum_linear(lf, lf, wf, x - a, 0, lo + 1, hi);
        lemma_sum_first(wf, lo, hi);
        assert(wf(lo) == 0) by {
            let v = l(lo);
            assert(v * (a - a) == 0) by (nonlinear_arith);
        }
        let sf = sum(lf, lo + 1, hi);
        assert(sum(wf, lo, hi) == (x - a) * sf + 0 * sf);
        // Their difference is the basis sum scaled by a unit.
        let s = sum(l, lo, hi);
        let diff = |i: int| (a - b) * l(i) + 0 * l(i);
        lemma_sum_linear(l, l, diff, a - b, 0, lo, hi);
        assert forall|i: int| lo <= i < hi implies #[trigger] diff(i) == 1 * wl(i) + (-1) * wf(
            i,
        ) by {
            let (v, p) = (l(i), xs[i]);
            assert((a - b) * v + 0 * v == 1 * (v * (p - b)) + (-1) * (v * (p - a)))
                by (nonlinear_arith);
        }
        lemma_sum_linear(wl, wf, diff, 1, -1, lo, hi);
        assert((a - b) * s == (x - b) * sl - (x - a) * sf) by (nonlinear_arith)
            requires
                (a - b) * s + 0 * s == 1 * ((x - b) * sl + 0 * sl) + (-1) * ((x - a) * sf + 0
                    * sf),
        ;
        lemma_cong_mul(x - b, x - b, sl, 1, m);
        lemma_cong_mul(x - a, x - a, sf, 1, m);
        lemma_cong_sub((x - b) * sl, (x - b) * 1, (x - a) * sf, (x - a) * 1, m);
        assert((x - b) * 1 - (x - a) * 1 == a - b) by (nonlinear_arith);
        let p = prod_except(xs, a, lo, lo, z);
        let w = p * us(lo);
        assert(cong(prod_except(xs, xs[lo], lo, lo, hi) * us(lo), 1, m));
        let u = us(lo);
        assert((p * (a - b)) * u == w * (a - b)) by (nonlinear_arith)
            requires
                w == p * u,
        ;
        // cong(w * (a - b), 1)
        lemma_cong_mul(w, w, (a - b) * s, a - b, m);
        lemma_cong_mul(w * (a - b), 1, s, s, m);
        assert(w * ((a - b) * s) == (w * (a - b)) * s) by (nonlinear_arith);
        assert(1 * s == s) by (nonlinear_arith);
    }
}

/// Lagrange interpolation: any polynomial with at most as many coefficients as there are points is
/// recovered at `x` from its values at the points.
pub proof fn lemma_interpolation(
    xs: Seq<int>,
    us: spec_fn(int) -> int,
    c: Seq<int>,
    x: int,
    lo: int,
    hi: int,
    m: int,
)
    requires
        m > 0,
        lo < hi,
        c.len() <= hi - lo,
        inverts(xs, us, lo, hi, m),
    ensures
        cong(sum(|i: int| basis(xs, us, x, i, lo, hi) * poly(c, xs[i]), lo, hi), poly(c, x), m),
    decreases hi - lo,
{
    let l = |i: int| basis(xs, us, x, i, lo, hi);
    let t = |i: int| basis(xs, us, x, i, lo, hi) * poly(c, xs[i]);
    lemma_basis_sum(xs, us, x, lo, hi, m);
    let z = hi - 1;
    let b = xs[z];
    let q = quotient(c, b);
    let s = sum(l, lo, hi);
    let v = poly(c, b);
    lemma_quotient(c, b, x);
    // The value at the last point, spread over the basis, plus the quotient's part.
    let r = |i: int| l(i) * ((xs[i] - b) * poly(q, xs[i]));
    assert forall|i: int| lo <= i < hi implies #[trigger] t(i) == v * l(i) + 1 * r(i) by {
        lemma_quotient(c, b, xs[i]);
        let (e, d, pq) = (l(i), xs[i] - b, poly(q, xs[i]));
        assert(e * (v + d * pq) == v * e + 1 * (e * (d * pq))) by (nonlinear_arith);
    }
    lemma_sum_linear(l, r, t, v, 1, lo, hi);
    let sr = sum(r, lo, hi);
    assert(r(z) == 0) by {
        let (e, pq) = (l(z), poly(q, xs[z]));
        assert(e * ((b - b) * pq) == 0) by (nonlinear_arith);
    }
    assert(sr == sum(r, lo, z));
    assert(cong(sr, (x - b) * poly(q, x), m)) by {
        if lo + 1 == hi {
            assert(q.len() == 0);
            assert(sum(r, lo, lo) == 0);
            assert((x - b) * 0 == 0) by (nonlinear_arith);
        } else {
            let ul = us_without_last(xs, us, hi);
            let tl = |i: int| basis(xs, ul, x, i, lo, z) * poly(q, xs[i]);
            lemma_without_last(xs, us, lo, hi, m);
            lemma_interpolation(xs, ul, q, x, lo, z, m);
            assert forall|i: int| lo <= i < z implies #[trigger] r(i) == (x - b) * tl(i) + 0 * tl(
                i,
            ) by {
                let (p, u, d, e, pq) = (
                    prod_except(xs, x, i, lo, z),
                    us(i),
                    xs[i] - b,
                    x - b,
                    poly(q, xs[i]),
                );
                assert(prod_except(xs, x, i, lo, hi) == p * e);
                assert(((p * e) * u) * (d * pq) == e * ((p * (u * d)) * pq) + 0 * ((p * (u * d))
                    * pq)) by (nonlinear_arith);
            }
            lemma_sum_linear(tl, tl, r, x - b, 0, lo, z);
            let st = sum(tl, lo, z);
            assert(sr == (x - b) * st) by (nonlinear_arith)
                requires
                    sr == (x - b) * st + 0 * st,
            ;
            lemma_cong_mul(x - b, x - b, st, poly(q, x), m);
        }
    }
    lemma_cong_mul(v, v, s, 1, m);
    lemma_cong_add(v * s, v * 1, sr, (x - b) * poly(q, x), m);
    assert(v * 1 == v && 1 * sr == sr) by (nonlinear_arith);
}

/// No value occurs twice.
pub open spec fn distinct(xs: Seq<int>) -> bool {
    forall|i: int, j: int| 0 <= i < j < xs.len() ==> xs[i] != xs[j]
}

/// Weights by which the values at `xs` recover, modulo `m`, the value at `x` of every polynomial
/// with at most as many coefficients as there are points.
pub open spec fn interpolates(ls: Seq<int>, xs: Seq<int>, x: int, m: int) -> bool {
    &&& ls.len() == xs.len()
    &&& forall|c: Seq<int>|
        c.len() <= xs.len() ==> cong(
            #[trigger] weighted_values(ls, xs, c),
            poly(c, x),
            m,
        )
}

/// The values of the polynomial `c` at `xs`, weighted by `ls` and summed.
pub open spec fn weighted_values(ls: Seq<int>, xs: Seq<int>, c: Seq<int>) -> int {
    sum(|i: int| ls[i] * poly(c, xs[i]), 0, xs.len() as int)
}

/// The Lagrange weights for `x`: each is the quotient, modulo `m`, of the product of `x - xs[k]` by
/// that of `xs[i] - xs[k]`, over the other points `k`.
pub open spec fn lagrange_weights(ls: Seq<int>, xs: Seq<int>, x: int, m: int) -> bool {
    let n = xs.len() as int;
    &&& ls.len() == n
    &&& forall|i: int|
        0 <= i < n ==> 0 <= #[trigger] ls[i] < m && cong(
            ls[i] * prod_except(xs, xs[i], i, 0, n),
            prod_except(xs, x, i, 0, n),
            m,
        )
}

/// Quotients by inverted denominators are Lagrange weights, and interpolate.
pub proof fn lemma_lagrange(ls: Seq<int>, us: Seq<int>, xs: Seq<int>, x: int, m: int)
    requires
        m > 1,
        ls.len() == xs.len(),
        us.len() == xs.len(),
        inverts(xs, |i: int| us[i], 0, xs.len() as int, m),
        forall|i: int|
            0 <= i < ls.len() ==> 0 <= #[trigger] ls[i] < m && cong(
                ls[i],
                prod_except(xs, x, i, 0, xs.len() as int) * us[i],
                m,
            ),
    ensures
        lagrange_weights(ls, xs, x, m),
        interpolates(ls, xs, x, m),
{
    let n = xs.len() as int;
    let uf = |i: int| us[i];
    assert forall|i: int| 0 <= i < n implies cong(
        #[trigger] ls[i] * prod_except(xs, xs[i], i, 0, n),
        prod_except(xs, x, i, 0, n),
        m,
    ) by {
        let (d, p, u) = (prod_except(xs, xs[i], i, 0, n), prod_except(xs, x, i, 0, n), us[i]);
        assert(cong(prod_except(xs, xs[i], i, 0, n) * uf(i), 1, m));
        lemma_cong_mul(ls[i], p * u, d, d, m);
        assert((p * u) * d == p * (d * u)) by (nonlinear_arith);
        lemma_cong_mul(p, p, d * u, 1, m);
        assert(p * 1 == p) by (nonlinear_arith);
    }
    assert forall|c: Seq<int>| c.len() <= n implies cong(
        #[trigger] weighted_values(ls, xs, c),
        poly(c, x),
        m,
    ) by {
        let t = |i: int| ls[i] * poly(c, xs[i]);
        let b = |i: int| basis(xs, uf, x, i, 0, n) * poly(c, xs[i]);
        if n > 0 {
            assert forall|i: int| 0 <= i < n implies cong(#[trigger] t(i), b(i), m) by {
                lemma_cong_mul(
                    ls[i],
                    basis(xs, uf, x, i, 0, n),
                    poly(c, xs[i]),
                    poly(c, xs[i]),
                    m,
                );
            }
            lemma_sum_cong(t, b, 0, n, m);
            lemma_interpolation(xs, uf, c, x, 0, n, m);
        }
    }
}

/// The polynomial whose coefficients are all zero is zero everywhere.
pub proof fn lemma_poly_zeros(c: Seq<int>, x: int)
    requires
        forall|i: int| 0 <= i < c.len() ==> c[i] == 0,
    ensures
        poly(c, x) == 0,
    decreases c.len(),
{
    if c.len() > 0 {
        lemma_poly_zeros(c.drop_first(), x);
        assert(x * 0 == 0) by (nonlinear_arith);
    }
}

} // verus!
