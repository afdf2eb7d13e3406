//! Polynomials over GF(2^32) and the two interpolation strategies.
//!
//! A `GfPoly` is either a dense coefficient list (a fresh random
//! polynomial with a chosen constant term) or a barycentric form
//! (sample points plus precomputed weights, built only by recovery).
//! `lagrange_constant` is the fast path that recovers only the value at
//! zero; `GfPoly::recover` is the slow path that rebuilds an evaluable
//! polynomial so that further samples can be minted.

use vstd::prelude::*;

use crate::gf::{
    GfElem, gf_add, gf_mul, gf_inv, mul_words, inv_word, lemma_gf_mul_one_right,
    lemma_gf_mul_zero_left,
};
use crate::Error;

verus! {

/// The words held by a sequence of field elements.
pub open spec fn vals(s: Seq<GfElem>) -> Seq<u32> {
    Seq::new(s.len(), |i: int| s[i].0)
}

/// No two entries of `s` are equal.
pub open spec fn distinct(s: Seq<u32>) -> bool {
    forall|i: int, j: int| 0 <= i < j < s.len() ==> s[i] != s[j]
}

/// XOR of a sequence of words: the field sum of its entries.
pub open spec fn gf_sum(s: Seq<u32>) -> u32
    decreases s.len(),
{
    if s.len() == 0 {
        0
    } else {
        gf_sum(s.drop_last()) ^ s.last()
    }
}

/// Field product of a sequence of words; the empty product is one.
pub open spec fn gf_prod(s: Seq<u32>) -> u32
    decreases s.len(),
{
    if s.len() == 0 {
        1
    } else {
        gf_mul(gf_prod(s.drop_last()), s.last())
    }
}

/// Extending a partial sum by one term.
pub proof fn lemma_sum_snoc(s: Seq<u32>, j: int)
    requires
        0 <= j < s.len(),
    ensures
        gf_sum(s.take(j + 1)) == gf_sum(s.take(j)) ^ s[j],
{
    assert(s.take(j + 1).drop_last() =~= s.take(j));
    assert(s.take(j + 1).last() == s[j]);
}

/// Extending a partial product by one factor.
pub proof fn lemma_prod_snoc(s: Seq<u32>, j: int)
    requires
        0 <= j < s.len(),
    ensures
        gf_prod(s.take(j + 1)) == gf_mul(gf_prod(s.take(j)), s[j]),
{
    assert(s.take(j + 1).drop_last() =~= s.take(j));
    assert(s.take(j + 1).last() == s[j]);
}

/// The value of the polynomial with coefficient list `cs` (constant
/// term first) at the point `x`: the Horner form of sum of c_i x^i.
pub open spec fn poly_at(cs: Seq<u32>, x: u32) -> u32
    decreases cs.len(),
{
    if cs.len() == 0 {
        0
    } else {
        cs[0] ^ gf_mul(x, poly_at(cs.subrange(1, cs.len() as int), x))
    }
}

/// The x-coordinates of a sample-point list.
pub open spec fn pts_xs(ps: Seq<(GfElem, GfElem)>) -> Seq<u32> {
    Seq::new(ps.len(), |i: int| ps[i].0.0)
}

/// The y-coordinates of a sample-point list.
pub open spec fn pts_ys(ps: Seq<(GfElem, GfElem)>) -> Seq<u32> {
    Seq::new(ps.len(), |i: int| ps[i].1.0)
}

/// One factor of the Lagrange basis polynomial for index `i`, evaluated
/// at zero: x_j / (x_i - x_j), where subtraction is XOR.
pub open spec fn basis_zero_term(xs: Seq<u32>, i: int, j: int) -> u32 {
    if j == i {
        1
    } else {
        gf_mul(xs[j], gf_inv(gf_add(xs[i], xs[j])))
    }
}

/// All factors of the i-th Lagrange basis at zero.
pub open spec fn basis_zero_terms(xs: Seq<u32>, i: int) -> Seq<u32> {
    Seq::new(xs.len(), |j: int| basis_zero_term(xs, i, j))
}

/// The i-th Lagrange basis polynomial evaluated at zero.
pub open spec fn basis_zero(xs: Seq<u32>, i: int) -> u32 {
    gf_prod(basis_zero_terms(xs, i))
}

/// The i-th summand of the Lagrange value at zero.
pub open spec fn lagrange_term(xs: Seq<u32>, ys: Seq<u32>, i: int) -> u32 {
    gf_mul(ys[i], basis_zero(xs, i))
}

/// All summands of the Lagrange value at zero.
pub open spec fn lagrange_terms(xs: Seq<u32>, ys: Seq<u32>) -> Seq<u32> {
    Seq::new(xs.len(), |i: int| lagrange_term(xs, ys, i))
}

/// The value at zero of the unique degree-(n-1) polynomial through the
/// n sample points (xs[i], ys[i]): the closed-form Lagrange sum
/// sum of y_i times prod over j of x_j / (x_i - x_j).
pub open spec fn lagrange_zero(xs: Seq<u32>, ys: Seq<u32>) -> u32 {
    gf_sum(lagrange_terms(xs, ys))
}

/// One factor of the i-th barycentric weight: x_i - x_j.
pub open spec fn weight_term(xs: Seq<u32>, i: int, j: int) -> u32 {
    if j == i {
        1
    } else {
        gf_add(xs[i], xs[j])
    }
}

/// All factors of the i-th barycentric weight.
pub open spec fn weight_terms(xs: Seq<u32>, i: int) -> Seq<u32> {
    Seq::new(xs.len(), |j: int| weight_term(xs, i, j))
}

/// The i-th barycentric weight: 1 / prod over j of (x_i - x_j).
pub open spec fn bary_weight(xs: Seq<u32>, i: int) -> u32 {
    gf_inv(gf_prod(weight_terms(xs, i)))
}

/// The weights of all sample points.
pub open spec fn bary_weights(xs: Seq<u32>) -> Seq<u32> {
    Seq::new(xs.len(), |i: int| bary_weight(xs, i))
}

/// The i-th barycentric coefficient at a query point `x` off the
/// sample set: w_i / (x - x_i).
pub open spec fn bary_coeff(xs: Seq<u32>, ws: Seq<u32>, x: u32, i: int) -> u32 {
    gf_mul(ws[i], gf_inv(gf_add(x, xs[i])))
}

/// The summands of the barycentric denominator at `x`.
pub open spec fn bary_den_terms(xs: Seq<u32>, ws: Seq<u32>, x: u32) -> Seq<u32> {
    Seq::new(xs.len(), |i: int| bary_coeff(xs, ws, x, i))
}

/// The summands of the barycentric numerator at `x`.
pub open spec fn bary_num_terms(xs: Seq<u32>, ys: Seq<u32>, ws: Seq<u32>, x: u32) -> Seq<u32> {
    Seq::new(xs.len(), |i: int| gf_mul(bary_coeff(xs, ws, x, i), ys[i]))
}

/// The barycentric interpolation value at `x`: y_i itself at a sample
/// point, and otherwise the quotient
/// (sum of w_i/(x - x_i) * y_i) / (sum of w_i/(x - x_i)).
pub open spec fn bary_at(xs: Seq<u32>, ys: Seq<u32>, ws: Seq<u32>, x: u32) -> u32 {
    if exists|i: int| 0 <= i < xs.len() && xs[i] == x {
        ys[choose|i: int| 0 <= i < xs.len() && xs[i] == x]
    } else {
        gf_mul(gf_sum(bary_num_terms(xs, ys, ws, x)), gf_inv(gf_sum(bary_den_terms(xs, ws, x))))
    }
}

/// A polynomial over GF(2^32), in one of the two forms the scheme
/// needs: freshly drawn dense coefficients, or a recovered barycentric
/// form that can still be evaluated anywhere.
#[derive(Clone, Debug)]
pub enum GfPoly {
    /// Coefficients, constant term first.
    Dense { coeffs: Vec<GfElem> },
    /// Sample points with their precomputed barycentric weights.
    Barycentric { xs: Vec<GfElem>, ys: Vec<GfElem>, ws: Vec<GfElem> },
}

impl GfPoly {
    /// How many coefficients (equivalently, sample points) the
    /// polynomial carries: its degree plus one.
    pub open spec fn size_spec(&self) -> int {
        match self {
            GfPoly::Dense { coeffs } => coeffs@.len() as int,
            GfPoly::Barycentric { xs, .. } => xs@.len() as int,
        }
    }

    /// Structural soundness: at least one coefficient, matching lengths
    /// and pairwise-distinct sample abscissae in the barycentric form.
    pub open spec fn wf(&self) -> bool {
        match self {
            GfPoly::Dense { coeffs } => coeffs@.len() >= 1,
            GfPoly::Barycentric { xs, ys, ws } => xs@.len() == ys@.len() && xs@.len() == ws@.len()
                && xs@.len() >= 1 && distinct(vals(xs@)),
        }
    }

    /// The value of the polynomial at `x`.
    pub open spec fn eval_spec(&self, x: u32) -> u32 {
        match self {
            GfPoly::Dense { coeffs } => poly_at(vals(coeffs@), x),
            GfPoly::Barycentric { xs, ys, ws } => bary_at(vals(xs@), vals(ys@), vals(ws@), x),
        }
    }

    /// The constant term: the value at zero.
    pub open spec fn constant_spec(&self) -> u32 {
        match self {
            GfPoly::Dense { coeffs } => vals(coeffs@)[0],
            GfPoly::Barycentric { xs, ys, ws } => bary_at(vals(xs@), vals(ys@), vals(ws@), 0),
        }
    }

    /// A fresh random polynomial of degree `threshold - 1` with the
    /// given constant term; the other coefficients are drawn uniformly
    /// from the CSPRNG.
    pub fn new_rand(threshold: u32, constant: GfElem) -> (r: GfPoly)
        requires
            threshold >= 1,
        ensures
            r.wf(),
            r is Dense,
            r.size_spec() == threshold,
            r.constant_spec() == constant.0,
    {
        let mut coeffs: Vec<GfElem> = Vec::new();
        coeffs.push(constant);
        let mut i: u32 = 1;
        while i < threshold
            invariant
                1 <= i <= threshold,
                coeffs@.len() == i,
                coeffs@[0] == constant,
            decreases threshold - i,
        {
            coeffs.push(GfElem::new_rand());
            i = i + 1;
        }
        GfPoly::Dense { coeffs }
    }

    /// Evaluate the polynomial at `x`.
    pub fn evaluate(&self, x: GfElem) -> (r: GfElem)
        requires
            self.wf(),
        ensures
            r.0 == self.eval_spec(x.0),
    {
        match self {
            GfPoly::Dense { coeffs } => GfElem(eval_dense(coeffs, x.0)),
            GfPoly::Barycentric { xs, ys, ws } => GfElem(eval_bary(xs, ys, ws, x.0)),
        }
    }

    /// The constant term of the polynomial.
    pub fn constant(&self) -> (r: GfElem)
        requires
            self.wf(),
        ensures
            r.0 == self.constant_spec(),
    {
        match self {
            GfPoly::Dense { coeffs } => coeffs[0],
            GfPoly::Barycentric { xs, ys, ws } => GfElem(eval_bary(xs, ys, ws, 0)),
        }
    }

    /// Rebuild a full evaluable polynomial of degree `k` from exactly
    /// `k + 1` sample points with pairwise-distinct x-coordinates, by
    /// precomputing the barycentric weights. This is the slow recovery
    /// path, needed only to mint further samples.
    pub fn recover(k: u32, points: &[(GfElem, GfElem)]) -> (r: Result<GfPoly, Error>)
        ensures
            points@.len() != k + 1 ==> r == Err::<GfPoly, Error>(Error::InterpolationFailure),
            points@.len() == k + 1 && !distinct(pts_xs(points@)) ==> r == Err::<GfPoly, Error>(
                Error::InterpolationFailure),
            points@.len() == k + 1 && distinct(pts_xs(points@)) ==> (r matches Ok(p) && p.wf()
                && p.size_spec() == k + 1 && (p matches GfPoly::Barycentric { xs, ys, ws }
                && vals(xs@) == pts_xs(points@) && vals(ys@) == pts_ys(points@)
                && vals(ws@) == bary_weights(pts_xs(points@)))),
    {
        if points.len() as u64 != k as u64 + 1 {
            return Err(Error::InterpolationFailure);
        }
        if !check_distinct(points) {
            return Err(Error::InterpolationFailure);
        }
        let n: usize = points.len();
        let ghost gxs = pts_xs(points@);
        let mut xs: Vec<GfElem> = Vec::new();
        let mut ys: Vec<GfElem> = Vec::new();
        let mut i: usize = 0;
        while i < n
            invariant
                i <= n,
                n == points@.len(),
                xs@.len() == i,
                ys@.len() == i,
                forall|p: int| 0 <= p < i ==> xs@[p] == points@[p].0,
                forall|p: int| 0 <= p < i ==> ys@[p] == points@[p].1,
            decreases n - i,
        {
            xs.push(points[i].0);
            ys.push(points[i].1);
            i = i + 1;
        }
        let mut ws: Vec<GfElem> = Vec::new();
        let mut i: usize = 0;
        while i < n
            invariant
                i <= n,
                n == points@.len(),
                n == gxs.len(),
                gxs == pts_xs(points@),
                ws@.len() == i,
                forall|p: int| 0 <= p < i ==> ws@[p].0 == bary_weight(gxs, p),
            decreases n - i,
        {
            let mut prod: u32 = 1;
            let ghost wterms = weight_terms(gxs, i as int);
            let mut j: usize = 0;
            proof {
                assert(wterms.take(0) =~= Seq::<u32>::empty());
            }
            while j < n
                invariant
                    j <= n,
                    i < n,
                    n == points@.len(),
                    n == gxs.len(),
                    gxs == pts_xs(points@),
                    wterms == weight_terms(gxs, i as int),
                    prod == gf_prod(wterms.take(j as int)),
                decreases n - j,
            {
                proof {
                    lemma_prod_snoc(wterms, j as int);
                }
                if j != i {
                    let d: u32 = points[i].0.0 ^ points[j].0.0;
                    prod = mul_words(prod, d);
                } else {
                    proof {
                        lemma_gf_mul_one_right(gf_prod(wterms.take(j as int)));
                    }
                }
                j = j + 1;
            }
            proof {
                assert(wterms.take(n as int) =~= wterms);
            }
            ws.push(GfElem(inv_word(prod)));
            i = i + 1;
        }
        let p = GfPoly::Barycentric { xs, ys, ws };
        proof {
            assert(vals(p->Barycentric_xs@) =~= pts_xs(points@));
            assert(vals(p->Barycentric_ys@) =~= pts_ys(points@));
            assert(vals(p->Barycentric_ws@) =~= bary_weights(pts_xs(points@)));
        }
        Ok(p)
    }
}

/// Evaluation at zero returns the constant term: sampling at any
/// non-zero abscissa, as the dealer does, therefore never hands out
/// what sampling at zero would, the constant term itself.
pub proof fn lemma_eval_at_zero(p: GfPoly)
    requires
        p.wf(),
    ensures
        p.eval_spec(0) == p.constant_spec(),
{
    match p {
        GfPoly::Dense { coeffs } => {
            let cs = vals(coeffs@);
            lemma_gf_mul_zero_left(poly_at(cs.subrange(1, cs.len() as int), 0));
            let c0: u32 = cs[0];
            assert(c0 ^ 0u32 == c0) by (bit_vector);
        },
        GfPoly::Barycentric { .. } => {
        },
    }
}

/// A degree-zero polynomial evaluates to its constant term everywhere.
pub proof fn lemma_degree_zero_eval(p: GfPoly, x: u32)
    requires
        p.wf(),
        p is Dense,
        p.size_spec() == 1,
    ensures
        p.eval_spec(x) == p.constant_spec(),
{
    match p {
        GfPoly::Dense { coeffs } => {
            let cs = vals(coeffs@);
            assert(poly_at(cs.subrange(1, cs.len() as int), x) == 0);
            assert(gf_mul(x, 0) == 0);
            let c0: u32 = cs[0];
            assert(c0 ^ 0u32 == c0) by (bit_vector);
        },
        GfPoly::Barycentric { .. } => {
        },
    }
}

/// Barycentric interpolation through distinct sample points passes
/// through every one of them: at the abscissa of the i-th sample it
/// returns the i-th value, whatever the weights.
pub proof fn lemma_bary_at_sample(xs: Seq<u32>, ys: Seq<u32>, ws: Seq<u32>, i: int)
    requires
        0 <= i < xs.len(),
        distinct(xs),
    ensures
        bary_at(xs, ys, ws, xs[i]) == ys[i],
{
    let x: u32 = xs[i];
    assert(0 <= i < xs.len() && xs[i] == x);
    let c: int = choose|p: int| 0 <= p < xs.len() && xs[p] == x;
    assert(xs[c] == x);
    if c < i {
        assert(xs[c] != xs[i]);
        assert(false);
    } else if i < c {
        assert(xs[i] != xs[c]);
        assert(false);
    }
}

/// Lagrange recovery from a single sample point returns that point's
/// value: with one sample the basis product is empty and the value at
/// zero is y_0 itself.
pub proof fn lemma_lagrange_single(xs: Seq<u32>, ys: Seq<u32>)
    requires
        xs.len() == 1,
        ys.len() == 1,
    ensures
        lagrange_zero(xs, ys) == ys[0],
{
    assert(gf_prod(Seq::<u32>::empty()) == 1);
    assert(gf_sum(Seq::<u32>::empty()) == 0);
    let bterms = basis_zero_terms(xs, 0);
    assert(bterms.drop_last() =~= Seq::<u32>::empty());
    assert(bterms.last() == 1);
    lemma_gf_mul_one_right(1);
    assert(basis_zero(xs, 0) == 1);
    lemma_gf_mul_one_right(ys[0]);
    let terms = lagrange_terms(xs, ys);
    assert(terms.drop_last() =~= Seq::<u32>::empty());
    assert(terms.last() == ys[0]);
    let y: u32 = ys[0];
    assert(0u32 ^ y == y) by (bit_vector);
}

/// Whether the x-coordinates of the sample points are pairwise
/// distinct.
fn check_distinct(points: &[(GfElem, GfElem)]) -> (r: bool)
    ensures
        r == distinct(pts_xs(points@)),
{
    let n: usize = points.len();
    let mut i: usize = 0;
    while i < n
        invariant
            i <= n,
            n == points@.len(),
            forall|p: int, q: int| 0 <= p < q < n && p < i ==> pts_xs(points@)[p] != pts_xs(
                points@)[q],
        decreases n - i,
    {
        let mut j: usize = i + 1;
        while j < n
            invariant
                i < j <= n,
                n == points@.len(),
                forall|q: int| i < q < j ==> pts_xs(points@)[i as int] != pts_xs(points@)[q],
            decreases n - j,
        {
            if points[i].0.0 == points[j].0.0 {
                assert(pts_xs(points@)[i as int] == pts_xs(points@)[j as int]);
                return false;
            }
            j = j + 1;
        }
        i = i + 1;
    }
    true
}

/// Horner evaluation of a dense coefficient list at `x`.
fn eval_dense(coeffs: &Vec<GfElem>, x: u32) -> (r: u32)
    ensures
        r == poly_at(vals(coeffs@), x),
{
    let n: usize = coeffs.len();
    let ghost cs = vals(coeffs@);
    let mut acc: u32 = 0;
    let mut i: usize = n;
    proof {
        assert(cs.subrange(n as int, n as int) =~= Seq::<u32>::empty());
    }
    while i > 0
        invariant
            i <= n,
            n == coeffs@.len(),
            cs == vals(coeffs@),
            acc == poly_at(cs.subrange(i as int, n as int), x),
        decreases i,
    {
        i = i - 1;
        acc = coeffs[i].0 ^ mul_words(x, acc);
        proof {
            let s1 = cs.subrange(i as int, n as int);
            assert(s1[0] == cs[i as int]);
            assert(s1.subrange(1, s1.len() as int) =~= cs.subrange(i as int + 1, n as int));
        }
    }
    proof {
        assert(cs.subrange(0, n as int) =~= cs);
    }
    acc
}

/// Barycentric evaluation at `x`: return y_i directly at a sample
/// point, otherwise the weighted quotient formula.
fn eval_bary(xs: &Vec<GfElem>, ys: &Vec<GfElem>, ws: &Vec<GfElem>, x: u32) -> (r: u32)
    requires
        xs@.len() == ys@.len(),
        xs@.len() == ws@.len(),
        distinct(vals(xs@)),
    ensures
        r == bary_at(vals(xs@), vals(ys@), vals(ws@), x),
{
    let n: usize = xs.len();
    let ghost gxs = vals(xs@);
    let ghost gys = vals(ys@);
    let ghost gws = vals(ws@);
    let mut i: usize = 0;
    while i < n
        invariant
            i <= n,
            n == xs@.len(),
            n == ys@.len(),
            n == ws@.len(),
            gxs == vals(xs@),
            gys == vals(ys@),
            distinct(gxs),
            forall|j: int| 0 <= j < i ==> gxs[j] != x,
        decreases n - i,
    {
        if xs[i].0 == x {
            proof {
                assert(gxs[i as int] == x);
                let c: int = choose|p: int| 0 <= p < gxs.len() && gxs[p] == x;
                assert(gxs[c] == x);
                if c < i as int {
                    assert(gxs[c] != gxs[i as int]);
                    assert(false);
                } else if (i as int) < c {
                    assert(gxs[i as int] != gxs[c]);
                    assert(false);
                }
            }
            return ys[i].0;
        }
        i = i + 1;
    }
    proof {
        assert(!(exists|p: int| 0 <= p < gxs.len() && gxs[p] == x));
    }
    let ghost dterms = bary_den_terms(gxs, gws, x);
    let ghost nterms = bary_num_terms(gxs, gys, gws, x);
    let mut den: u32 = 0;
    let mut num: u32 = 0;
    let mut i: usize = 0;
    proof {
        assert(dterms.take(0) =~= Seq::<u32>::empty());
        assert(nterms.take(0) =~= Seq::<u32>::empty());
    }
    while i < n
        invariant
            i <= n,
            n == xs@.len(),
            n == ys@.len(),
            n == ws@.len(),
            gxs == vals(xs@),
            gys == vals(ys@),
            gws == vals(ws@),
            dterms == bary_den_terms(gxs, gws, x),
            nterms == bary_num_terms(gxs, gys, gws, x),
            den == gf_sum(dterms.take(i as int)),
            num == gf_sum(nterms.take(i as int)),
        decreases n - i,
    {
        proof {
            lemma_sum_snoc(dterms, i as int);
            lemma_sum_snoc(nterms, i as int);
        }
        let c: u32 = mul_words(ws[i].0, inv_word(x ^ xs[i].0));
        den = den ^ c;
        num = num ^ mul_words(c, ys[i].0);
        i = i + 1;
    }
    proof {
        assert(dterms.take(n as int) =~= dterms);
        assert(nterms.take(n as int) =~= nterms);
    }
    mul_words(num, inv_word(den))
}

/// Recover only the constant term of the degree-`k` polynomial through
/// exactly `k + 1` sample points with pairwise-distinct x-coordinates:
/// the fast path for secret recovery, evaluating the closed-form
/// Lagrange sum at zero.
pub fn lagrange_constant(k: u32, points: &[(GfElem, GfElem)]) -> (r: Result<GfElem, Error>)
    ensures
        points@.len() != k + 1 ==> r == Err::<GfElem, Error>(Error::InterpolationFailure),
        points@.len() == k + 1 && !distinct(pts_xs(points@)) ==> r == Err::<GfElem, Error>(
            Error::InterpolationFailure),
        points@.len() == k + 1 && distinct(pts_xs(points@)) ==> r == Ok::<GfElem, Error>(GfElem(
            lagrange_zero(pts_xs(points@), pts_ys(points@)))),
{
    if points.len() as u64 != k as u64 + 1 {
        return Err(Error::InterpolationFailure);
    }
    if !check_distinct(points) {
        return Err(Error::InterpolationFailure);
    }
    let n: usize = points.len();
    let ghost gxs = pts_xs(points@);
    let ghost gys = pts_ys(points@);
    let ghost terms = lagrange_terms(gxs, gys);
    let mut acc: u32 = 0;
    let mut i: usize = 0;
    proof {
        assert(terms.take(0) =~= Seq::<u32>::empty());
    }
    while i < n
        invariant
            i <= n,
            n == points@.len(),
            n == gxs.len(),
            gxs == pts_xs(points@),
            gys == pts_ys(points@),
            terms == lagrange_terms(gxs, gys),
            acc == gf_sum(terms.take(i as int)),
        decreases n - i,
    {
        let mut basis: u32 = 1;
        let ghost bterms = basis_zero_terms(gxs, i as int);
        let mut j: usize = 0;
        proof {
            assert(bterms.take(0) =~= Seq::<u32>::empty());
        }
        while j < n
            invariant
                j <= n,
                i < n,
                n == points@.len(),
                n == gxs.len(),
                gxs == pts_xs(points@),
                bterms == basis_zero_terms(gxs, i as int),
                basis == gf_prod(bterms.take(j as int)),
            decreases n - j,
        {
            proof {
                lemma_prod_snoc(bterms, j as int);
            }
            if j != i {
                let d: u32 = points[i].0.0 ^ points[j].0.0;
                basis = mul_words(basis, mul_words(points[j].0.0, inv_word(d)));
            } else {
                proof {
                    lemma_gf_mul_one_right(gf_prod(bterms.take(j as int)));
                }
            }
            j = j + 1;
        }
        proof {
            assert(bterms.take(n as int) =~= bterms);
            lemma_sum_snoc(terms, i as int);
        }
        acc = acc ^ mul_words(points[i].1.0, basis);
        i = i + 1;
    }
    proof {
        assert(terms.take(n as int) =~= terms);
    }
    Ok(GfElem(acc))
}

} // verus!
