//! Multiplication by a scalar and by another polynomial.

use vstd::prelude::*;
use crate::canon::{canon, lemma_canon, lemma_view_unique};
use crate::{view_coef, view_top, view_wf, Poly};

verus! {

/// `sum of p.coef(i) * q.coef(k - i)` over the powers `i` from `e` up to
/// `i32::MAX`, the highest power a window can hold.
pub open spec fn tail_sum(p: &Poly, q: &Poly, e: int, k: int) -> int
    decreases i32::MAX + 1 - e,
{
    if e > i32::MAX {
        0
    } else {
        p.coef(e) * q.coef(k - e) + tail_sum(p, q, e + 1, k)
    }
}

/// The coefficient of power `k` in the product `p * q`.
pub open spec fn prod_coef(p: &Poly, q: &Poly, k: int) -> int {
    tail_sum(p, q, i32::MIN as int, k)
}

/// Each partial sum of the product, taken from the highest power of `p`
/// downwards, fits in an `i64`.
pub open spec fn prod_fits(p: &Poly, q: &Poly) -> bool {
    forall|e: int, k: int| i64::MIN <= #[trigger] tail_sum(p, q, e, k) <= i64::MAX
}

/// The window from `p.exp + q.exp` to `p.top() + q.top()` holding the
/// product's coefficients.
pub open spec fn prod_window(p: &Poly, q: &Poly) -> (Seq<i64>, i32) {
    let lo = p.exp + q.exp;
    let hi = p.top() + q.top();
    let len = if hi >= lo {
        (hi - lo + 1) as nat
    } else {
        0
    };
    (Seq::new(len, |i: int| prod_coef(p, q, hi - i) as i64), lo as i32)
}

/// What `mul` returns: the canonical form of the product.
pub open spec fn mul_view(p: &Poly, q: &Poly) -> (Seq<i64>, i32) {
    canon(prod_window(p, q))
}

/// Terms that vanish between `e` and `e1` do not change the tail sum.
pub proof fn lemma_tail_skip(p: &Poly, q: &Poly, e: int, e1: int, k: int)
    requires
        e <= e1 <= i32::MAX + 1,
        forall|j: int| e <= j < e1 ==> #[trigger] p.coef(j) * q.coef(k - j) == 0,
    ensures
        tail_sum(p, q, e, k) == tail_sum(p, q, e1, k),
    decreases e1 - e,
{
    if e < e1 {
        lemma_tail_skip(p, q, e + 1, e1, k);
    }
}

/// Equal coefficients give equal tail sums.
proof fn lemma_tail_congruent(p: &Poly, q: &Poly, p_eq: &Poly, q_eq: &Poly, e: int, k: int)
    requires
        p.same_coefs(p_eq),
        q.same_coefs(q_eq),
    ensures
        tail_sum(p, q, e, k) == tail_sum(p_eq, q_eq, e, k),
    decreases i32::MAX + 1 - e,
{
    if e <= i32::MAX {
        assert(p.coef(e) == p_eq.coef(e));
        assert(q.coef(k - e) == q_eq.coef(k - e));
        lemma_tail_congruent(p, q, p_eq, q_eq, e + 1, k);
    }
}

/// Above the top power, or below the offset, a window's coefficients vanish.
proof fn lemma_outside_window(p: &Poly)
    ensures
        forall|j: int| j > p.top() ==> #[trigger] p.coef(j) == 0,
        forall|j: int| j < p.exp ==> #[trigger] p.coef(j) == 0,
{
}

/// Outside `[p.exp + q.exp, p.top() + q.top()]` the product has no term.
pub proof fn lemma_prod_outside(p: &Poly, q: &Poly, k: int)
    requires
        k < p.exp + q.exp || k > p.top() + q.top(),
    ensures
        prod_coef(p, q, k) == 0,
{
    lemma_outside_window(p);
    lemma_outside_window(q);
    lemma_tail_skip(p, q, i32::MIN as int, i32::MAX + 1, k);
}

/// The product window holds the product's coefficient at every power.
pub proof fn lemma_prod_window(p: &Poly, q: &Poly)
    requires
        p.wf(),
        q.wf(),
        p.exp + q.exp >= i32::MIN,
        p.top() + q.top() <= i32::MAX,
        prod_fits(p, q),
    ensures
        view_wf(prod_window(p, q)),
        forall|k: int| #[trigger] view_coef(prod_window(p, q), k) == prod_coef(p, q, k),
{
    let w = prod_window(p, q);
    let hi = p.top() + q.top();
    assert forall|k: int| #[trigger] view_coef(w, k) == prod_coef(p, q, k) by {
        if p.exp + q.exp <= k <= hi {
            assert(i64::MIN <= tail_sum(p, q, i32::MIN as int, k) <= i64::MAX);
            assert(view_coef(w, k) == w.0[hi - k]);
        } else {
            lemma_prod_outside(p, q, k);
        }
    }
}

/// A canonical result with the product's coefficients is `mul_view`.
proof fn lemma_mul_view(p: &Poly, q: &Poly, r: &Poly)
    requires
        p.wf(),
        q.wf(),
        p.exp + q.exp >= i32::MIN,
        p.top() + q.top() <= i32::MAX,
        prod_fits(p, q),
        r.is_canonical(),
        forall|k: int| r.coef(k) == prod_coef(p, q, k),
    ensures
        r@ == mul_view(p, q),
{
    lemma_prod_window(p, q);
    let w = prod_window(p, q);
    lemma_canon(w);
    assert forall|k: int| view_coef(r@, k) == view_coef(canon(w), k) by {
        assert(r.coef(k) == prod_coef(p, q, k));
        assert(view_coef(canon(w), k) == view_coef(w, k));
    }
    lemma_view_unique(r@, canon(w));
}

/// For canonical non-zero `a` and `b`, the product's coefficient at
/// `a.top() + b.top()` is the product of the two leading coefficients.
pub proof fn lemma_prod_leading(a: &Poly, b: &Poly)
    requires
        a.is_canonical(),
        b.is_canonical(),
        a.coefs@.len() > 0,
        b.coefs@.len() > 0,
        a.wf(),
        b.wf(),
    ensures
        prod_coef(a, b, a.top() + b.top()) == a.coefs@[0] * b.coefs@[0],
        a.coefs@[0] * b.coefs@[0] != 0,
{
    let ta = a.top();
    let tt = a.top() + b.top();
    lemma_outside_window(a);
    lemma_outside_window(b);
    lemma_tail_skip(a, b, ta + 1, i32::MAX + 1, tt);
    lemma_tail_skip(a, b, i32::MIN as int, ta, tt);
    assert(a.coef(ta) == a.coefs@[0]);
    assert(b.coef(tt - ta) == b.coefs@[0]);
    assert(a.coefs@[0] * b.coefs@[0] != 0) by (nonlinear_arith)
        requires
            a.coefs@[0] != 0,
            b.coefs@[0] != 0,
    ;
}

impl Poly {
    /// Multiplies every coefficient by `c`; the window is kept as it is.
    pub fn mul_scalar(self, c: i64) -> (r: Poly)
        requires
            forall|i: int|
                0 <= i < self.coefs@.len() ==> i64::MIN <= #[trigger] self.coefs@[i] * c
                    <= i64::MAX,
        ensures
            r.exp == self.exp,
            r.coefs@.len() == self.coefs@.len(),
            forall|i: int| 0 <= i < r.coefs@.len() ==> r.coefs@[i] == self.coefs@[i] * c,
            forall|k: int| r.coef(k) == self.coef(k) * c,
    {
        let ghost p_in = self;
        let mut p = self;
        let n = p.coefs.len();
        let mut i: usize = 0;
        while i < n
            invariant
                n == p.coefs@.len(),
                n == p_in.coefs@.len(),
                p.exp == p_in.exp,
                i <= n,
                forall|j: int| 0 <= j < n ==> i64::MIN <= #[trigger] p_in.coefs@[j] * c <= i64::MAX,
                forall|j: int| 0 <= j < i ==> p.coefs@[j] == p_in.coefs@[j] * c,
                forall|j: int| i <= j < n ==> p.coefs@[j] == p_in.coefs@[j],
            decreases n - i,
        {
            let v = p.coefs[i] * c;
            p.coefs.set(i, v);
            i += 1;
        }
        p
    }
}

/// The convolution of two canonical non-zero windows.
fn mul_impl(a: &Poly, b: &Poly) -> (r: Poly)
    requires
        a.is_canonical(),
        b.is_canonical(),
        a.coefs@.len() > 0,
        b.coefs@.len() > 0,
        a.wf(),
        b.wf(),
        a.exp + b.exp >= i32::MIN,
        a.top() + b.top() <= i32::MAX,
        a.coefs@.len() + b.coefs@.len() <= usize::MAX,
        prod_fits(a, b),
    ensures
        r.is_canonical(),
        r.wf(),
        r.exp == a.exp + b.exp,
        r.top() == a.top() + b.top(),
        forall|k: int| r.coef(k) == prod_coef(a, b, k),
{
    let l = a.coefs.len();
    let m = b.coefs.len();
    let ghost ta = a.top();
    let ghost tt = a.top() + b.top();
    let mut c: Vec<i64> = Vec::new();
    let mut t: usize = 0;
    while t < l + m - 1
        invariant
            l == a.coefs@.len(),
            m == b.coefs@.len(),
            l >= 1,
            m >= 1,
            l + m <= usize::MAX,
            t <= l + m - 1,
            c@.len() == t,
            forall|s: int| 0 <= s < t ==> c@[s] == 0,
        decreases l + m - 1 - t,
    {
        c.push(0);
        t += 1;
    }
    proof {
        lemma_outside_window(a);
        assert forall|s: int| 0 <= s < l + m - 1 implies c@[s] == tail_sum(a, b, ta + 1, tt - s) by {
            lemma_tail_skip(a, b, ta + 1, i32::MAX + 1, tt - s);
        }
    }
    let mut i: usize = 0;
    while i < l
        invariant
            l == a.coefs@.len(),
            m == b.coefs@.len(),
            ta == a.top(),
            tt == a.top() + b.top(),
            l + m <= usize::MAX,
            i <= l,
            c@.len() == l + m - 1,
            a.wf(),
            b.wf(),
            prod_fits(a, b),
            forall|s: int| 0 <= s < l + m - 1 ==> c@[s] == tail_sum(a, b, ta + 1 - i, tt - s),
        decreases l - i,
    {
        let mut j: usize = 0;
        while j < m
            invariant
                l == a.coefs@.len(),
                m == b.coefs@.len(),
                ta == a.top(),
                tt == a.top() + b.top(),
                l + m <= usize::MAX,
                i < l,
                j <= m,
                c@.len() == l + m - 1,
                a.wf(),
                b.wf(),
                prod_fits(a, b),
                forall|s: int|
                    0 <= s < l + m - 1 ==> c@[s] == if i <= s < i + j {
                        tail_sum(a, b, ta - i, tt - s)
                    } else {
                        tail_sum(a, b, ta + 1 - i, tt - s)
                    },
            decreases m - j,
        {
            let ghost s = (i + j) as int;
            proof {
                assert(a.coef(ta - i) == a.coefs@[i as int]);
                assert(b.coef(tt - s - (ta - i)) == b.coefs@[j as int]);
                assert(tail_sum(a, b, ta - i, tt - s) == a.coefs@[i as int] * b.coefs@[j as int]
                    + tail_sum(a, b, ta + 1 - i, tt - s));
                assert(i64::MIN <= tail_sum(a, b, ta - i, tt - s) <= i64::MAX);
            }
            let v = (c[i + j] as i128 + (a.coefs[i] as i128) * (b.coefs[j] as i128)) as i64;
            c.set(i + j, v);
            j += 1;
        }
        proof {
            lemma_outside_window(b);
            assert forall|s: int| 0 <= s < l + m - 1 implies c@[s] == tail_sum(
                a,
                b,
                ta + 1 - (i + 1),
                tt - s,
            ) by {
                if !(i <= s < i + m) {
                    let kk = tt - s;
                    assert(b.coef(kk - (ta - i)) == 0);
                }
            }
        }
        i += 1;
    }
    let r = Poly { coefs: c, exp: a.exp + b.exp };
    proof {
        lemma_outside_window(a);
        lemma_outside_window(b);
        assert(r.top() == tt);
        assert forall|k: int| r.coef(k) == prod_coef(a, b, k) by {
            lemma_tail_skip(a, b, i32::MIN as int, a.exp as int, k);
            if r.exp <= k <= tt {
                assert(r.coef(k) == c@[tt - k]);
            } else {
                lemma_tail_skip(a, b, a.exp as int, i32::MAX + 1, k);
            }
        }
        assert(r.coefs@[0] == a.coefs@[0] * b.coefs@[0]) by {
            lemma_tail_skip(a, b, ta + 1, i32::MAX + 1, tt);
            lemma_tail_skip(a, b, a.exp as int, ta, tt);
        }
        assert(r.coefs@.last() == a.coefs@.last() * b.coefs@.last()) by {
            lemma_tail_skip(a, b, a.exp as int + 1, i32::MAX + 1, r.exp as int);
        }
        assert(a.coefs@[0] * b.coefs@[0] != 0) by (nonlinear_arith)
            requires a.coefs@[0] != 0, b.coefs@[0] != 0;
        assert(a.coefs@.last() * b.coefs@.last() != 0) by (nonlinear_arith)
            requires a.coefs@.last() != 0, b.coefs@.last() != 0;
    }
    r
}

impl Poly {
    /// `self * rhs`: both operands are reduced, a zero operand gives the zero
    /// polynomial, otherwise the windows are convolved.
    pub fn mul(self, rhs: Poly) -> (r: Poly)
        requires
            self.wf(),
            rhs.wf(),
            self.exp + rhs.exp >= i32::MIN,
            self.top() + rhs.top() <= i32::MAX,
            self.coefs@.len() + rhs.coefs@.len() <= usize::MAX,
            prod_fits(&self, &rhs),
        ensures
            r.is_canonical(),
            r.wf(),
            forall|k: int| r.coef(k) == prod_coef(&self, &rhs, k),
            self.all_zero() || rhs.all_zero() ==> r@ == (Seq::<i64>::empty(), 1i32),
            r@ == mul_view(&self, &rhs),
    {
        let ghost p_in = self;
        let ghost q_in = rhs;
        let mut a = self;
        let mut b = rhs;
        a.reduce();
        b.reduce();
        proof {
            assert forall|e: int, k: int| #[trigger] tail_sum(&a, &b, e, k) == tail_sum(&p_in, &q_in, e, k)
                by {
                lemma_tail_congruent(&a, &b, &p_in, &q_in, e, k);
            }
            lemma_outside_window(&a);
            lemma_outside_window(&b);
        }
        if a.coefs.len() == 0 || b.coefs.len() == 0 {
            let r = Poly::zero();
            proof {
                assert forall|k: int| r.coef(k) == prod_coef(&p_in, &q_in, k) by {
                    lemma_tail_skip(&a, &b, i32::MIN as int, i32::MAX + 1, k);
                }
                lemma_mul_view(&p_in, &q_in, &r);
            }
            r
        } else {
            let r = mul_impl(&a, &b);
            proof {
                assert forall|k: int| r.coef(k) == prod_coef(&p_in, &q_in, k) by {
                    assert(tail_sum(&a, &b, i32::MIN as int, k) == tail_sum(&p_in, &q_in, i32::MIN as int, k));
                }
                lemma_mul_view(&p_in, &q_in, &r);
                if p_in.all_zero() {
                    assert(p_in.coef(a.exp as int) == 0) by {
                        let n = p_in.coefs@.len() as int;
                        if p_in.exp <= a.exp < p_in.exp + n {
                            assert(p_in.coefs@[n - 1 - (a.exp - p_in.exp)] == 0);
                        }
                    }
                    assert(a.coef(a.exp as int) == a.coefs@.last());
                }
                if q_in.all_zero() {
                    assert(q_in.coef(b.exp as int) == 0) by {
                        let n = q_in.coefs@.len() as int;
                        if q_in.exp <= b.exp < q_in.exp + n {
                            assert(q_in.coefs@[n - 1 - (b.exp - q_in.exp)] == 0);
                        }
                    }
                    assert(b.coef(b.exp as int) == b.coefs@.last());
                }
            }
            r
        }
    }
}

} // verus!
