//! Addition and subtraction: align the two windows on their lowest power,
//! combine index-wise, then trim.

use vstd::prelude::*;
use crate::canon::{canon, lemma_canon, lemma_view_unique};
use crate::{view_all_zero, view_canonical, view_coef, view_top, view_wf, Poly};

verus! {

/// `v`, or `-v` when `neg` holds.
pub open spec fn signed(v: int, neg: bool) -> int {
    if neg {
        -v
    } else {
        v
    }
}

/// Every power's combined coefficient `±p ± q` fits in an `i64`.
pub open spec fn sum_fits(p: &Poly, q: &Poly, neg_p: bool, neg_q: bool) -> bool {
    forall|k: int|
        i64::MIN <= #[trigger] signed(p.coef(k), neg_p) + signed(q.coef(k), neg_q) <= i64::MAX
}

/// Every power's coefficient `p ± q` of two windows fits in an `i64`.
pub open spec fn view_sum_fits(p: (Seq<i64>, i32), q: (Seq<i64>, i32), neg_q: bool) -> bool {
    forall|k: int|
        i64::MIN <= #[trigger] view_coef(p, k) + signed(view_coef(q, k), neg_q) <= i64::MAX
}

/// The window from the lower offset to the higher top of `p` and `q`,
/// holding `p.coef(k) ± q.coef(k)` at each power `k`.
pub open spec fn combined(p: (Seq<i64>, i32), q: (Seq<i64>, i32), neg_q: bool) -> (
    Seq<i64>,
    i32,
) {
    let lo = if p.1 < q.1 {
        p.1
    } else {
        q.1
    };
    let hi = if view_top(p) > view_top(q) {
        view_top(p)
    } else {
        view_top(q)
    };
    let len = if hi >= lo {
        (hi - lo + 1) as nat
    } else {
        0
    };
    (
        Seq::new(len, |i: int| (view_coef(p, hi - i) + signed(view_coef(q, hi - i), neg_q)) as i64),
        lo,
    )
}

/// What `add` returns: a zero operand gives the other one back unchanged,
/// otherwise the canonical form of the sum.
pub open spec fn add_view(p: (Seq<i64>, i32), q: (Seq<i64>, i32)) -> (Seq<i64>, i32) {
    if view_all_zero(q) {
        p
    } else if view_all_zero(p) {
        q
    } else {
        canon(combined(p, q, false))
    }
}

/// What `sub` returns: a zero `q` gives `p` back unchanged, otherwise the
/// canonical form of the difference.
pub open spec fn sub_view(p: (Seq<i64>, i32), q: (Seq<i64>, i32)) -> (Seq<i64>, i32) {
    if view_all_zero(q) {
        p
    } else {
        canon(combined(p, q, true))
    }
}

/// The combined window holds `p ± q` at every power.
pub proof fn lemma_combined(p: (Seq<i64>, i32), q: (Seq<i64>, i32), neg_q: bool)
    requires
        view_wf(p),
        view_wf(q),
        view_sum_fits(p, q, neg_q),
    ensures
        view_wf(combined(p, q, neg_q)),
        forall|k: int| #[trigger]
            view_coef(combined(p, q, neg_q), k) == view_coef(p, k) + signed(view_coef(q, k), neg_q),
{
    let c = combined(p, q, neg_q);
    let lo = c.1 as int;
    let hi = if view_top(p) > view_top(q) {
        view_top(p)
    } else {
        view_top(q)
    };
    assert forall|k: int| #[trigger]
        view_coef(c, k) == view_coef(p, k) + signed(view_coef(q, k), neg_q) by {
        if lo <= k <= hi {
            assert(i64::MIN <= view_coef(p, k) + signed(view_coef(q, k), neg_q) <= i64::MAX);
            assert(view_coef(c, k) == c.0[hi - k]);
        }
    }
}

/// A canonical result with the coefficients of `p ± q` is the canonical form
/// of the combined window.
proof fn lemma_merge_view(p: &Poly, q: &Poly, neg_q: bool, r: &Poly)
    requires
        p.wf(),
        q.wf(),
        sum_fits(p, q, false, neg_q),
        r.is_canonical(),
        forall|k: int| r.coef(k) == p.coef(k) + signed(q.coef(k), neg_q),
    ensures
        r@ == canon(combined(p@, q@, neg_q)),
{
    assert forall|k: int|
        i64::MIN <= #[trigger] view_coef(p@, k) + signed(view_coef(q@, k), neg_q) <= i64::MAX by {
        assert(i64::MIN <= signed(p.coef(k), false) + signed(q.coef(k), neg_q) <= i64::MAX);
    }
    lemma_combined(p@, q@, neg_q);
    let c = combined(p@, q@, neg_q);
    lemma_canon(c);
    assert forall|k: int| view_coef(r@, k) == view_coef(canon(c), k) by {
        assert(r.coef(k) == p.coef(k) + signed(q.coef(k), neg_q));
        assert(view_coef(canon(c), k) == view_coef(c, k));
    }
    lemma_view_unique(r@, canon(c));
}

/// Combines `big` and `small`, which share their offset and where `small`'s
/// window is no longer than `big`'s: the result is `±big ± small`, reduced.
fn fold_in(big: Poly, small: &Poly, neg_big: bool, neg_small: bool) -> (r: Poly)
    requires
        big.exp == small.exp,
        small.coefs@.len() <= big.coefs@.len(),
        big.wf(),
        !(neg_big && neg_small),
        sum_fits(&big, small, neg_big, neg_small),
    ensures
        r.is_canonical(),
        r.wf(),
        forall|k: int| r.coef(k) == signed(big.coef(k), neg_big) + signed(small.coef(k), neg_small),
{
    let ghost b0 = big;
    let mut b = big;
    let n = b.coefs.len();
    let m = small.coefs.len();
    let k = n - m;
    let mut i: usize = 0;
    while i < n
        invariant
            n == b.coefs@.len(),
            n == b0.coefs@.len(),
            m == small.coefs@.len(),
            k == n - m,
            i <= n,
            b.exp == b0.exp,
            b0.exp == small.exp,
            !(neg_big && neg_small),
            sum_fits(&b0, small, neg_big, neg_small),
            forall|j: int|
                0 <= j < i ==> b.coefs@[j] == signed(b0.coefs@[j] as int, neg_big) + (if j >= k {
                    signed(small.coefs@[j - k] as int, neg_small)
                } else {
                    0
                }),
            forall|j: int| i <= j < n ==> b.coefs@[j] == b0.coefs@[j],
        decreases n - i,
    {
        let ghost pw = b0.top() - i;
        assert(b0.coef(pw) == b0.coefs@[i as int]);
        if i >= k {
            assert(small.coef(pw) == small.coefs@[i - k]);
        } else {
            assert(small.coef(pw) == 0);
        }
        assert(i64::MIN <= signed(b0.coef(pw), neg_big) + signed(small.coef(pw), neg_small)
            <= i64::MAX);
        let v: i64 = if i < k {
            if neg_big {
                -b.coefs[i]
            } else {
                b.coefs[i]
            }
        } else if neg_big {
            small.coefs[i - k] - b.coefs[i]
        } else if neg_small {
            b.coefs[i] - small.coefs[i - k]
        } else {
            b.coefs[i] + small.coefs[i - k]
        };
        b.coefs.set(i, v);
        i += 1;
    }
    let ghost mid = b;
    assert forall|pw: int|
        mid.coef(pw) == signed(b0.coef(pw), neg_big) + signed(small.coef(pw), neg_small) by {
        if b0.exp <= pw < b0.exp + n {
            let j = n - 1 - (pw - b0.exp);
            if j >= k {
                assert(small.coef(pw) == small.coefs@[j - k]);
            }
        }
    }
    b.reduce();
    b
}

/// `±p ± q` for any two polynomials (at most one side negated), reduced.
fn merge(p: Poly, q: Poly, neg_q: bool) -> (r: Poly)
    requires
        p.wf(),
        q.wf(),
        p.joint_fits(&q),
        sum_fits(&p, &q, false, neg_q),
    ensures
        r.is_canonical(),
        r.wf(),
        forall|k: int| r.coef(k) == p.coef(k) + signed(q.coef(k), neg_q),
{
    let ghost p_in = p;
    let ghost q_in = q;
    let mut a = p;
    let mut b = q;
    a.normalise_with(&mut b);
    if a.coefs.len() >= b.coefs.len() {
        assert(sum_fits(&a, &b, false, neg_q)) by {
            assert forall|k: int| #[trigger] signed(a.coef(k), false) == signed(p_in.coef(k), false)
                && signed(b.coef(k), neg_q) == signed(q_in.coef(k), neg_q) by {}
        }
        fold_in(a, &b, false, neg_q)
    } else {
        assert(sum_fits(&b, &a, neg_q, false)) by {
            assert forall|k: int| #[trigger] signed(b.coef(k), neg_q) == signed(q_in.coef(k), neg_q)
                && signed(a.coef(k), false) == signed(p_in.coef(k), false) by {}
            assert forall|k: int|
                i64::MIN <= #[trigger] signed(b.coef(k), neg_q) + signed(a.coef(k), false)
                    <= i64::MAX by {
                assert(i64::MIN <= signed(p_in.coef(k), false) + signed(q_in.coef(k), neg_q)
                    <= i64::MAX);
            }
        }
        fold_in(b, &a, neg_q, false)
    }
}

impl Poly {
    /// `self + rhs`. A zero operand (every coefficient zero) gives the other
    /// operand back unchanged; otherwise the sum is reduced.
    pub fn add(self, rhs: Poly) -> (r: Poly)
        requires
            self.wf(),
            rhs.wf(),
            self.joint_fits(&rhs),
            sum_fits(&self, &rhs, false, false),
        ensures
            forall|k: int| r.coef(k) == self.coef(k) + rhs.coef(k),
            rhs.all_zero() ==> r@ == self@,
            !rhs.all_zero() && self.all_zero() ==> r@ == rhs@,
            !rhs.all_zero() && !self.all_zero() ==> r.is_canonical(),
            self.is_canonical() && rhs.is_canonical() ==> r.is_canonical(),
            r.wf(),
            r@ == add_view(self@, rhs@),
    {
        if rhs.is_zero() {
            proof { lemma_all_zero_coef(&rhs); }
            self
        } else if self.is_zero() {
            proof { lemma_all_zero_coef(&self); }
            rhs
        } else {
            let ghost p_in = self;
            let ghost q_in = rhs;
            let r = merge(self, rhs, false);
            proof { lemma_merge_view(&p_in, &q_in, false, &r); }
            r
        }
    }

    /// `self - rhs`. A zero `rhs` gives `self` back unchanged; otherwise the
    /// difference is reduced.
    pub fn sub(self, rhs: Poly) -> (r: Poly)
        requires
            self.wf(),
            rhs.wf(),
            self.joint_fits(&rhs),
            sum_fits(&self, &rhs, false, true),
        ensures
            forall|k: int| r.coef(k) == self.coef(k) - rhs.coef(k),
            rhs.all_zero() ==> r@ == self@,
            !rhs.all_zero() ==> r.is_canonical(),
            self.is_canonical() && rhs.is_canonical() ==> r.is_canonical(),
            r.wf(),
            r@ == sub_view(self@, rhs@),
    {
        if rhs.is_zero() {
            proof { lemma_all_zero_coef(&rhs); }
            self
        } else {
            let ghost p_in = self;
            let ghost q_in = rhs;
            let r = merge(self, rhs, true);
            proof { lemma_merge_view(&p_in, &q_in, true, &r); }
            r
        }
    }
}

/// A window of zeros gives every power the coefficient 0; a canonical one is
/// the empty window with offset 1.
pub proof fn lemma_view_all_zero(v: (Seq<i64>, i32))
    requires
        view_all_zero(v),
    ensures
        forall|k: int| #[trigger] view_coef(v, k) == 0,
        view_canonical(v) ==> v == (Seq::<i64>::empty(), 1i32),
{
    assert forall|k: int| #[trigger] view_coef(v, k) == 0 by {
        let n = v.0.len() as int;
        if v.1 <= k < v.1 + n {
            assert(v.0[n - 1 - (k - v.1)] == 0);
        }
    }
    if view_canonical(v) && v.0.len() > 0 {
        assert(v.0[0] == 0);
    }
    if view_canonical(v) {
        assert(v.0 =~= Seq::<i64>::empty());
    }
}

/// The sum of two windows holds `u + v` at every power, and is canonical
/// when both are.
pub proof fn lemma_add_view(u: (Seq<i64>, i32), v: (Seq<i64>, i32))
    requires
        view_wf(u),
        view_wf(v),
        view_sum_fits(u, v, false),
    ensures
        view_canonical(u) && view_canonical(v) ==> view_canonical(add_view(u, v)),
        view_wf(add_view(u, v)),
        forall|k: int| #[trigger] view_coef(add_view(u, v), k) == view_coef(u, k) + view_coef(v, k),
{
    if view_all_zero(v) {
        lemma_view_all_zero(v);
    } else if view_all_zero(u) {
        lemma_view_all_zero(u);
    } else {
        lemma_combined(u, v, false);
        lemma_canon(combined(u, v, false));
        assert forall|k: int| #[trigger]
            view_coef(add_view(u, v), k) == view_coef(u, k) + view_coef(v, k) by {
            assert(view_coef(canon(combined(u, v, false)), k) == view_coef(combined(u, v, false), k));
        }
    }
}

/// A window of zeros gives every power the coefficient 0; a canonical one is
/// the zero polynomial.
pub proof fn lemma_all_zero_coef(p: &Poly)
    requires
        p.all_zero(),
    ensures
        forall|k: int| p.coef(k) == 0,
        p.is_canonical() ==> p@ == (Seq::<i64>::empty(), 1i32),
{
    assert forall|k: int| p.coef(k) == 0 by {
        let n = p.coefs@.len() as int;
        assert(p@.0 == p.coefs@);
        if p.exp <= k < p.exp + n {
            assert(p.coefs@[n - 1 - (k - p.exp)] == 0);
        }
    }
    if p.is_canonical() && p.coefs@.len() > 0 {
        assert(p.coefs@[0] == 0);
    }
}

} // verus!
