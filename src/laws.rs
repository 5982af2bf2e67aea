//! Algebraic laws of the operations, stated over the values they return.

use vstd::prelude::*;
use crate::add::{add_view, combined, lemma_add_view, lemma_view_all_zero, view_sum_fits};
use crate::canon::{canon, lemma_canon, lemma_last_nz, lemma_view_unique};
use crate::mul::{
    lemma_prod_leading, lemma_prod_outside, lemma_prod_window, lemma_tail_skip, mul_view,
    prod_coef, prod_fits, prod_window,
};
use crate::{view_all_zero, view_canonical, view_coef, view_top, Poly};

verus! {

/// Addition is commutative on canonical polynomials, and their sum is
/// canonical.
pub proof fn law_add_commutative(p: Poly, q: Poly)
    requires
        p.wf(),
        q.wf(),
        p.is_canonical(),
        q.is_canonical(),
        view_sum_fits(p@, q@, false),
    ensures
        add_view(p@, q@) == add_view(q@, p@),
        view_canonical(add_view(p@, q@)),
{
    lemma_add_view(p@, q@);
    if view_all_zero(q@) {
        lemma_view_all_zero(q@);
        if view_all_zero(p@) {
            lemma_view_all_zero(p@);
        }
    } else if view_all_zero(p@) {
    } else {
        assert(combined(p@, q@, false).0 =~= combined(q@, p@, false).0);
        assert(combined(p@, q@, false) == combined(q@, p@, false));
    }
}

/// Adding the zero polynomial gives the polynomial back unchanged, and
/// multiplying by it gives the zero polynomial.
pub proof fn law_zero(p: Poly, z: Poly)
    requires
        p.wf(),
        z@ == (Seq::<i64>::empty(), 1i32),
    ensures
        add_view(p@, z@) == p@,
        mul_view(&p, &z) == z@,
{
    assert(view_all_zero(z@));
    let w = prod_window(&p, &z);
    assert forall|k: int| prod_coef(&p, &z, k) == 0 by {
        lemma_tail_skip(&p, &z, i32::MIN as int, i32::MAX + 1, k);
    }
    let n = w.0.len() as int;
    lemma_last_nz(w.0, n - 1);
    if crate::canon::last_nz(w.0, n - 1) >= 0 {
        let l = crate::canon::last_nz(w.0, n - 1);
        assert(w.0[l] == 0);
    }
    assert(canon(w).0 =~= Seq::<i64>::empty());
}

/// Addition is associative up to canonical form, and exactly on canonical
/// polynomials.
pub proof fn law_add_associative(p: Poly, q: Poly, r: Poly)
    requires
        p.wf(),
        q.wf(),
        r.wf(),
        view_sum_fits(p@, q@, false),
        view_sum_fits(q@, r@, false),
        forall|k: int| i64::MIN <= #[trigger] p.coef(k) + q.coef(k) + r.coef(k) <= i64::MAX,
    ensures
        canon(add_view(add_view(p@, q@), r@)) == canon(add_view(p@, add_view(q@, r@))),
        p.is_canonical() && q.is_canonical() && r.is_canonical() ==> add_view(add_view(p@, q@), r@)
            == add_view(p@, add_view(q@, r@)),
{
    lemma_add_view(p@, q@);
    lemma_add_view(q@, r@);
    let pq = add_view(p@, q@);
    let qr = add_view(q@, r@);
    assert forall|k: int| i64::MIN <= #[trigger] view_coef(pq, k) + view_coef(r@, k) <= i64::MAX by {
        assert(i64::MIN <= p.coef(k) + q.coef(k) + r.coef(k) <= i64::MAX);
    }
    assert forall|k: int| i64::MIN <= #[trigger] view_coef(p@, k) + view_coef(qr, k) <= i64::MAX by {
        assert(i64::MIN <= p.coef(k) + q.coef(k) + r.coef(k) <= i64::MAX);
    }
    lemma_add_view(pq, r@);
    lemma_add_view(p@, qr);
    let left = add_view(pq, r@);
    let right = add_view(p@, qr);
    assert forall|k: int| view_coef(left, k) == view_coef(right, k) by {
        assert(view_coef(left, k) == view_coef(pq, k) + view_coef(r@, k));
        assert(view_coef(right, k) == view_coef(p@, k) + view_coef(qr, k));
    }
    lemma_canon(left);
    lemma_canon(right);
    assert forall|k: int| view_coef(canon(left), k) == view_coef(canon(right), k) by {
        assert(view_coef(canon(left), k) == view_coef(left, k));
        assert(view_coef(canon(right), k) == view_coef(right, k));
    }
    lemma_view_unique(canon(left), canon(right));
    if p.is_canonical() && q.is_canonical() && r.is_canonical() {
        lemma_view_unique(left, right);
    }
}

/// The degree of a product of two non-zero canonical polynomials is the sum
/// of their degrees.
pub proof fn law_mul_degree(p: Poly, q: Poly)
    requires
        p.wf(),
        q.wf(),
        p.is_canonical(),
        q.is_canonical(),
        p.coefs@.len() > 0,
        q.coefs@.len() > 0,
        p.exp + q.exp >= i32::MIN,
        p.top() + q.top() <= i32::MAX,
        prod_fits(&p, &q),
    ensures
        view_top(mul_view(&p, &q)) == p.top() + q.top(),
{
    let t = p.top() + q.top();
    let w = prod_window(&p, &q);
    lemma_prod_window(&p, &q);
    lemma_canon(w);
    lemma_prod_leading(&p, &q);
    let c = canon(w);
    assert(view_coef(c, t) == view_coef(w, t));
    assert(view_coef(c, t) != 0);
    if c.0.len() > 0 {
        let tc = view_top(c);
        assert(view_coef(c, tc) == c.0[0]);
        if tc > t {
            lemma_prod_outside(&p, &q, tc);
            assert(view_coef(c, tc) == view_coef(w, tc));
        }
    }
}

} // verus!
