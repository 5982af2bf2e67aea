//! Differentiation by the power rule.

use vstd::prelude::*;
use crate::Poly;

verus! {

/// Types that can be differentiated with respect to their variable.
pub trait Differentiate: Sized {
    type Output;

    /// The input lies in the domain where the derivative can be computed.
    spec fn can_diff(&self) -> bool;

    /// `r` is the derivative of `self`.
    spec fn is_derivative(&self, r: &Self::Output) -> bool;

    fn diff(self) -> (r: Self::Output)
        requires
            self.can_diff(),
        ensures
            self.is_derivative(&r),
    ;
}

impl Differentiate for Poly {
    type Output = Poly;

    /// The offset can drop by one and every `k * coef(k)` fits in an `i64`.
    open spec fn can_diff(&self) -> bool {
        &&& self.wf()
        &&& self.exp > i32::MIN
        &&& forall|k: int| i64::MIN <= #[trigger] (k * self.coef(k)) <= i64::MAX
    }

    /// `r` is canonical and its coefficient of power `k` is
    /// `(k + 1) * self.coef(k + 1)`.
    open spec fn is_derivative(&self, r: &Poly) -> bool {
        &&& r.is_canonical()
        &&& r.wf()
        &&& forall|k: int| r.coef(k) == (k + 1) * self.coef(k + 1)
    }

    /// Multiplies each coefficient by its power, lowers every power by one,
    /// and reduces.
    fn diff(self) -> (r: Poly) {
        let ghost p_in = self;
        let mut p = self;
        let n = p.coefs.len();
        assert(n <= i32::MAX - i32::MIN + 1);
        let d: i64 = n as i64 + p.exp as i64 - 1;
        let mut i: usize = 0;
        while i < n
            invariant
                n == p.coefs@.len(),
                n == p_in.coefs@.len(),
                p.exp == p_in.exp,
                d == p_in.top(),
                p_in.can_diff(),
                i <= n,
                forall|j: int| 0 <= j < i ==> p.coefs@[j] == p_in.coefs@[j] * (d - j),
                forall|j: int| i <= j < n ==> p.coefs@[j] == p_in.coefs@[j],
            decreases n - i,
        {
            proof {
                let pw = d - i;
                assert(p_in.coef(pw) == p_in.coefs@[i as int]);
                assert(i64::MIN <= pw * p_in.coef(pw) <= i64::MAX);
                let c = p_in.coefs@[i as int] as int;
                assert(pw * p_in.coef(pw) == c * (d - i)) by (nonlinear_arith)
                    requires
                        pw == d - i,
                        p_in.coef(pw) == c,
                ;
            }
            let v = p.coefs[i] * (d - i as i64);
            p.coefs.set(i, v);
            i += 1;
        }
        p.exp = p.exp - 1;
        proof {
            assert forall|k: int| p.coef(k) == (k + 1) * p_in.coef(k + 1) by {
                if p.exp <= k < p.exp + n {
                    let j = n - 1 - (k - p.exp);
                    assert(p.coef(k) == p.coefs@[j]);
                    assert(p_in.coef(k + 1) == p_in.coefs@[j]);
                    assert(d - j == k + 1);
                    let c = p_in.coefs@[j] as int;
                    assert(c * (d - j) == (k + 1) * c) by (nonlinear_arith)
                        requires
                            d - j == k + 1,
                    ;
                }
            }
        }
        p.reduce();
        p
    }
}

impl<'a> Differentiate for &'a Poly {
    type Output = Poly;

    open spec fn can_diff(&self) -> bool {
        <Poly as Differentiate>::can_diff(*self)
    }

    open spec fn is_derivative(&self, r: &Poly) -> bool {
        <Poly as Differentiate>::is_derivative(*self, r)
    }

    /// Differentiates a copy.
    fn diff(self) -> (r: Poly) {
        let c = self.duplicate();
        assert(c.can_diff()) by {
            assert forall|k: int| #[trigger] (k * c.coef(k)) == k * self.coef(k) by {}
        }
        let r = c.diff();
        assert(<Poly as Differentiate>::is_derivative(self, &r)) by {
            assert forall|k: int| r.coef(k) == (k + 1) * self.coef(k + 1) by {
                assert(c.coef(k + 1) == self.coef(k + 1));
            }
        }
        r
    }
}

} // verus!
