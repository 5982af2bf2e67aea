//! Evaluation at a point, walking the window from its lowest power upwards.

use vstd::prelude::*;
use crate::Poly;

verus! {

/// `x` to the power `e`.
pub open spec fn power(x: int, e: nat) -> int
    decreases e,
{
    if e == 0 {
        1
    } else {
        x * power(x, (e - 1) as nat)
    }
}

/// `sum of p.coef(e) * x^e` over the powers `e` from `p.exp` up to `j - 1`.
pub open spec fn eval_upto(p: &Poly, x: int, j: int) -> int
    decreases j - p.exp,
{
    if j <= p.exp {
        0
    } else {
        eval_upto(p, x, j - 1) + p.coef(j - 1) * power(x, (j - 1) as nat)
    }
}

/// The value of `p` at `x`.
pub open spec fn value(p: &Poly, x: int) -> int {
    eval_upto(p, x, p.top() + 1)
}

/// Every power of `x` up to the top of the window, and every partial sum
/// from the lowest power upwards, fits in an `i64`.
pub open spec fn eval_fits(p: &Poly, x: int) -> bool {
    &&& forall|j: int| 0 <= j <= p.top() ==> i64::MIN <= #[trigger] power(x, j as nat) <= i64::MAX
    &&& forall|j: int|
        p.exp <= j <= p.top() + 1 ==> i64::MIN <= #[trigger] eval_upto(p, x, j) <= i64::MAX
}

impl Poly {
    /// The value of the polynomial at `x`. Only powers from 0 up have an
    /// integer value, so the offset must not be negative.
    pub fn evaluate(&self, x: i64) -> (r: i64)
        requires
            self.wf(),
            self.exp >= 0,
            eval_fits(self, x as int),
        ensures
            r == value(self, x as int),
    {
        let n = self.coefs.len();
        if n == 0 {
            return 0;
        }
        let mut y: i64 = 1;
        let mut e: i32 = 0;
        while e < self.exp
            invariant
                0 <= e <= self.exp,
                n == self.coefs@.len(),
                n > 0,
                self.wf(),
                self.exp >= 0,
                eval_fits(self, x as int),
                y == power(x as int, e as nat),
            decreases self.exp - e,
        {
            assert(power(x as int, (e + 1) as nat) == x * power(x as int, e as nat));
            assert(i64::MIN <= power(x as int, (e + 1) as nat) <= i64::MAX);
            y = x * y;
            e += 1;
        }
        let mut total: i64 = 0;
        let mut i: usize = n;
        while i > 0
            invariant
                n == self.coefs@.len(),
                i <= n,
                self.wf(),
                self.exp >= 0,
                eval_fits(self, x as int),
                i > 0 ==> y == power(x as int, (self.exp + n - i) as nat),
                total == eval_upto(self, x as int, self.exp + n - i),
            decreases i,
        {
            let ghost j = self.exp + n - i;
            assert(self.coef(j) == self.coefs@[i - 1]);
            assert(i64::MIN <= eval_upto(self, x as int, j + 1) <= i64::MAX);
            total = (total as i128 + (self.coefs[i - 1] as i128) * (y as i128)) as i64;
            if i > 1 {
                assert(power(x as int, (j + 1) as nat) == x * power(x as int, j as nat));
                assert(i64::MIN <= power(x as int, (j + 1) as nat) <= i64::MAX);
                y = x * y;
            }
            i -= 1;
        }
        total
    }
}

} // verus!
