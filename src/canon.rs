//! Canonical form: trimming zero coefficients at both ends of the window,
//! and aligning two windows on a common lowest power.

use vstd::prelude::*;
use crate::{view_canonical, view_coef, view_top, view_wf, Poly};

verus! {

/// The index of the first non-zero entry of `s` at or after `i`, or `s.len()`.
pub open spec fn first_nz(s: Seq<i64>, i: int) -> int
    decreases s.len() - i,
{
    if i < 0 || i >= s.len() {
        s.len() as int
    } else if s[i] != 0 {
        i
    } else {
        first_nz(s, i + 1)
    }
}

/// The index of the last non-zero entry of `s` at or before `j`, or -1.
pub open spec fn last_nz(s: Seq<i64>, j: int) -> int
    decreases j + 1,
{
    if j < 0 || j >= s.len() {
        -1
    } else if s[j] != 0 {
        j
    } else {
        last_nz(s, j - 1)
    }
}

/// The canonical form of a window: zeros trimmed from both ends, the offset
/// raised by the zeros trimmed at the low end; a window of zeros becomes the
/// empty window with offset 1.
pub open spec fn canon(v: (Seq<i64>, i32)) -> (Seq<i64>, i32) {
    let n = v.0.len() as int;
    let l = last_nz(v.0, n - 1);
    if l < 0 {
        (Seq::empty(), 1i32)
    } else {
        (v.0.subrange(first_nz(v.0, 0), l + 1), (v.1 + (n - 1 - l)) as i32)
    }
}

proof fn lemma_first_nz(s: Seq<i64>, i: int)
    requires
        0 <= i <= s.len(),
    ensures
        i <= first_nz(s, i) <= s.len(),
        forall|j: int| i <= j < first_nz(s, i) ==> s[j] == 0,
        first_nz(s, i) < s.len() ==> s[first_nz(s, i)] != 0,
    decreases s.len() - i,
{
    if i < s.len() && s[i] == 0 {
        lemma_first_nz(s, i + 1);
    }
}

pub proof fn lemma_last_nz(s: Seq<i64>, j: int)
    requires
        -1 <= j < s.len(),
    ensures
        -1 <= last_nz(s, j) <= j,
        forall|t: int| last_nz(s, j) < t <= j ==> s[t] == 0,
        last_nz(s, j) >= 0 ==> s[last_nz(s, j)] != 0,
    decreases j + 1,
{
    if j >= 0 && s[j] == 0 {
        lemma_last_nz(s, j - 1);
    }
}

/// `canon(v)` is canonical, gives every power the coefficient `v` gives it,
/// and lies inside `v`'s window unless it is zero.
pub proof fn lemma_canon(v: (Seq<i64>, i32))
    requires
        view_wf(v),
    ensures
        view_canonical(canon(v)),
        view_wf(canon(v)),
        forall|k: int| #[trigger] view_coef(canon(v), k) == view_coef(v, k),
        canon(v).0.len() > 0 ==> canon(v).1 >= v.1 && view_top(canon(v)) <= view_top(v),
        view_canonical(v) ==> canon(v) == v,
{
    let s = v.0;
    let n = s.len() as int;
    lemma_last_nz(s, n - 1);
    lemma_first_nz(s, 0);
    let l = last_nz(s, n - 1);
    let f = first_nz(s, 0);
    let c = canon(v);
    if l < 0 {
        assert forall|k: int| #[trigger] view_coef(c, k) == view_coef(v, k) by {
            if v.1 <= k < v.1 + n {
                assert(s[n - 1 - (k - v.1)] == 0);
            }
        }
        if view_canonical(v) && n > 0 {
            assert(s[n - 1] == 0);
        }
    } else {
        assert(f <= l);
        let e = v.1 + (n - 1 - l);
        assert(c.1 == e);
        assert forall|k: int| #[trigger] view_coef(c, k) == view_coef(v, k) by {
            if e <= k < e + (l + 1 - f) {
                assert(c.0[l - f - (k - e)] == s[n - 1 - (k - v.1)]);
            } else if v.1 <= k < v.1 + n {
                let idx = n - 1 - (k - v.1);
                if idx > l {
                    assert(s[idx] == 0);
                } else {
                    assert(s[idx] == 0);
                }
            }
        }
        if view_canonical(v) {
            assert(l == n - 1);
            assert(f == 0);
            assert(c.0 =~= s);
        }
    }
}

/// Two canonical windows that give every power the same coefficient are equal.
pub proof fn lemma_view_unique(u: (Seq<i64>, i32), v: (Seq<i64>, i32))
    requires
        view_canonical(u),
        view_canonical(v),
        forall|k: int| view_coef(u, k) == view_coef(v, k),
    ensures
        u == v,
{
    let n = u.0.len() as int;
    let m = v.0.len() as int;
    if n == 0 {
        if m > 0 {
            assert(view_coef(v, v.1 as int) == v.0[m - 1]);
        }
        assert(u.0 =~= v.0);
    } else if m == 0 {
        assert(view_coef(u, u.1 as int) == u.0[n - 1]);
    } else {
        assert(view_coef(u, u.1 as int) != 0);
        assert(view_coef(v, v.1 as int) != 0);
        assert(view_coef(u, view_top(u)) != 0);
        assert(view_coef(v, view_top(v)) != 0);
        assert(u.1 == v.1);
        assert(view_top(u) == view_top(v));
        assert forall|i: int| 0 <= i < n implies u.0[i] == v.0[i] by {
            assert(view_coef(u, view_top(u) - i) == u.0[i]);
            assert(view_coef(v, view_top(v) - i) == v.0[i]);
        }
        assert(u.0 =~= v.0);
    }
}

impl Poly {
    /// Trims zero coefficients from both ends of the window. Trimming at the
    /// low end raises the offset, so every power keeps its coefficient; a
    /// window of zeros becomes the canonical zero polynomial.
    pub fn reduce(&mut self)
        requires
            old(self).wf(),
        ensures
            final(self).is_canonical(),
            final(self).wf(),
            final(self).same_coefs(old(self)),
            final(self).coefs@.len() > 0 ==> final(self).exp >= old(self).exp && final(self).top()
                <= old(self).top(),
            old(self).is_canonical() ==> final(self)@ == old(self)@,
            final(self)@ == canon(old(self)@),
    {
        let ghost start = *self;
        proof {
            lemma_canon(start@);
        }
        let n = self.coefs.len();
        let mut t: usize = 0;
        while t < n && self.coefs[n - 1 - t] == 0
            invariant
                n == self.coefs@.len(),
                t <= n,
                forall|j: int| n - t <= j < n ==> self.coefs@[j] == 0,
            decreases n - t,
        {
            t += 1;
        }
        if t == n {
            let ghost before = *self;
            *self = Poly::zero();
            proof {
                lemma_view_unique(self@, canon(start@));
            }
            assert forall|k: int| self.coef(k) == before.coef(k) by {
                let nn = before.coefs@.len() as int;
                if before.exp <= k < before.exp + nn {
                    assert(before.coefs@[nn - 1 - (k - before.exp)] == 0);
                }
            }
            return;
        }
        let mut l: usize = 0;
        while self.coefs[l] == 0
            invariant
                n == self.coefs@.len(),
                t < n,
                self.coefs@[n - 1 - t] != 0,
                l <= n - 1 - t,
                forall|j: int| 0 <= j < l ==> self.coefs@[j] == 0,
            decreases n - l,
        {
            l += 1;
        }
        let mut v: Vec<i64> = Vec::new();
        let mut i: usize = l;
        while i < n - t
            invariant
                n == self.coefs@.len(),
                t < n,
                l <= i <= n - t,
                v@ == self.coefs@.subrange(l as int, i as int),
            decreases n - t - i,
        {
            v.push(self.coefs[i]);
            i += 1;
        }
        let ghost before = *self;
        self.coefs = v;
        self.exp = (self.exp as i64 + t as i64) as i32;
        assert forall|k: int| self.coef(k) == before.coef(k) by {
            let nn = before.coefs@.len() as int;
            if before.exp <= k < before.exp + nn {
                let idx = nn - 1 - (k - before.exp);
                if idx < l {
                    assert(before.coefs@[idx] == 0);
                } else if idx >= nn - t {
                    assert(before.coefs@[idx] == 0);
                } else {
                    assert(self.coefs@[idx - l] == before.coefs@[idx]);
                }
            }
        }
        proof {
            lemma_view_unique(self@, canon(start@));
            if before.is_canonical() {
                assert(t == 0);
                assert(l == 0);
                assert(self.coefs@ =~= before.coefs@);
            }
        }
    }
}

/// The lower of two offsets.
pub open spec fn min_offset(a: i32, b: i32) -> i32 {
    if a < b {
        a
    } else {
        b
    }
}

/// `v`'s window padded with zeros at its low end down to offset `m`.
pub open spec fn padded(v: (Seq<i64>, i32), m: i32) -> (Seq<i64>, i32) {
    (v.0 + Seq::new((v.1 - m) as nat, |i: int| 0i64), m)
}

impl Poly {
    /// Pads the low end of the window with zeros down to power `new_exp`.
    pub fn extend_low(&mut self, new_exp: i32)
        requires
            new_exp <= old(self).exp,
            old(self).coefs@.len() + (old(self).exp - new_exp) <= usize::MAX,
        ensures
            final(self).coefs@ == old(self).coefs@ + Seq::new(
                (old(self).exp - new_exp) as nat,
                |i: int| 0i64,
            ),
            final(self).exp == new_exp,
            final(self).top() == old(self).top(),
            final(self).same_coefs(old(self)),
    {
        let ghost before = *self;
        let add: usize = (self.exp as i64 - new_exp as i64) as usize;
        let mut i: usize = 0;
        while i < add
            invariant
                i <= add,
                add == before.exp - new_exp,
                before.coefs@.len() + add <= usize::MAX,
                self.coefs@ == before.coefs@ + Seq::new(i as nat, |j: int| 0i64),
            decreases add - i,
        {
            self.coefs.push(0);
            i += 1;
            assert(self.coefs@ =~= before.coefs@ + Seq::new(i as nat, |j: int| 0i64));
        }
        self.exp = new_exp;
        assert forall|k: int| self.coef(k) == before.coef(k) by {
            let n = before.coefs@.len() as int;
            if before.exp <= k < before.exp + n {
                assert(self.coefs@[n + add - 1 - (k - new_exp)] == before.coefs@[n - 1 - (k
                    - before.exp)]);
            }
        }
    }

    /// Reduces both polynomials, then pads the one with the higher offset at
    /// its low end so that both windows end at the same (lower) power.
    pub fn normalise_with(&mut self, other: &mut Poly)
        requires
            old(self).wf(),
            old(other).wf(),
            old(self).joint_fits(old(other)),
        ensures
            final(self)@ == padded(
                canon(old(self)@),
                min_offset(canon(old(self)@).1, canon(old(other)@).1),
            ),
            final(other)@ == padded(
                canon(old(other)@),
                min_offset(canon(old(self)@).1, canon(old(other)@).1),
            ),
            final(self).exp == final(other).exp,
            final(self).same_coefs(old(self)),
            final(other).same_coefs(old(other)),
            final(self).is_canonical() || final(other).is_canonical(),
            !final(self).all_zero() ==> final(self).coefs@[0] != 0,
            !final(other).all_zero() ==> final(other).coefs@[0] != 0,
            final(self).wf(),
            final(other).wf(),
    {
        self.reduce();
        other.reduce();
        let ghost a = *self;
        let ghost b = *other;
        if self.exp < other.exp {
            other.extend_low(self.exp);
        } else if self.exp > other.exp {
            self.extend_low(other.exp);
        }
        proof {
            let m = min_offset(a.exp, b.exp);
            assert(self.coefs@ =~= padded(a@, m).0);
            assert(other.coefs@ =~= padded(b@, m).0);
        }
    }
}

} // verus!
