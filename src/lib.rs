//! Single-variable Laurent polynomials with integer (`i64`) coefficients,
//! stored as a dense window of coefficients plus the power of the lowest
//! stored coefficient. Negative powers such as `x^-1` are allowed.

pub mod add;
pub mod canon;
pub mod diff;
pub mod display;
pub mod eval;
pub mod laws;
pub mod mul;

use vstd::prelude::*;

verus! {

/// The coefficient of power `k` in the window `s` whose last entry has power `exp`.
/// Index 0 holds the highest power; powers outside the window have coefficient 0.
pub open spec fn coef_at(s: Seq<i64>, exp: int, k: int) -> int {
    let n = s.len() as int;
    if exp <= k && k < exp + n {
        s[n - 1 - (k - exp)] as int
    } else {
        0
    }
}

/// The coefficient of power `k` in a window and offset pair.
pub open spec fn view_coef(v: (Seq<i64>, i32), k: int) -> int {
    coef_at(v.0, v.1 as int, k)
}

/// The highest stored power of a window and offset pair.
pub open spec fn view_top(v: (Seq<i64>, i32)) -> int {
    v.0.len() + v.1 - 1
}

/// The highest stored power fits in an `i32`.
pub open spec fn view_wf(v: (Seq<i64>, i32)) -> bool {
    view_top(v) <= i32::MAX
}

/// No zero at either end; the zero polynomial is the empty window with offset 1.
pub open spec fn view_canonical(v: (Seq<i64>, i32)) -> bool {
    if v.0.len() == 0 {
        v.1 == 1
    } else {
        v.0[0] != 0 && v.0.last() != 0
    }
}

/// Every stored coefficient is zero.
pub open spec fn view_all_zero(v: (Seq<i64>, i32)) -> bool {
    forall|i: int| 0 <= i < v.0.len() ==> v.0[i] == 0
}

/// A polynomial: `coefs[0]` is the coefficient of the highest power,
/// the last entry that of power `exp`.
#[derive(Debug, Clone)]
pub struct Poly {
    pub coefs: Vec<i64>,
    pub exp: i32,
}

impl View for Poly {
    type V = (Seq<i64>, i32);

    open spec fn view(&self) -> (Seq<i64>, i32) {
        (self.coefs@, self.exp)
    }
}

impl Poly {
    /// The coefficient of power `k`.
    pub open spec fn coef(&self, k: int) -> int {
        view_coef(self@, k)
    }

    /// The highest stored power, `len + exp - 1`.
    pub open spec fn top(&self) -> int {
        view_top(self@)
    }

    /// The highest stored power fits in an `i32`, as the offset does.
    pub open spec fn wf(&self) -> bool {
        view_wf(self@)
    }

    /// No zero at either end of the window; the zero polynomial is the
    /// empty window with offset 1.
    pub open spec fn is_canonical(&self) -> bool {
        view_canonical(self@)
    }

    /// The window from the lower of the two offsets (and 1) up to the higher
    /// of the two top powers (and 0) has a length that fits in a `usize`.
    pub open spec fn joint_fits(&self, o: &Poly) -> bool {
        let hi = if self.top() > o.top() { self.top() } else { o.top() };
        let lo = if self.exp < o.exp { self.exp as int } else { o.exp as int };
        (if hi > 0 { hi } else { 0 }) + 1 - (if lo < 1 { lo } else { 1 }) <= usize::MAX
    }

    /// Every stored coefficient is zero.
    pub open spec fn all_zero(&self) -> bool {
        view_all_zero(self@)
    }

    /// Both polynomials give every power the same coefficient.
    pub open spec fn same_coefs(&self, o: &Poly) -> bool {
        forall|k: int| self.coef(k) == o.coef(k)
    }

    /// The zero polynomial.
    pub fn zero() -> (r: Poly)
        ensures
            r@ == (Seq::<i64>::empty(), 1i32),
            r.is_canonical(),
            r.wf(),
            forall|k: int| r.coef(k) == 0,
    {
        Poly { coefs: Vec::new(), exp: 1 }
    }

    /// The polynomial `x`.
    pub fn x() -> (r: Poly)
        ensures
            r@ == (seq![1i64], 1i32),
            r.is_canonical(),
            r.wf(),
            forall|k: int| r.coef(k) == if k == 1 { 1int } else { 0int },
    {
        Poly { coefs: vec![1], exp: 1 }
    }

    /// The constant polynomial `c`.
    pub fn from_scalar(c: i64) -> (r: Poly)
        ensures
            c == 0 ==> r@ == (Seq::<i64>::empty(), 1i32),
            c != 0 ==> r@ == (seq![c], 0i32),
            r.is_canonical(),
            r.wf(),
            forall|k: int| r.coef(k) == if k == 0 { c as int } else { 0int },
    {
        if c == 0 {
            Poly::zero()
        } else {
            Poly { coefs: vec![c], exp: 0 }
        }
    }

    /// The degree, `len + exp - 1`; absent for the zero polynomial (an empty
    /// window).
    pub fn degree(&self) -> (r: Option<i64>)
        requires
            self.wf(),
        ensures
            self.coefs@.len() == 0 ==> r is None,
            self.coefs@.len() > 0 ==> r == Some(self.top() as i64),
    {
        if self.coefs.len() == 0 {
            None
        } else {
            Some((self.coefs.len() as i128 + self.exp as i128 - 1) as i64)
        }
    }

    /// A copy with the same window and offset.
    pub fn duplicate(&self) -> (r: Poly)
        ensures
            r@ == self@,
    {
        let n = self.coefs.len();
        let mut v: Vec<i64> = Vec::new();
        let mut i: usize = 0;
        while i < n
            invariant
                n == self.coefs@.len(),
                i <= n,
                v@ == self.coefs@.subrange(0, i as int),
            decreases n - i,
        {
            v.push(self.coefs[i]);
            i += 1;
        }
        assert(v@ =~= self.coefs@);
        Poly { coefs: v, exp: self.exp }
    }

    /// Every coefficient is zero (also for a non-canonical window of zeros).
    pub fn is_zero(&self) -> (r: bool)
        ensures
            r == self.all_zero(),
    {
        let n = self.coefs.len();
        let mut i: usize = 0;
        while i < n
            invariant
                n == self.coefs@.len(),
                i <= n,
                forall|j: int| 0 <= j < i ==> self.coefs@[j] == 0,
            decreases n - i,
        {
            if self.coefs[i] != 0 {
                assert(self@.0[i as int] != 0);
                return false;
            }
            i += 1;
        }
        true
    }
}

impl PartialEq for Poly {
    /// Structural equality: the same window and the same offset.
    fn eq(&self, o: &Poly) -> (r: bool) {
        if self.exp != o.exp || self.coefs.len() != o.coefs.len() {
            return false;
        }
        let n = self.coefs.len();
        let mut i: usize = 0;
        while i < n
            invariant
                n == self.coefs@.len(),
                n == o.coefs@.len(),
                i <= n,
                forall|j: int| 0 <= j < i ==> self.coefs@[j] == o.coefs@[j],
            decreases n - i,
        {
            if self.coefs[i] != o.coefs[i] {
                return false;
            }
            i += 1;
        }
        assert(self.coefs@ =~= o.coefs@);
        true
    }
}

impl vstd::std_specs::cmp::PartialEqSpecImpl for Poly {
    open spec fn obeys_eq_spec() -> bool {
        true
    }

    open spec fn eq_spec(&self, o: &Poly) -> bool {
        self@ == o@
    }
}

impl Default for Poly {
    /// The zero polynomial.
    fn default() -> (r: Poly)
        ensures
            r@ == (Seq::<i64>::empty(), 1i32),
    {
        Poly::zero()
    }
}

} // verus!
