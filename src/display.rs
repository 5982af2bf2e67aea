//! Human-readable rendering, highest power first: `x^4 - 2x^2 + 3x`.

use vstd::prelude::*;
use vstd::string::StringExecFns;
use crate::Poly;

verus! {

/// The decimal digit for `d < 10`.
pub open spec fn digit_char(d: nat) -> char {
    if d == 0 {
        '0'
    } else if d == 1 {
        '1'
    } else if d == 2 {
        '2'
    } else if d == 3 {
        '3'
    } else if d == 4 {
        '4'
    } else if d == 5 {
        '5'
    } else if d == 6 {
        '6'
    } else if d == 7 {
        '7'
    } else if d == 8 {
        '8'
    } else {
        '9'
    }
}

/// The decimal digits of `n`, without leading zeros.
pub open spec fn dec(n: nat) -> Seq<char>
    decreases n,
{
    if n < 10 {
        seq![digit_char(n)]
    } else {
        dec(n / 10) + seq![digit_char(n % 10)]
    }
}

pub open spec fn abs(v: int) -> nat {
    if v < 0 {
        (-v) as nat
    } else {
        v as nat
    }
}

/// `v` in decimal, with a leading `-` when negative.
pub open spec fn int_text(v: int) -> Seq<char> {
    if v < 0 {
        seq!['-'] + dec(abs(v))
    } else {
        dec(abs(v))
    }
}

/// One non-zero term `c x^power`. The first term shows its sign as a bare
/// `-`; later ones are joined by ` + ` or ` - `. A magnitude of 1 is left out
/// unless the power is 0; the power is left out for 0 and 1.
pub open spec fn term_text(c: int, power: int, first: bool) -> Seq<char> {
    let sign = if c < 0 {
        if first {
            seq!['-']
        } else {
            seq![' ', '-', ' ']
        }
    } else if first {
        Seq::empty()
    } else {
        seq![' ', '+', ' ']
    };
    let mag = if abs(c) != 1 || power == 0 {
        dec(abs(c))
    } else {
        Seq::empty()
    };
    let var = if power == 0 {
        Seq::empty()
    } else if power == 1 {
        seq!['x']
    } else {
        seq!['x', '^'] + int_text(power)
    };
    sign + mag + var
}

/// The terms of window `s` from index `i` on, where index 0 has power `d`;
/// zero coefficients are skipped.
pub open spec fn terms_text(s: Seq<i64>, d: int, i: int, first: bool) -> Seq<char>
    decreases s.len() - i,
{
    if i >= s.len() || i < 0 {
        Seq::empty()
    } else if s[i] == 0 {
        terms_text(s, d, i + 1, first)
    } else {
        term_text(s[i] as int, d - i, first) + terms_text(s, d, i + 1, false)
    }
}

/// The text of `p`: its non-zero terms, highest power first, or `0` when
/// every coefficient is zero.
pub open spec fn poly_text(p: &Poly) -> Seq<char> {
    if p.all_zero() {
        seq!['0']
    } else {
        terms_text(p.coefs@, p.top(), 0, true)
    }
}

fn digit_str(d: u64) -> (r: &'static str)
    requires
        d < 10,
    ensures
        r@ == seq![digit_char(d as nat)],
{
    proof {
        reveal_strlit("0");
        reveal_strlit("1");
        reveal_strlit("2");
        reveal_strlit("3");
        reveal_strlit("4");
        reveal_strlit("5");
        reveal_strlit("6");
        reveal_strlit("7");
        reveal_strlit("8");
        reveal_strlit("9");
    }
    if d == 0 {
        "0"
    } else if d == 1 {
        "1"
    } else if d == 2 {
        "2"
    } else if d == 3 {
        "3"
    } else if d == 4 {
        "4"
    } else if d == 5 {
        "5"
    } else if d == 6 {
        "6"
    } else if d == 7 {
        "7"
    } else if d == 8 {
        "8"
    } else {
        "9"
    }
}

/// Appends the decimal digits of `n`.
fn push_dec(out: &mut String, n: u64)
    ensures
        final(out)@ == old(out)@ + dec(n as nat),
    decreases n,
{
    if n >= 10 {
        push_dec(out, n / 10);
        out.append(digit_str(n % 10));
        assert(final(out)@ =~= old(out)@ + dec(n as nat));
    } else {
        out.append(digit_str(n));
    }
}

/// `|v|` as a `u64`.
fn magnitude(v: i64) -> (r: u64)
    ensures
        r == abs(v as int),
{
    if v < 0 {
        (-(v as i128)) as u64
    } else {
        v as u64
    }
}

/// Appends `v` in decimal.
fn push_int(out: &mut String, v: i64)
    ensures
        final(out)@ == old(out)@ + int_text(v as int),
{
    if v < 0 {
        proof { reveal_strlit("-"); }
        out.append("-");
        push_dec(out, magnitude(v));
        assert(final(out)@ =~= old(out)@ + int_text(v as int));
    } else {
        push_dec(out, magnitude(v));
    }
}

/// Appends one non-zero term.
fn push_term(out: &mut String, c: i64, power: i64, first: bool)
    ensures
        final(out)@ == old(out)@ + term_text(c as int, power as int, first),
{
    proof {
        reveal_strlit("-");
        reveal_strlit(" - ");
        reveal_strlit(" + ");
        reveal_strlit("x");
        reveal_strlit("^");
    }
    let ghost start = out@;
    if c < 0 {
        if first {
            out.append("-");
        } else {
            out.append(" - ");
        }
    } else if !first {
        out.append(" + ");
    }
    let ghost after_sign = out@;
    let m = magnitude(c);
    if m != 1 || power == 0 {
        push_dec(out, m);
    }
    let ghost after_mag = out@;
    if power != 0 {
        out.append("x");
        if power != 1 {
            out.append("^");
            push_int(out, power);
        }
    }
    assert(out@ =~= start + term_text(c as int, power as int, first));
}

impl Poly {
    /// The polynomial as text, highest power first.
    pub fn to_string(&self) -> (r: String)
        requires
            self.wf(),
        ensures
            r@ == poly_text(self),
    {
        let n = self.coefs.len();
        let d: i64 = (n as i128 + self.exp as i128 - 1) as i64;
        let mut out = String::new();
        if self.is_zero() {
            proof { reveal_strlit("0"); }
            out.append("0");
            assert(out@ =~= poly_text(self));
            return out;
        }
        assert(n <= i32::MAX - i32::MIN + 1);
        let mut first = true;
        let mut i: usize = 0;
        while i < n
            invariant
                n == self.coefs@.len(),
                n <= i32::MAX - i32::MIN + 1,
                d == self.top(),
                i <= n,
                out@ + terms_text(self.coefs@, d as int, i as int, first) == terms_text(
                    self.coefs@,
                    d as int,
                    0,
                    true,
                ),
            decreases n - i,
        {
            let c = self.coefs[i];
            if c != 0 {
                let ghost before = out@;
                push_term(&mut out, c, d - i as i64, first);
                assert(before + terms_text(self.coefs@, d as int, i as int, first) =~= out@
                    + terms_text(self.coefs@, d as int, i + 1, false));
                first = false;
            }
            i += 1;
        }
        assert(out@ =~= poly_text(self));
        out
    }
}

} // verus!
