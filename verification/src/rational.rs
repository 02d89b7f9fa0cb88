//! Exact rational arithmetic.
//!
//! Quasi-probability coefficients, expectation values and rotation parameters
//! are kept as exact fractions of machine integers.  The mathematical value of
//! a fraction is the unbounded pair [`Rat`]; two fractions denote the same
//! rational number when they cross-multiply equally ([`rat_eq`]).  Fractions
//! are not reduced; every operation states its exact numerator and
//! denominator.

use vstd::prelude::*;

verus! {

/// The mathematical value of a fraction: an unbounded numerator and
/// denominator.  A well-formed value has a positive denominator.
pub ghost struct Rat {
    pub num: int,
    pub den: int,
}

/// The rational number `n / 1`.
pub open spec fn rat_int(n: int) -> Rat {
    Rat { num: n, den: 1 }
}

/// Exact product of two rationals (denominators multiply; nothing is reduced).
pub open spec fn rat_mul(a: Rat, b: Rat) -> Rat {
    Rat { num: a.num * b.num, den: a.den * b.den }
}

/// Exact sum of two rationals over the product denominator.
pub open spec fn rat_add(a: Rat, b: Rat) -> Rat {
    Rat { num: a.num * b.den + b.num * a.den, den: a.den * b.den }
}

/// Exact negation.
pub open spec fn rat_neg(a: Rat) -> Rat {
    Rat { num: -a.num, den: a.den }
}

/// Exact absolute value (for a well-formed value the denominator is positive,
/// so only the numerator's sign matters).
pub open spec fn rat_abs(a: Rat) -> Rat {
    Rat { num: if a.num < 0 { -a.num } else { a.num }, den: a.den }
}

/// Two fractions denote the same rational number.
pub open spec fn rat_eq(a: Rat, b: Rat) -> bool {
    a.num * b.den == b.num * a.den
}

/// The product of `a` and `b` is representable in a machine fraction.
pub open spec fn rat_mul_fits(a: Rat, b: Rat) -> bool {
    &&& -(i64::MAX as int) <= a.num * b.num <= i64::MAX as int
    &&& a.den * b.den <= i64::MAX as int
}

/// The sum of `a` and `b` over the product denominator is representable in a
/// machine fraction.
pub open spec fn rat_add_fits(a: Rat, b: Rat) -> bool {
    &&& -(i64::MAX as int) <= a.num * b.den + b.num * a.den <= i64::MAX as int
    &&& a.den * b.den <= i64::MAX as int
}

/// An exact fraction of machine integers.  The denominator is positive and
/// the numerator stays strictly above `i64::MIN`, so negation never
/// overflows.
#[derive(Clone, Copy, PartialEq, Eq, Structural, Debug)]
pub struct Ratio {
    pub num: i64,
    pub den: i64,
}

impl View for Ratio {
    type V = Rat;

    open spec fn view(&self) -> Rat {
        Rat { num: self.num as int, den: self.den as int }
    }
}

/// A product of two values that stay strictly above `i64::MIN` is bounded by
/// one square of `i64::MAX`, so two such products can still be added in
/// `i128` without overflow.
proof fn lemma_wf_mul_bound(a: int, b: int)
    requires
        -(i64::MAX as int) <= a <= i64::MAX as int,
        -(i64::MAX as int) <= b <= i64::MAX as int,
    ensures
        -(i64::MAX as int * i64::MAX as int) <= a * b <= i64::MAX as int * i64::MAX as int,
{
    assert(-(0x7fff_ffff_ffff_ffff * 0x7fff_ffff_ffff_ffff) <= a * b
        <= 0x7fff_ffff_ffff_ffff * 0x7fff_ffff_ffff_ffff) by (nonlinear_arith)
        requires
            -0x7fff_ffff_ffff_ffff <= a <= 0x7fff_ffff_ffff_ffff,
            -0x7fff_ffff_ffff_ffff <= b <= 0x7fff_ffff_ffff_ffff,
    ;
}

impl Ratio {
    /// Well-formedness: positive denominator, negatable numerator.
    pub open spec fn wf(self) -> bool {
        self.den > 0 && self.num != i64::MIN
    }

    /// Build the fraction `num / den`.
    pub fn new(num: i64, den: i64) -> (r: Ratio)
        requires
            den > 0,
            num != i64::MIN,
        ensures
            r@ == (Rat { num: num as int, den: den as int }),
            r.wf(),
    {
        Ratio { num, den }
    }

    /// The integer `n` as a fraction.
    pub fn from_int(n: i64) -> (r: Ratio)
        requires
            n != i64::MIN,
        ensures
            r@ == rat_int(n as int),
            r.wf(),
    {
        Ratio { num: n, den: 1 }
    }

    /// Exact product; `None` exactly when the result does not fit.
    pub fn checked_mul(self, other: Ratio) -> (r: Option<Ratio>)
        requires
            self.wf(),
            other.wf(),
        ensures
            match r {
                Some(c) => rat_mul_fits(self@, other@) && c@ == rat_mul(self@, other@) && c.wf(),
                None => !rat_mul_fits(self@, other@),
            },
    {
        proof {
            lemma_wf_mul_bound(self.num as int, other.num as int);
            lemma_wf_mul_bound(self.den as int, other.den as int);
            assert(self.den as int * other.den as int > 0) by (nonlinear_arith)
                requires
                    self.den > 0,
                    other.den > 0,
            ;
        }
        let n: i128 = (self.num as i128) * (other.num as i128);
        let d: i128 = (self.den as i128) * (other.den as i128);
        if -(i64::MAX as i128) <= n && n <= i64::MAX as i128 && d <= i64::MAX as i128 {
            Some(Ratio { num: n as i64, den: d as i64 })
        } else {
            None
        }
    }

    /// Exact sum; `None` exactly when the result does not fit.
    pub fn checked_add(self, other: Ratio) -> (r: Option<Ratio>)
        requires
            self.wf(),
            other.wf(),
        ensures
            match r {
                Some(c) => rat_add_fits(self@, other@) && c@ == rat_add(self@, other@) && c.wf(),
                None => !rat_add_fits(self@, other@),
            },
    {
        proof {
            lemma_wf_mul_bound(self.num as int, other.den as int);
            lemma_wf_mul_bound(other.num as int, self.den as int);
            lemma_wf_mul_bound(self.den as int, other.den as int);
            assert(self.den as int * other.den as int > 0) by (nonlinear_arith)
                requires
                    self.den > 0,
                    other.den > 0,
            ;
        }
        let cross_a: i128 = (self.num as i128) * (other.den as i128);
        let cross_b: i128 = (other.num as i128) * (self.den as i128);
        let n: i128 = cross_a + cross_b;
        let d: i128 = (self.den as i128) * (other.den as i128);
        if -(i64::MAX as i128) <= n && n <= i64::MAX as i128 && d <= i64::MAX as i128 {
            Some(Ratio { num: n as i64, den: d as i64 })
        } else {
            None
        }
    }

    /// Exact negation (never overflows on a well-formed value).
    pub fn neg(self) -> (r: Ratio)
        requires
            self.wf(),
        ensures
            r@ == rat_neg(self@),
            r.wf(),
    {
        Ratio { num: -self.num, den: self.den }
    }

    /// Whether the two fractions denote the same rational number.
    pub fn same_value(self, other: Ratio) -> (r: bool)
        requires
            self.wf(),
            other.wf(),
        ensures
            r == rat_eq(self@, other@),
    {
        proof {
            lemma_wf_mul_bound(self.num as int, other.den as int);
            lemma_wf_mul_bound(other.num as int, self.den as int);
        }
        (self.num as i128) * (other.den as i128) == (other.num as i128) * (self.den as i128)
    }
}

/// `b` to the power of `e` over the integers.
pub open spec fn ipow(b: int, e: nat) -> int
    decreases e,
{
    if e == 0 {
        1
    } else {
        b * ipow(b, (e - 1) as nat)
    }
}

/// A power of a positive base is at least 1.
pub proof fn lemma_ipow_positive(b: int, e: nat)
    requires
        b >= 1,
    ensures
        ipow(b, e) >= 1,
    decreases e,
{
    if e > 0 {
        lemma_ipow_positive(b, (e - 1) as nat);
        assert(b * ipow(b, (e - 1) as nat) >= 1) by (nonlinear_arith)
            requires
                b >= 1,
                ipow(b, (e - 1) as nat) >= 1,
        ;
    }
}

/// Powers of a positive base grow with the exponent.
pub proof fn lemma_ipow_increases(b: int, e1: nat, e2: nat)
    requires
        b >= 1,
        e1 <= e2,
    ensures
        ipow(b, e1) <= ipow(b, e2),
    decreases e2,
{
    if e1 < e2 {
        lemma_ipow_increases(b, e1, (e2 - 1) as nat);
        lemma_ipow_positive(b, (e2 - 1) as nat);
        assert(ipow(b, (e2 - 1) as nat) <= b * ipow(b, (e2 - 1) as nat)) by (nonlinear_arith)
            requires
                b >= 1,
                ipow(b, (e2 - 1) as nat) >= 1,
        ;
    }
}

/// `4^k` is the square of `2^k`.
pub proof fn lemma_ipow4_is_square_of_ipow2(k: nat)
    ensures
        ipow(4, k) == ipow(2, k) * ipow(2, k),
    decreases k,
{
    if k > 0 {
        lemma_ipow4_is_square_of_ipow2((k - 1) as nat);
        assert(4 * (ipow(2, (k - 1) as nat) * ipow(2, (k - 1) as nat)) == (2 * ipow(
            2,
            (k - 1) as nat,
        )) * (2 * ipow(2, (k - 1) as nat))) by (nonlinear_arith);
    }
}

/// Sum of the absolute values of a sequence of rationals, left to right.
pub open spec fn rat_sum_abs(s: Seq<Rat>) -> Rat
    decreases s.len(),
{
    if s.len() == 0 {
        rat_int(0)
    } else {
        rat_add(rat_abs(s[0]), rat_sum_abs(s.drop_first()))
    }
}

/// The denominator of a sum of absolute values stays positive.
pub proof fn lemma_sum_abs_den_positive(s: Seq<Rat>)
    requires
        forall|i: int| 0 <= i < s.len() ==> (#[trigger] s[i]).den > 0,
    ensures
        rat_sum_abs(s).den > 0,
    decreases s.len(),
{
    if s.len() > 0 {
        lemma_sum_abs_den_positive(s.drop_first());
        assert(s[0].den * rat_sum_abs(s.drop_first()).den > 0) by (nonlinear_arith)
            requires
                s[0].den > 0,
                rat_sum_abs(s.drop_first()).den > 0,
        ;
    }
}

/// Summing the absolute values of a sequence whose entries all have the
/// same non-negative absolute value `n / d` gives exactly `len * n / d`.
pub proof fn lemma_sum_abs_constant(s: Seq<Rat>, c: Rat)
    requires
        c.den > 0,
        c.num >= 0,
        forall|i: int| 0 <= i < s.len() ==> rat_abs(#[trigger] s[i]) == c,
    ensures
        rat_eq(rat_sum_abs(s), Rat { num: s.len() * c.num, den: c.den }),
        rat_sum_abs(s).den > 0,
    decreases s.len(),
{
    if s.len() == 0 {
        assert(rat_sum_abs(s) == rat_int(0));
        assert(s.len() * c.num == 0);
        assert(rat_eq(rat_int(0), Rat { num: 0, den: c.den }));
    } else {
        let rest = s.drop_first();
        assert forall|i: int| 0 <= i < rest.len() implies rat_abs(#[trigger] rest[i]) == c by {
            assert(rat_abs(s[i + 1]) == c);
        }
        lemma_sum_abs_constant(rest, c);
        let tail = rat_sum_abs(rest);
        let m = s.len();
        assert(rat_abs(s[0]) == c);
        assert(rat_sum_abs(s) == rat_add(c, tail));
        assert(rat_add(c, tail).den > 0) by (nonlinear_arith)
            requires
                c.den > 0,
                tail.den > 0,
        ;
        // The head contributes one more copy of c.num / c.den on top of the
        // (m - 1) copies already in the tail.
        assert((c.num * tail.den + tail.num * c.den) * c.den == (m * c.num) * (c.den * tail.den))
            by (nonlinear_arith)
            requires
                tail.num * c.den == ((m - 1) * c.num) * tail.den,
                m >= 1,
        ;
        assert(rat_add(c, tail).num == c.num * tail.den + tail.num * c.den);
        assert(rat_add(c, tail).den == c.den * tail.den);
        assert(rat_eq(rat_sum_abs(s), Rat { num: s.len() * c.num, den: c.den }));
    }
}

} // verus!

