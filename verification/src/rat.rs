use vstd::prelude::*;

verus! {

/// A mathematical rational, used only in specifications.
///
/// `den` is normally positive; `eqv` (cross multiplication) is value equality
/// and tolerates any nonzero denominator, while `le` is only meaningful for
/// positive denominators.
pub ghost struct RatVal {
    pub num: int,
    pub den: int,
}

impl RatVal {
    pub open spec fn wf(self) -> bool {
        self.den > 0
    }

    /// Value equality of two fractions.
    pub open spec fn eqv(self, other: RatVal) -> bool {
        self.num * other.den == other.num * self.den
    }

    /// Value order, for positive denominators.
    pub open spec fn le(self, other: RatVal) -> bool
        recommends
            self.wf(),
            other.wf(),
    {
        self.num * other.den <= other.num * self.den
    }

    pub open spec fn from_int(n: int) -> RatVal {
        RatVal { num: n, den: 1 }
    }

    pub open spec fn radd(self, other: RatVal) -> RatVal {
        RatVal { num: self.num * other.den + other.num * self.den, den: self.den * other.den }
    }

    pub open spec fn rsub(self, other: RatVal) -> RatVal {
        RatVal { num: self.num * other.den - other.num * self.den, den: self.den * other.den }
    }

    pub open spec fn rmul(self, other: RatVal) -> RatVal {
        RatVal { num: self.num * other.num, den: self.den * other.den }
    }

    /// Division, with the divisor's sign folded into the numerator so that a
    /// positive denominator stays positive.
    pub open spec fn rdiv(self, other: RatVal) -> RatVal
        recommends
            other.num != 0,
    {
        if other.num >= 0 {
            RatVal { num: self.num * other.den, den: self.den * other.num }
        } else {
            RatVal { num: -(self.num * other.den), den: -(self.den * other.num) }
        }
    }

    /// Division by a positive integer.
    pub open spec fn rdiv_int(self, d: int) -> RatVal
        recommends
            d > 0,
    {
        RatVal { num: self.num, den: self.den * d }
    }

    pub open spec fn bounded(self, b: int) -> bool {
        &&& -b <= self.num <= b
        &&& 0 < self.den <= b
    }
}

/// An exact rational number with a strictly positive denominator.
///
/// The calibration transform of this crate is affine over the rationals, so
/// keeping numerator and denominator explicit lets the round-trip law
/// `inverse(remap(x)) == x` hold exactly, with no tolerance.  Fractions are
/// never reduced; sameness of value is `eqv`, not `==`.
#[derive(Debug, Clone, Copy, PartialEq, Eq, Structural)]
pub struct Rat {
    pub num: i128,
    pub den: i128,
}

impl View for Rat {
    type V = RatVal;

    open spec fn view(&self) -> RatVal {
        RatVal { num: self.num as int, den: self.den as int }
    }
}

/// `round(a / d)` for `d > 0`, halves rounded away from zero.
pub open spec fn spec_div_round(a: int, d: int) -> int
    recommends
        d > 0,
{
    if a >= 0 {
        (2 * a + d) / (2 * d)
    } else {
        -((2 * (-a) + d) / (2 * d))
    }
}

/// Upper bound for the products the `Rat` operations may form: every
/// intermediate value must keep `|num|` and `den` at or below it so that the
/// `i128` arithmetic cannot overflow.
pub const RAT_LIMIT: i128 = 0x4000_0000_0000_0000_0000_0000_0000_0000;

impl Rat {
    /// A denominator is always kept strictly positive.
    pub open spec fn wf(self) -> bool {
        self.den > 0
    }

    pub open spec fn bounded(self, b: int) -> bool {
        self@.bounded(b)
    }

    /// Build a rational from a signed fraction, normalising the sign into the
    /// numerator.
    pub fn new(num: i64, den: i64) -> (r: Rat)
        requires
            den != 0,
        ensures
            r.wf(),
            r.bounded(0x8000_0000_0000_0000),
            r@.eqv(RatVal { num: num as int, den: den as int }),
            den > 0 ==> r.num == num && r.den == den,
    {
        let n: i128 = num as i128;
        let d: i128 = den as i128;
        if d > 0 {
            Rat { num: n, den: d }
        } else {
            proof {
                assert((-n) * d == n * (-d)) by (nonlinear_arith);
            }
            Rat { num: -n, den: -d }
        }
    }

    /// The rational with value `n`.
    pub fn from_int(n: i64) -> (r: Rat)
        ensures
            r.wf(),
            r.bounded(0x8000_0000_0000_0000),
            r.num == n,
            r.den == 1,
    {
        Rat { num: n as i128, den: 1 }
    }

    /// Whether `self <= other` as rational values.
    pub fn le(&self, other: &Rat) -> (r: bool)
        requires
            self.wf(),
            other.wf(),
            -RAT_LIMIT <= self.num * other.den <= RAT_LIMIT,
            -RAT_LIMIT <= other.num * self.den <= RAT_LIMIT,
        ensures
            r == self@.le(other@),
    {
        self.num * other.den <= other.num * self.den
    }

    /// Whether `self` and `other` denote the same rational value.
    pub fn eq_val(&self, other: &Rat) -> (r: bool)
        requires
            self.wf(),
            other.wf(),
            -RAT_LIMIT <= self.num * other.den <= RAT_LIMIT,
            -RAT_LIMIT <= other.num * self.den <= RAT_LIMIT,
        ensures
            r == self@.eqv(other@),
    {
        self.num * other.den == other.num * self.den
    }

    /// Clamp `self` into the value range `[lo, hi]`.
    pub fn clamp(&self, lo: &Rat, hi: &Rat) -> (r: Rat)
        requires
            self.wf(),
            lo.wf(),
            hi.wf(),
            lo@.le(hi@),
            -RAT_LIMIT <= self.num * lo.den <= RAT_LIMIT,
            -RAT_LIMIT <= lo.num * self.den <= RAT_LIMIT,
            -RAT_LIMIT <= self.num * hi.den <= RAT_LIMIT,
            -RAT_LIMIT <= hi.num * self.den <= RAT_LIMIT,
        ensures
            r.wf(),
            r == (if self@.le(lo@) {
                *lo
            } else if hi@.le(self@) {
                *hi
            } else {
                *self
            }),
            lo@.le(r@),
            r@.le(hi@),
    {
        if self.le(lo) {
            *lo
        } else if hi.le(self) {
            *hi
        } else {
            proof {
                lemma_le_total(self@, lo@);
                lemma_le_total(hi@, self@);
            }
            *self
        }
    }

    /// Round `self * scale` to the nearest integer, halves away from zero.
    pub fn to_scaled(&self, scale: i64) -> (r: i64)
        requires
            self.wf(),
            scale >= 1,
            -0x1000_0000_0000_0000_0000_0000_0000_0000 <= self.num * scale
                <= 0x1000_0000_0000_0000_0000_0000_0000_0000,
            self.den <= 0x1000_0000_0000_0000_0000_0000_0000_0000,
            i64::MIN <= spec_div_round(self.num * scale, self.den as int) <= i64::MAX,
        ensures
            r == spec_div_round(self.num * scale, self.den as int),
    {
        let a: i128 = self.num * (scale as i128);
        let d: i128 = self.den;
        if a >= 0 {
            let q: i128 = (2 * a + d) / (2 * d);
            q as i64
        } else {
            let q: i128 = (2 * (-a) + d) / (2 * d);
            (-q) as i64
        }
    }
}

/// Exact rational addition; the ghost bounds keep the products inside `i128`.
pub fn rat_add(a: &Rat, b: &Rat, Ghost(ba): Ghost<int>, Ghost(bb): Ghost<int>) -> (r: Rat)
    requires
        a.wf(),
        b.wf(),
        a.bounded(ba),
        b.bounded(bb),
        2 * ba * bb <= RAT_LIMIT,
    ensures
        r@ == a@.radd(b@),
        r.wf(),
        r.bounded(2 * ba * bb),
{
    proof {
        assert(ba * bb + ba * bb == 2 * ba * bb) by (nonlinear_arith);
        assert(ba * bb >= 1 && ba * bb == bb * ba) by (nonlinear_arith)
            requires
                ba >= 1,
                bb >= 1;
        lemma_mul_bound(a.num as int, b.den as int, ba, bb);
        lemma_mul_bound(b.num as int, a.den as int, bb, ba);
        lemma_mul_bound(a.den as int, b.den as int, ba, bb);
        assert(a.den * b.den > 0) by (nonlinear_arith)
            requires
                a.den > 0,
                b.den > 0;
    }
    Rat { num: a.num * b.den + b.num * a.den, den: a.den * b.den }
}

/// Exact rational subtraction.
pub fn rat_sub(a: &Rat, b: &Rat, Ghost(ba): Ghost<int>, Ghost(bb): Ghost<int>) -> (r: Rat)
    requires
        a.wf(),
        b.wf(),
        a.bounded(ba),
        b.bounded(bb),
        2 * ba * bb <= RAT_LIMIT,
    ensures
        r@ == a@.rsub(b@),
        r.wf(),
        r.bounded(2 * ba * bb),
{
    proof {
        assert(ba * bb + ba * bb == 2 * ba * bb) by (nonlinear_arith);
        assert(ba * bb >= 1 && ba * bb == bb * ba) by (nonlinear_arith)
            requires
                ba >= 1,
                bb >= 1;
        lemma_mul_bound(a.num as int, b.den as int, ba, bb);
        lemma_mul_bound(b.num as int, a.den as int, bb, ba);
        lemma_mul_bound(a.den as int, b.den as int, ba, bb);
        assert(a.den * b.den > 0) by (nonlinear_arith)
            requires
                a.den > 0,
                b.den > 0;
    }
    Rat { num: a.num * b.den - b.num * a.den, den: a.den * b.den }
}

/// Exact rational multiplication.
pub fn rat_mul(a: &Rat, b: &Rat, Ghost(ba): Ghost<int>, Ghost(bb): Ghost<int>) -> (r: Rat)
    requires
        a.wf(),
        b.wf(),
        a.bounded(ba),
        b.bounded(bb),
        ba * bb <= RAT_LIMIT,
    ensures
        r@ == a@.rmul(b@),
        r.wf(),
        r.bounded(ba * bb),
{
    proof {
        lemma_mul_bound(a.num as int, b.num as int, ba, bb);
        lemma_mul_bound(a.den as int, b.den as int, ba, bb);
        assert(a.den * b.den > 0) by (nonlinear_arith)
            requires
                a.den > 0,
                b.den > 0;
    }
    Rat { num: a.num * b.num, den: a.den * b.den }
}

/// Exact rational division by a rational with nonzero numerator.
pub fn rat_div(a: &Rat, b: &Rat, Ghost(ba): Ghost<int>, Ghost(bb): Ghost<int>) -> (r: Rat)
    requires
        a.wf(),
        b.wf(),
        b.num != 0,
        a.bounded(ba),
        b.bounded(bb),
        ba * bb <= RAT_LIMIT,
    ensures
        r@ == a@.rdiv(b@),
        r.wf(),
        r.bounded(ba * bb),
{
    proof {
        assert(ba * bb + ba * bb == 2 * ba * bb) by (nonlinear_arith);
        assert(ba * bb >= 1) by (nonlinear_arith)
            requires
                ba >= 1,
                bb >= 1;
        lemma_mul_bound(a.num as int, b.den as int, ba, bb);
        lemma_mul_bound(a.den as int, b.num as int, ba, bb);
        assert(b.num > 0 ==> a.den * b.num > 0) by (nonlinear_arith)
            requires
                a.den > 0;
        assert(b.num < 0 ==> a.den * b.num < 0) by (nonlinear_arith)
            requires
                a.den > 0;
    }
    if b.num >= 0 {
        Rat { num: a.num * b.den, den: a.den * b.num }
    } else {
        Rat { num: -(a.num * b.den), den: -(a.den * b.num) }
    }
}

/// Exact rational division by a positive integer.
pub fn rat_div_int(a: &Rat, d: i64, Ghost(ba): Ghost<int>) -> (r: Rat)
    requires
        a.wf(),
        d >= 1,
        a.bounded(ba),
        ba * d <= RAT_LIMIT,
    ensures
        r@ == a@.rdiv_int(d as int),
        r.wf(),
        r.bounded(ba * d),
{
    proof {
        lemma_mul_bound(a.den as int, d as int, ba, d as int);
        assert(a.den * d > 0) by (nonlinear_arith)
            requires
                a.den > 0,
                d >= 1;
        assert(ba <= ba * d) by (nonlinear_arith)
            requires
                ba > 0,
                d >= 1;
    }
    Rat { num: a.num, den: a.den * (d as i128) }
}

/// `eqv` is transitive, through a middle fraction with nonzero denominator.
pub proof fn lemma_eqv_trans(a: RatVal, b: RatVal, c: RatVal)
    requires
        a.eqv(b),
        b.eqv(c),
        b.den != 0,
    ensures
        a.eqv(c),
{
    lemma_eqv_trans_ints(a.num, a.den, b.num, b.den, c.num, c.den);
}

/// The cross-multiplied form of `lemma_eqv_trans`, over plain integers.
proof fn lemma_eqv_trans_ints(an: int, ad: int, bn: int, bd: int, cn: int, cd: int)
    by (nonlinear_arith)
    requires
        an * bd == bn * ad,
        bn * cd == cn * bd,
        bd != 0,
    ensures
        an * cd == cn * ad,
{
}

/// Multiplying and then dividing by the same nonzero rational is the identity,
/// up to `eqv`.
pub proof fn lemma_rmul_rdiv_cancel(a: RatVal, b: RatVal)
    requires
        b.num != 0,
        b.den != 0,
    ensures
        a.rmul(b).rdiv(b).eqv(a),
{
    lemma_rmul_rdiv_cancel_ints(a.num, a.den, b.num, b.den);
}

/// The cross-multiplied form of `lemma_rmul_rdiv_cancel`, over plain
/// integers, covering both signs of the divisor's numerator.
proof fn lemma_rmul_rdiv_cancel_ints(an: int, ad: int, bn: int, bd: int)
    by (nonlinear_arith)
    ensures
        ((an * bn) * bd) * ad == an * ((ad * bd) * bn),
        (-((an * bn) * bd)) * ad == an * (-((ad * bd) * bn)),
{
}

/// Adding and then subtracting the same rational is the identity, up to `eqv`.
pub proof fn lemma_radd_rsub_cancel(a: RatVal, o: RatVal)
    requires
        o.den != 0,
    ensures
        a.radd(o).rsub(o).eqv(a),
{
    lemma_radd_rsub_cancel_ints(a.num, a.den, o.num, o.den);
}

/// The cross-multiplied form of `lemma_radd_rsub_cancel`, over plain
/// integers.
proof fn lemma_radd_rsub_cancel_ints(an: int, ad: int, on: int, od: int)
    by (nonlinear_arith)
    ensures
        ((an * od + on * ad) * od - on * (ad * od)) * ad == an * ((ad * od) * od),
{
}

/// Dividing by a positive integer and multiplying by it again is the identity,
/// up to `eqv`.
pub proof fn lemma_int_scale_cancel(a: RatVal, k: int)
    requires
        k > 0,
    ensures
        a.rdiv_int(k).rmul(RatVal::from_int(k)).eqv(a),
{
    lemma_int_scale_cancel_ints(a.num, a.den, k);
}

/// The cross-multiplied form of `lemma_int_scale_cancel`, over plain integers.
proof fn lemma_int_scale_cancel_ints(n: int, d: int, k: int)
    by (nonlinear_arith)
    ensures
        (n * k) * d == n * ((d * k) * 1),
{
}

/// `rdiv` by a fixed divisor respects `eqv`.
pub proof fn lemma_rdiv_congruence(a: RatVal, a2: RatVal, b: RatVal)
    requires
        a.eqv(a2),
        b.num != 0,
        b.den != 0,
    ensures
        a.rdiv(b).eqv(a2.rdiv(b)),
{
    lemma_rdiv_congruence_ints(a.num, a.den, a2.num, a2.den, b.num, b.den);
}

/// The cross-multiplied form of `lemma_rdiv_congruence`, over plain integers,
/// covering both signs of the divisor's numerator.
proof fn lemma_rdiv_congruence_ints(an: int, ad: int, cn: int, cd: int, bn: int, bd: int)
    by (nonlinear_arith)
    requires
        an * cd == cn * ad,
    ensures
        (an * bd) * (cd * bn) == (cn * bd) * (ad * bn),
        (-(an * bd)) * (-(cd * bn)) == (-(cn * bd)) * (-(ad * bn)),
{
}

/// A product of nonzero factors is nonzero.
pub proof fn lemma_nonzero_mul(a: int, b: int)
    by (nonlinear_arith)
    requires
        a != 0,
        b != 0,
    ensures
        a * b != 0,
{
}

/// `rsub` of a fixed subtrahend respects `eqv`.
pub proof fn lemma_rsub_congruence(a: RatVal, a2: RatVal, o: RatVal)
    requires
        a.eqv(a2),
        o.den != 0,
    ensures
        a.rsub(o).eqv(a2.rsub(o)),
{
    lemma_rsub_congruence_ints(a.num, a.den, a2.num, a2.den, o.num, o.den);
}

/// The cross-multiplied form of `lemma_rsub_congruence`, over plain integers.
#[verifier::rlimit(100)]
proof fn lemma_rsub_congruence_ints(an: int, ad: int, bn: int, bd: int, on: int, od: int)
    by (nonlinear_arith)
    requires
        an * bd == bn * ad,
    ensures
        (an * od - on * ad) * (bd * od) == (bn * od - on * bd) * (ad * od),
{
}

/// Magnitude bound on a product, from magnitude bounds on its factors.
pub proof fn lemma_mul_bound(x: int, y: int, bx: int, by: int)
    by (nonlinear_arith)
    requires
        -bx <= x <= bx,
        -by <= y <= by,
        bx >= 0,
        by >= 0,
    ensures
        -(bx * by) <= x * y <= bx * by,
{
}

/// Of two well-formed rationals, one is `<=` the other.
pub proof fn lemma_le_total(a: RatVal, b: RatVal)
    requires
        a.wf(),
        b.wf(),
    ensures
        a.le(b) || b.le(a),
{
}

/// For nonnegative `a` and `c` with `a <= c * d`, the rounded quotient stays
/// below `c`; in particular it is nonnegative.
pub proof fn lemma_div_round_range(a: int, d: int, c: int)
    requires
        d >= 1,
        c >= 0,
        0 <= a <= c * d,
    ensures
        0 <= spec_div_round(a, d) <= c,
{
    assert(2 * a + d <= 2 * d * c + d) by (nonlinear_arith)
        requires
            a <= c * d,
            d >= 1;
    assert((2 * a + d) / (2 * d) <= (2 * d * c + d) / (2 * d)) by {
        vstd::arithmetic::div_mod::lemma_div_is_ordered(2 * a + d, 2 * d * c + d, 2 * d);
    }
    assert((2 * d * c + d) / (2 * d) == c) by {
        vstd::arithmetic::div_mod::lemma_div_multiples_vanish_fancy(c, d, 2 * d);
    }
    assert((2 * a + d) / (2 * d) >= 0) by {
        vstd::arithmetic::div_mod::lemma_div_pos_is_pos(2 * a + d, 2 * d);
    }
}

} // verus!
