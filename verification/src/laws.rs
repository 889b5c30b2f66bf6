//! General laws of the valuation formulas, proved once and for all over the
//! mathematical model: they hold of every bond the engine accepts, not only
//! of the inputs a test happens to pick.

use vstd::prelude::*;

use vstd::arithmetic::power::{pow, lemma_pow_positive, lemma_pow_distributes};

use crate::rational::{
    Qv, q_int, q_zero, q_one, q_eq, q_lt, q_le, q_add, q_mul, q_div, q_pow,
    lemma_q_pow_pos,
};
use crate::bond::{
    BondV, CompoundingFreq, valid_bond, spec_periods, hundred_p, periodic_rate, growth,
    lemma_growth_components, discount_factor, n_periods, pow_sum, periodic_coupon,
    spec_coupon_payment, discounted_coupon_sum, spec_ear, one_plus_ear, spec_face_term,
    spec_present_value,
};

verus! {

/// The `n`-th power of a pair, componentwise: `q_pow` raises the numerator
/// and the denominator to the power separately.
proof fn lemma_q_pow_components(a: Qv, k: nat)
    ensures
        q_pow(a, k).n == pow(a.n, k),
        q_pow(a, k).d == pow(a.d, k),
    decreases k,
{
    reveal(pow);
    if k > 0 {
        lemma_q_pow_components(a, (k - 1) as nat);
        assert(pow(a.n, (k - 1) as nat) * a.n == a.n * pow(a.n, (k - 1) as nat))
            by (nonlinear_arith);
        assert(pow(a.d, (k - 1) as nat) * a.d == a.d * pow(a.d, (k - 1) as nat))
            by (nonlinear_arith);
    }
}

/// A zero-coupon bond: the coupon stream is worth exactly nothing, and the
/// present value reduces to the face value discounted at the effective annual
/// rate over the whole maturity.
pub proof fn lemma_zero_coupon_bond(b: BondV)
    requires
        valid_bond(b),
        q_eq(b.coupon_rate, q_zero()),
    ensures
        q_eq(spec_coupon_payment(b), q_zero()),
        q_eq(spec_present_value(b), spec_face_term(b)),
{
    let cr = b.coupon_rate;
    let fv = b.face_value;
    assert(cr.n == 0);
    assert(fv.n * 0 == 0) by (nonlinear_arith);
    assert(q_mul(fv, cr).n == 0);
    assert(periodic_coupon(b).n == 0);
    let cp = spec_coupon_payment(b);
    assert(cp.n == 0) by (nonlinear_arith)
        requires
            cp.n == periodic_coupon(b).n * pow_sum_n(b),
            periodic_coupon(b).n == 0,
    ;
    let ft = spec_face_term(b);
    assert(spec_present_value(b) == q_add(cp, ft));
    assert((0 * ft.d + ft.n * cp.d) * ft.d == ft.n * (cp.d * ft.d)) by (nonlinear_arith);
}

/// Numerator of the annuity factor inside the coupon payment; named so a
/// nonlinear step can mention it as one symbol.
spec fn pow_sum_n(b: BondV) -> int {
    crate::bond::pow_sum(
        crate::bond::discount_factor(b),
        crate::bond::n_periods(b),
    ).n
}

/// Under annual compounding the effective annual rate is exactly the nominal
/// rate as a fraction, `discount_rate / 100`.
pub proof fn lemma_effective_rate_annual(b: BondV)
    requires
        valid_bond(b),
        b.freq == CompoundingFreq::Annual,
    ensures
        spec_ear(b) == q_div(b.discount_rate, q_int(100)),
{
    let g = growth(b);
    assert(q_pow(g, 0) == q_one());
    assert(q_pow(g, 1) == q_mul(q_pow(g, 0), g));
    assert(q_pow(g, 1) == (Qv { n: 1 * g.n, d: 1 * g.d }));
    let pr = periodic_rate(b);
    assert(spec_ear(b) == (Qv { n: g.n * 1 - 1 * g.d, d: g.d * 1 }));
    assert(g.n == 1 * pr.d + pr.n * 1 && g.d == 1 * pr.d);
    assert(spec_ear(b) == pr);
    assert(hundred_p(b) == q_int(100));
}

/// Strict integer Bernoulli bound: for positive `d` and `n` and `k >= 2`,
/// `(d + n)^k > d^(k-1) * (d + k n)`.
proof fn lemma_bernoulli_strict(d: int, n: int, k: nat)
    requires
        d > 0,
        n > 0,
        k >= 2,
    ensures
        pow(d + n, k) > pow(d, (k - 1) as nat) * (d + k * n),
    decreases k,
{
    reveal_with_fuel(pow, 3);
    if k == 2 {
        assert(pow(d + n, 2) == (d + n) * ((d + n) * 1));
        assert(pow(d, 1) == d * 1);
        assert((d + n) * ((d + n) * 1) > (d * 1) * (d + 2 * n)) by (nonlinear_arith)
            requires
                d > 0,
                n > 0,
        ;
    } else {
        lemma_bernoulli_strict(d, n, (k - 1) as nat);
        let pk1 = pow(d + n, (k - 1) as nat);
        let pd2 = pow(d, (k - 2) as nat);
        lemma_pow_positive(d, (k - 2) as nat);
        assert(pow(d + n, k) == (d + n) * pk1);
        assert(pow(d, (k - 1) as nat) == d * pd2);
        assert((d + n) * pk1 > (d + n) * (pd2 * (d + (k - 1) * n))) by (nonlinear_arith)
            requires
                pk1 > pd2 * (d + (k - 1) * n),
                d > 0,
                n > 0,
        ;
        assert((d + n) * (pd2 * (d + (k - 1) * n)) >= (d * pd2) * (d + k * n)) by (nonlinear_arith)
            requires
                d > 0,
                n > 0,
                pd2 > 0,
                k >= 3,
        ;
    }
}

/// Under any compounding faster than annual, the effective annual rate
/// strictly exceeds the nominal rate `discount_rate / 100` whenever the
/// discount rate is positive.
pub proof fn lemma_effective_rate_exceeds_nominal(b: BondV)
    requires
        valid_bond(b),
        b.freq != CompoundingFreq::Annual,
        q_lt(q_zero(), b.discount_rate),
    ensures
        q_lt(q_div(b.discount_rate, q_int(100)), spec_ear(b)),
{
    let p = spec_periods(b.freq);
    assert(p >= 2);
    let dr = b.discount_rate;
    let nn = dr.n;
    let dd = dr.d * (100 * p);
    assert(nn > 0);
    lemma_growth_components(b);
    assert(growth(b) == (Qv { n: dd + nn, d: dd }));
    lemma_q_pow_components(growth(b), p as nat);
    lemma_bernoulli_strict(dd, nn, p as nat);
    let pgn = pow(dd + nn, p as nat);
    let pd = pow(dd, (p - 1) as nat);
    lemma_pow_positive(dd, (p - 1) as nat);
    assert(pow(dd, p as nat) == dd * pd) by {
        reveal(pow);
    }
    assert(spec_ear(b) == (Qv { n: pgn * 1 - 1 * (dd * pd), d: (dd * pd) * 1 }));
    assert(q_div(dr, q_int(100)) == (Qv { n: nn * 1, d: dr.d * 100 }));
    assert((pgn - dd * pd) * (dr.d * 100) > (pd * (dd + p * nn) - dd * pd) * (dr.d * 100))
        by (nonlinear_arith)
        requires
            pgn > pd * (dd + p * nn),
            dr.d > 0,
    ;
    assert((pd * (dd + p * nn) - dd * pd) * (dr.d * 100) == nn * (dd * pd)) by (nonlinear_arith)
        requires
            dd == dr.d * (100 * p),
    ;
    assert(nn * ((dd * pd) * 1) < ((pgn * 1 - 1 * (dd * pd))) * (dr.d * 100)) by (nonlinear_arith)
        requires
            (pgn - dd * pd) * (dr.d * 100) > nn * (dd * pd),
    ;
}

/// Raising to a fixed positive power is strictly monotone in a positive base.
proof fn lemma_pow_base_strict(x: int, y: int, k: nat)
    requires
        0 < x,
        x < y,
        k >= 1,
    ensures
        pow(x, k) < pow(y, k),
    decreases k,
{
    reveal_with_fuel(pow, 2);
    if k == 1 {
        assert(pow(x, 1) == x * 1 && pow(y, 1) == y * 1);
    } else {
        lemma_pow_base_strict(x, y, (k - 1) as nat);
        lemma_pow_positive(x, (k - 1) as nat);
        assert(x * pow(x, (k - 1) as nat) < y * pow(y, (k - 1) as nat)) by (nonlinear_arith)
            requires
                0 < x,
                x < y,
                0 < pow(x, (k - 1) as nat),
                pow(x, (k - 1) as nat) < pow(y, (k - 1) as nat),
        ;
    }
}

/// `q_pow` is strictly monotone in a positive base, for a fixed positive
/// exponent.
proof fn lemma_q_pow_strict_mono(a: Qv, b: Qv, k: nat)
    requires
        a.n > 0,
        a.d > 0,
        b.n > 0,
        b.d > 0,
        q_lt(a, b),
        k >= 1,
    ensures
        q_lt(q_pow(a, k), q_pow(b, k)),
{
    lemma_q_pow_components(a, k);
    lemma_q_pow_components(b, k);
    lemma_pow_distributes(a.n, b.d, k);
    lemma_pow_distributes(b.n, a.d, k);
    assert(0 < a.n * b.d) by (nonlinear_arith)
        requires
            a.n > 0,
            b.d > 0,
    ;
    lemma_pow_base_strict(a.n * b.d, b.n * a.d, k);
}

/// Adding respects the (weak) order of both summands.
proof fn lemma_q_add_le(al: Qv, bl: Qv, ah: Qv, bh: Qv)
    requires
        al.d > 0,
        bl.d > 0,
        ah.d > 0,
        bh.d > 0,
        q_le(al, ah),
        q_le(bl, bh),
    ensures
        q_le(q_add(al, bl), q_add(ah, bh)),
{
    assert((al.n * ah.d) * (bl.d * bh.d) <= (ah.n * al.d) * (bh.d * bl.d)) by (nonlinear_arith)
        requires
            al.n * ah.d <= ah.n * al.d,
            bl.d > 0,
            bh.d > 0,
    ;
    assert((bl.n * bh.d) * (al.d * ah.d) <= (bh.n * bl.d) * (ah.d * al.d)) by (nonlinear_arith)
        requires
            bl.n * bh.d <= bh.n * bl.d,
            al.d > 0,
            ah.d > 0,
    ;
    lemma_q_add_cross(al, bl, ah, bh);
    lemma_q_add_cross(ah, bh, al, bl);
}

/// Cross-multiplied numerator of a sum against the other sum's denominator,
/// regrouped into comparable monomials.
proof fn lemma_q_add_cross(a: Qv, b: Qv, c: Qv, e: Qv)
    ensures
        q_add(a, b).n * q_add(c, e).d == (a.n * c.d) * (b.d * e.d) + (b.n * e.d) * (a.d * c.d),
{
    assert((a.n * b.d + b.n * a.d) * (c.d * e.d) == (a.n * b.d) * (c.d * e.d) + (b.n * a.d) * (c.d
        * e.d)) by (nonlinear_arith);
    assert((a.n * b.d) * (c.d * e.d) == (a.n * c.d) * (b.d * e.d)) by (nonlinear_arith);
    assert((b.n * a.d) * (c.d * e.d) == (b.n * e.d) * (a.d * c.d)) by (nonlinear_arith);
}

/// Adding a strictly smaller second summand to a no-larger first summand
/// gives a strictly smaller sum.
proof fn lemma_q_add_le_lt(al: Qv, bl: Qv, ah: Qv, bh: Qv)
    requires
        al.d > 0,
        bl.d > 0,
        ah.d > 0,
        bh.d > 0,
        q_le(al, ah),
        q_lt(bl, bh),
    ensures
        q_lt(q_add(al, bl), q_add(ah, bh)),
{
    assert((al.n * ah.d) * (bl.d * bh.d) <= (ah.n * al.d) * (bh.d * bl.d)) by (nonlinear_arith)
        requires
            al.n * ah.d <= ah.n * al.d,
            bl.d > 0,
            bh.d > 0,
    ;
    assert((bl.n * bh.d) * (al.d * ah.d) < (bh.n * bl.d) * (ah.d * al.d)) by (nonlinear_arith)
        requires
            bl.n * bh.d < bh.n * bl.d,
            al.d > 0,
            ah.d > 0,
    ;
    lemma_q_add_cross(al, bl, ah, bh);
    lemma_q_add_cross(ah, bh, al, bl);
}

/// Multiplying by a fixed nonnegative factor respects the weak order.
proof fn lemma_q_mul_le_left(c: Qv, x: Qv, y: Qv)
    requires
        c.n >= 0,
        c.d > 0,
        x.d > 0,
        y.d > 0,
        q_le(x, y),
    ensures
        q_le(q_mul(c, x), q_mul(c, y)),
{
    assert((c.n * x.n) * (c.d * y.d) <= (c.n * y.n) * (c.d * x.d)) by (nonlinear_arith)
        requires
            x.n * y.d <= y.n * x.d,
            c.n >= 0,
            c.d > 0,
            x.d > 0,
            y.d > 0,
    ;
}

/// Dividing a fixed positive value by a strictly larger positive divisor
/// gives a strictly smaller quotient.
proof fn lemma_q_div_anti(c: Qv, x: Qv, y: Qv)
    requires
        c.n > 0,
        c.d > 0,
        x.n > 0,
        x.d > 0,
        y.n > 0,
        y.d > 0,
        q_lt(x, y),
    ensures
        q_lt(q_div(c, y), q_div(c, x)),
{
    assert((c.n * y.d) * (c.d * x.n) < (c.n * x.d) * (c.d * y.n)) by (nonlinear_arith)
        requires
            x.n * y.d < y.n * x.d,
            c.n > 0,
            c.d > 0,
            x.n > 0,
            y.d > 0,
    ;
}

/// Sign facts about the annuity factor: the denominator stays positive, and
/// the numerator is nonnegative (strictly positive once a term exists).
proof fn lemma_pow_sum_pos(a: Qv, k: nat)
    requires
        a.n > 0,
        a.d > 0,
    ensures
        pow_sum(a, k).d > 0,
        pow_sum(a, k).n >= 0,
        k >= 1 ==> pow_sum(a, k).n > 0,
    decreases k,
{
    if k > 0 {
        lemma_pow_sum_pos(a, (k - 1) as nat);
        lemma_q_pow_pos(a, k);
        let ps = pow_sum(a, (k - 1) as nat);
        let qp = q_pow(a, k);
        assert(ps.n * qp.d + qp.n * ps.d > 0 && ps.d * qp.d > 0) by (nonlinear_arith)
            requires
                ps.n >= 0,
                ps.d > 0,
                qp.n > 0,
                qp.d > 0,
        ;
    }
}

/// The annuity factor is (weakly) monotone in the per-period factor.
proof fn lemma_pow_sum_mono(a: Qv, b: Qv, k: nat)
    requires
        a.n > 0,
        a.d > 0,
        b.n > 0,
        b.d > 0,
        q_lt(a, b),
    ensures
        q_le(pow_sum(a, k), pow_sum(b, k)),
    decreases k,
{
    if k > 0 {
        lemma_pow_sum_mono(a, b, (k - 1) as nat);
        lemma_q_pow_strict_mono(a, b, k);
        lemma_pow_sum_pos(a, (k - 1) as nat);
        lemma_pow_sum_pos(b, (k - 1) as nat);
        lemma_q_pow_pos(a, k);
        lemma_q_pow_pos(b, k);
        lemma_q_add_le(pow_sum(a, (k - 1) as nat), q_pow(a, k), pow_sum(b, (k - 1) as nat),
            q_pow(b, k));
    }
}

/// The compounding base grows strictly with the discount rate, all other
/// terms equal.
proof fn lemma_growth_strict_mono(b1: BondV, b2: BondV)
    requires
        valid_bond(b1),
        valid_bond(b2),
        b1.freq == b2.freq,
        q_lt(b1.discount_rate, b2.discount_rate),
    ensures
        q_lt(growth(b1), growth(b2)),
{
    let p = spec_periods(b1.freq);
    assert(p > 0);
    lemma_growth_components(b1);
    lemma_growth_components(b2);
    let n1 = b1.discount_rate.n;
    let d1 = b1.discount_rate.d;
    let n2 = b2.discount_rate.n;
    let d2 = b2.discount_rate.d;
    assert((d1 * (100 * p) + n1) * (d2 * (100 * p)) < (d2 * (100 * p) + n2) * (d1 * (100 * p)))
        by (nonlinear_arith)
        requires
            n1 * d2 < n2 * d1,
            d1 > 0,
            d2 > 0,
            p > 0,
    ;
}

/// The present value falls strictly as the discount rate rises, all other
/// terms of the bond held fixed.
pub proof fn lemma_present_value_strictly_decreasing(b1: BondV, b2: BondV)
    requires
        valid_bond(b1),
        valid_bond(b2),
        b1.coupon_rate == b2.coupon_rate,
        b1.maturity == b2.maturity,
        b1.face_value == b2.face_value,
        b1.freq == b2.freq,
        q_lt(b1.discount_rate, b2.discount_rate),
    ensures
        q_lt(spec_present_value(b2), spec_present_value(b1)),
{
    let p = spec_periods(b1.freq);
    assert(p >= 1);
    let fv = b1.face_value;
    let cr = b1.coupon_rate;
    assert(fv.n > 0);
    assert(cr.n >= 0);
    lemma_growth_components(b1);
    lemma_growth_components(b2);
    lemma_growth_strict_mono(b1, b2);
    let g1 = growth(b1);
    let g2 = growth(b2);

    // The one-period discount factors, in the opposite order.
    let df1 = discount_factor(b1);
    let df2 = discount_factor(b2);
    assert(df1 == (Qv { n: 1 * g1.d, d: 1 * g1.n }));
    assert(df2 == (Qv { n: 1 * g2.d, d: 1 * g2.n }));
    assert(g2.d * g1.n < g1.d * g2.n) by (nonlinear_arith)
        requires
            g1.n * g2.d < g2.n * g1.d,
    ;
    assert(q_lt(df2, df1));

    // The shared periodic coupon is nonnegative.
    let c = periodic_coupon(b1);
    assert(periodic_coupon(b2) == c);
    assert(c.n == (fv.n * cr.n) * 1 && c.d == (fv.d * cr.d) * (100 * p));
    assert(fv.n * cr.n >= 0 && fv.d * cr.d > 0 && (fv.d * cr.d) * (100 * p) > 0)
        by (nonlinear_arith)
        requires
            fv.n > 0,
            cr.n >= 0,
            fv.d > 0,
            cr.d > 0,
            p >= 1,
    ;
    assert(c.n >= 0 && c.d > 0) by (nonlinear_arith)
        requires
            c.n == (fv.n * cr.n) * 1,
            c.d == (fv.d * cr.d) * (100 * p),
            fv.n * cr.n >= 0,
            (fv.d * cr.d) * (100 * p) > 0,
    ;

    // Coupon streams: weakly decreasing.
    let nper = n_periods(b1);
    assert(n_periods(b2) == nper);
    lemma_pow_sum_mono(df2, df1, nper);
    lemma_pow_sum_pos(df1, nper);
    lemma_pow_sum_pos(df2, nper);
    lemma_q_mul_le_left(c, pow_sum(df2, nper), pow_sum(df1, nper));
    let cp1 = spec_coupon_payment(b1);
    let cp2 = spec_coupon_payment(b2);
    assert(q_le(cp2, cp1));
    assert(cp1.d > 0 && cp2.d > 0) by (nonlinear_arith)
        requires
            cp1.d == c.d * pow_sum(df1, nper).d,
            cp2.d == c.d * pow_sum(df2, nper).d,
            c.d > 0,
            pow_sum(df1, nper).d > 0,
            pow_sum(df2, nper).d > 0,
    ;

    // Face terms: strictly decreasing.
    lemma_q_pow_components(g1, p as nat);
    lemma_q_pow_components(g2, p as nat);
    assert(one_plus_ear(b1) == q_pow(g1, p as nat));
    assert(one_plus_ear(b2) == q_pow(g2, p as nat));
    lemma_q_pow_strict_mono(g1, g2, p as nat);
    lemma_q_pow_pos(g1, p as nat);
    lemma_q_pow_pos(g2, p as nat);
    let m = b1.maturity as nat;
    assert(m >= 1);
    lemma_q_pow_strict_mono(q_pow(g1, p as nat), q_pow(g2, p as nat), m);
    lemma_q_pow_pos(q_pow(g1, p as nat), m);
    lemma_q_pow_pos(q_pow(g2, p as nat), m);
    lemma_q_div_anti(fv, q_pow(q_pow(g1, p as nat), m), q_pow(q_pow(g2, p as nat), m));
    let ft1 = spec_face_term(b1);
    let ft2 = spec_face_term(b2);
    assert(q_lt(ft2, ft1));
    let pw1 = q_pow(q_pow(g1, p as nat), m);
    let pw2 = q_pow(q_pow(g2, p as nat), m);
    assert(ft1.d > 0 && ft2.d > 0) by (nonlinear_arith)
        requires
            ft1.d == fv.d * pw1.n,
            ft2.d == fv.d * pw2.n,
            fv.d > 0,
            pw1.n > 0,
            pw2.n > 0,
    ;

    // Total: a weakly smaller coupon stream plus a strictly smaller face
    // term is strictly smaller.
    lemma_q_add_le_lt(cp2, ft2, cp1, ft1);
}

/// Denotational equality is transitive across a well-formed middle value.
proof fn lemma_q_eq_trans(a: Qv, b: Qv, c: Qv)
    requires
        b.d > 0,
        q_eq(a, b),
        q_eq(b, c),
    ensures
        q_eq(a, c),
{
    assert((a.n * c.d) * b.d == (c.n * a.d) * b.d) by (nonlinear_arith)
        requires
            a.n * b.d == b.n * a.d,
            b.n * c.d == c.n * b.d,
    ;
    assert(a.n * c.d == c.n * a.d) by (nonlinear_arith)
        requires
            (a.n * c.d) * b.d == (c.n * a.d) * b.d,
            b.d > 0,
    ;
}

/// Multiplication distributes over addition, up to denotational equality.
proof fn lemma_q_mul_distributes(c: Qv, x: Qv, y: Qv)
    ensures
        q_eq(q_mul(c, q_add(x, y)), q_add(q_mul(c, x), q_mul(c, y))),
{
    let k = q_add(q_mul(c, x), q_mul(c, y)).d;
    let m = q_mul(c, q_add(x, y)).d;
    assert((c.n * (x.n * y.d + y.n * x.d)) * k == (c.n * (x.n * y.d)) * k + (c.n * (y.n * x.d))
        * k) by (nonlinear_arith);
    assert(((c.n * x.n) * (c.d * y.d)) * m + ((c.n * y.n) * (c.d * x.d)) * m == ((c.n * x.n) * (c.d
        * y.d) + (c.n * y.n) * (c.d * x.d)) * m) by (nonlinear_arith);
    assert((c.n * (x.n * y.d)) * ((c.d * x.d) * (c.d * y.d)) == ((c.n * x.n) * (c.d * y.d)) * (c.d
        * (x.d * y.d))) by (nonlinear_arith);
    assert((c.n * (y.n * x.d)) * ((c.d * x.d) * (c.d * y.d)) == ((c.n * y.n) * (c.d * x.d)) * (c.d
        * (x.d * y.d))) by (nonlinear_arith);
}

/// Replacing a summand by a denotationally equal one keeps the sum
/// denotationally equal.
proof fn lemma_q_add_congruence(x: Qv, x2: Qv, y: Qv)
    requires
        q_eq(x, x2),
    ensures
        q_eq(q_add(x, y), q_add(x2, y)),
{
    let k = x2.d * y.d;
    let m = x.d * y.d;
    assert((x.n * y.d + y.n * x.d) * k == (x.n * y.d) * k + (y.n * x.d) * k) by (nonlinear_arith);
    assert((x2.n * y.d + y.n * x2.d) * m == (x2.n * y.d) * m + (y.n * x2.d) * m)
        by (nonlinear_arith);
    assert((x.n * y.d) * (x2.d * y.d) == (x.n * x2.d) * (y.d * y.d)) by (nonlinear_arith);
    assert((x2.n * y.d) * (x.d * y.d) == (x2.n * x.d) * (y.d * y.d)) by (nonlinear_arith);
    assert((x.n * x2.d) * (y.d * y.d) == (x2.n * x.d) * (y.d * y.d)) by (nonlinear_arith)
        requires
            x.n * x2.d == x2.n * x.d,
    ;
    assert((y.n * x.d) * (x2.d * y.d) == (y.n * x2.d) * (x.d * y.d)) by (nonlinear_arith);
}

/// The periodic coupon keeps a positive denominator.
proof fn lemma_periodic_coupon_den(b: BondV)
    requires
        valid_bond(b),
    ensures
        periodic_coupon(b).d > 0,
{
    let p = spec_periods(b.freq);
    assert(p > 0);
    assert(periodic_coupon(b).d == (b.face_value.d * b.coupon_rate.d) * (100 * p));
    assert((b.face_value.d * b.coupon_rate.d) * (100 * p) > 0) by (nonlinear_arith)
        requires
            b.face_value.d > 0,
            b.coupon_rate.d > 0,
            p > 0,
    ;
}

/// One step of the bridge below: the coupon times the `k`-th power of the
/// discount factor is exactly the coupon discounted `k` periods.
proof fn lemma_discounted_term(b: BondV, k: nat)
    requires
        valid_bond(b),
    ensures
        q_mul(periodic_coupon(b), q_pow(discount_factor(b), k)) == q_div(
            periodic_coupon(b),
            q_pow(growth(b), k),
        ),
        q_pow(discount_factor(b), k).d > 0,
        q_div(periodic_coupon(b), q_pow(growth(b), k)).d > 0,
{
    lemma_growth_components(b);
    let g = growth(b);
    let df = discount_factor(b);
    assert(df.n == g.d && df.d == g.n);
    lemma_q_pow_components(df, k);
    lemma_q_pow_components(g, k);
    lemma_pow_positive(g.n, k);
    lemma_pow_positive(g.d, k);
    lemma_periodic_coupon_den(b);
    let c = periodic_coupon(b);
    assert(c.d * pow(g.n, k) > 0) by (nonlinear_arith)
        requires
            c.d > 0,
            pow(g.n, k) > 0,
    ;
}

/// The engine's annuity form of the coupon stream denotes exactly the
/// textbook sum of discounted coupons, term by term.
proof fn lemma_coupon_sum_bridge(b: BondV, k: nat)
    requires
        valid_bond(b),
    ensures
        q_eq(
            q_mul(periodic_coupon(b), pow_sum(discount_factor(b), k)),
            discounted_coupon_sum(b, k),
        ),
        discounted_coupon_sum(b, k).d > 0,
    decreases k,
{
    let c = periodic_coupon(b);
    lemma_periodic_coupon_den(b);
    lemma_growth_components(b);
    let df = discount_factor(b);
    lemma_q_pow_pos(df, k);
    if k == 0 {
        assert(pow_sum(df, 0) == q_zero());
        assert(discounted_coupon_sum(b, 0) == q_zero());
        assert(q_mul(c, q_zero()) == (Qv { n: c.n * 0, d: c.d * 1 }));
        assert((c.n * 0) * 1 == 0 * (c.d * 1)) by (nonlinear_arith);
        assert(q_eq(q_mul(c, pow_sum(df, 0)), discounted_coupon_sum(b, 0)));
    } else {
        lemma_coupon_sum_bridge(b, (k - 1) as nat);
        let ps = pow_sum(df, (k - 1) as nat);
        let y = q_pow(df, k);
        assert(pow_sum(df, k) == q_add(ps, y));
        assert(discounted_coupon_sum(b, k) == q_add(
            discounted_coupon_sum(b, (k - 1) as nat),
            q_div(c, q_pow(growth(b), k)),
        ));
        lemma_pow_sum_pos(df, (k - 1) as nat);
        lemma_discounted_term(b, k);
        lemma_q_mul_distributes(c, ps, y);
        lemma_q_add_congruence(q_mul(c, ps), discounted_coupon_sum(b, (k - 1) as nat), q_mul(c, y));
        let mid = q_add(q_mul(c, ps), q_mul(c, y));
        assert(mid.d > 0) by (nonlinear_arith)
            requires
                mid.d == (c.d * ps.d) * (c.d * y.d),
                c.d > 0,
                ps.d > 0,
                y.d > 0,
        ;
        lemma_q_eq_trans(
            q_mul(c, q_add(ps, y)),
            mid,
            q_add(discounted_coupon_sum(b, (k - 1) as nat), q_mul(c, y)),
        );
        assert(q_mul(c, pow_sum(df, k)) == q_mul(c, q_add(ps, y)));
        assert(q_add(discounted_coupon_sum(b, (k - 1) as nat), q_mul(c, y))
            == discounted_coupon_sum(b, k));
        assert(discounted_coupon_sum(b, k).d > 0) by (nonlinear_arith)
            requires
                discounted_coupon_sum(b, k).d == discounted_coupon_sum(b, (k - 1) as nat).d * q_div(
                    c,
                    q_pow(growth(b), k),
                ).d,
                discounted_coupon_sum(b, (k - 1) as nat).d > 0,
                q_div(c, q_pow(growth(b), k)).d > 0,
        ;
    }
}

/// The coupon payment is exactly the textbook sum of the periodic coupon
/// discounted period by period at the periodic nominal rate.
pub proof fn lemma_coupon_payment_is_discounted_sum(b: BondV)
    requires
        valid_bond(b),
    ensures
        q_eq(spec_coupon_payment(b), discounted_coupon_sum(b, n_periods(b))),
{
    lemma_coupon_sum_bridge(b, n_periods(b));
}

} // verus!
