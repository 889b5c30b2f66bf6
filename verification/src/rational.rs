//! Exact rational arithmetic over `i128` numerator/denominator pairs.
//!
//! The mathematical model is the ghost pair [`Qv`] of unbounded integers with a
//! positive denominator; two pairs denote the same rational exactly when
//! [`q_eq`] holds.  Executable operations return `None` precisely when the
//! exact result (or one of the products formed on the way to it) falls outside
//! the `i128` range, and otherwise return the exact, unreduced result.

use vstd::prelude::*;

verus! {

/// Mathematical value of a rational: numerator `n` over denominator `d`.
pub ghost struct Qv {
    pub n: int,
    pub d: int,
}

/// A well-formed rational keeps its denominator positive.
pub open spec fn q_wf(a: Qv) -> bool {
    a.d > 0
}

/// The rational `n / 1`.
pub open spec fn q_int(n: int) -> Qv {
    Qv { n: n, d: 1 }
}

pub open spec fn q_zero() -> Qv {
    q_int(0)
}

pub open spec fn q_one() -> Qv {
    q_int(1)
}

/// Equality of the denoted rationals, by cross multiplication.
pub open spec fn q_eq(a: Qv, b: Qv) -> bool {
    a.n * b.d == b.n * a.d
}

/// Strict order of the denoted rationals; meaningful for positive denominators.
pub open spec fn q_lt(a: Qv, b: Qv) -> bool {
    a.n * b.d < b.n * a.d
}

pub open spec fn q_le(a: Qv, b: Qv) -> bool {
    a.n * b.d <= b.n * a.d
}

pub open spec fn q_add(a: Qv, b: Qv) -> Qv {
    Qv { n: a.n * b.d + b.n * a.d, d: a.d * b.d }
}

pub open spec fn q_sub(a: Qv, b: Qv) -> Qv {
    Qv { n: a.n * b.d - b.n * a.d, d: a.d * b.d }
}

pub open spec fn q_mul(a: Qv, b: Qv) -> Qv {
    Qv { n: a.n * b.n, d: a.d * b.d }
}

/// The reciprocal, with the sign moved to the numerator so that the
/// denominator stays positive whenever `b.n != 0`.
pub open spec fn q_inv(b: Qv) -> Qv {
    if b.n >= 0 {
        Qv { n: b.d, d: b.n }
    } else {
        Qv { n: -b.d, d: -b.n }
    }
}

pub open spec fn q_div(a: Qv, b: Qv) -> Qv {
    q_mul(a, q_inv(b))
}

/// `a` raised to the `k`-th power.
pub open spec fn q_pow(a: Qv, k: nat) -> Qv
    decreases k,
{
    if k == 0 {
        q_one()
    } else {
        q_mul(q_pow(a, (k - 1) as nat), a)
    }
}

/// Whether an unbounded integer is representable as an `i128`.
pub open spec fn i128_fits(x: int) -> bool {
    i128::MIN <= x <= i128::MAX
}

/// Whether both components of a pair are representable as `i128`.
pub open spec fn q_fits(a: Qv) -> bool {
    i128_fits(a.n) && i128_fits(a.d)
}

/// Exact condition under which adding two representable rationals stays
/// representable: the final components and both cross products fit.
pub open spec fn q_add_fits(a: Qv, b: Qv) -> bool {
    i128_fits(a.n * b.d) && i128_fits(b.n * a.d) && q_fits(q_add(a, b))
}

/// Exact condition under which subtracting stays representable.
pub open spec fn q_sub_fits(a: Qv, b: Qv) -> bool {
    i128_fits(a.n * b.d) && i128_fits(b.n * a.d) && q_fits(q_sub(a, b))
}

/// Exact condition under which multiplying stays representable.
pub open spec fn q_mul_fits(a: Qv, b: Qv) -> bool {
    q_fits(q_mul(a, b))
}

/// Exact condition under which dividing stays representable: both cross
/// products fit and, after moving the divisor's sign, so does the result.
pub open spec fn q_div_fits(a: Qv, b: Qv) -> bool {
    i128_fits(a.n * b.d) && i128_fits(a.d * b.n) && q_fits(q_div(a, b))
}

/// Exact condition under which every power of `a` up to the `k`-th is
/// representable.
pub open spec fn q_pow_fits(a: Qv, k: nat) -> bool {
    forall|j: nat| #![trigger q_pow(a, j)] 1 <= j <= k ==> q_fits(q_pow(a, j))
}

/// Powers of a positive rational are positive in both components.
pub proof fn lemma_q_pow_pos(a: Qv, k: nat)
    requires
        a.n > 0,
        a.d > 0,
    ensures
        q_pow(a, k).n > 0,
        q_pow(a, k).d > 0,
    decreases k,
{
    if k > 0 {
        lemma_q_pow_pos(a, (k - 1) as nat);
        let p = q_pow(a, (k - 1) as nat);
        assert(p.n * a.n > 0 && p.d * a.d > 0) by (nonlinear_arith)
            requires
                p.n > 0,
                p.d > 0,
                a.n > 0,
                a.d > 0,
        ;
    }
}

/// An exact rational number: an `i128` numerator over a positive `i128`
/// denominator.  Values are kept exact and never rounded; an operation whose
/// exact result does not fit the representation reports `None` instead.
#[derive(Clone, Copy)]
pub struct Rat {
    n: i128,
    d: i128,
}

impl View for Rat {
    type V = Qv;

    closed spec fn view(&self) -> Qv {
        Qv { n: self.n as int, d: self.d as int }
    }
}

impl Rat {
    /// A `Rat` is well formed when its denominator is positive; every value
    /// this module hands out is.
    pub open spec fn wf(&self) -> bool {
        q_wf(self@)
    }

    /// The rational `n / d`.  Fails exactly when `d` is zero, or when `d` is
    /// negative and moving the sign to the numerator would overflow.
    pub fn new(n: i128, d: i128) -> (r: Option<Rat>)
        ensures
            r is Some <==> d != 0 && !(d < 0 && (n == i128::MIN || d == i128::MIN)),
            r matches Some(v) ==> v.wf() && q_eq(v@, Qv { n: n as int, d: d as int }),
            r matches Some(v) ==> (d > 0 ==> v@ == (Qv { n: n as int, d: d as int })),
    {
        if d > 0 {
            Some(Rat { n, d })
        } else if d == 0 || n == i128::MIN || d == i128::MIN {
            None
        } else {
            proof {
                assert((-n) * (d as int) == n * (-d as int)) by (nonlinear_arith);
            }
            Some(Rat { n: -n, d: -d })
        }
    }

    /// The rational `n / 1`.
    pub fn from_int(n: i128) -> (r: Rat)
        ensures
            r.wf(),
            r@ == q_int(n as int),
    {
        Rat { n, d: 1 }
    }

    /// The numerator as stored.
    pub fn num(&self) -> (r: i128)
        ensures
            r as int == self@.n,
    {
        self.n
    }

    /// The denominator as stored.
    pub fn den(&self) -> (r: i128)
        ensures
            r as int == self@.d,
    {
        self.d
    }

    /// Whether the value is strictly positive.
    pub fn is_pos(&self) -> (r: bool)
        requires
            self.wf(),
        ensures
            r == q_lt(q_zero(), self@),
    {
        self.n > 0
    }

    /// Whether the value is strictly negative.
    pub fn is_neg(&self) -> (r: bool)
        requires
            self.wf(),
        ensures
            r == q_lt(self@, q_zero()),
    {
        self.n < 0
    }

    /// Whether the value is zero.
    pub fn is_zero(&self) -> (r: bool)
        requires
            self.wf(),
        ensures
            r == q_eq(self@, q_zero()),
    {
        self.n == 0
    }

    /// Exact sum; `None` exactly when a cross product or a component of the
    /// exact result leaves the `i128` range.
    pub fn add(&self, other: &Rat) -> (r: Option<Rat>)
        requires
            self.wf(),
            other.wf(),
        ensures
            r is Some <==> q_add_fits(self@, other@),
            r matches Some(v) ==> v.wf() && v@ == q_add(self@, other@),
    {
        let p1 = match self.n.checked_mul(other.d) {
            Some(x) => x,
            None => return None,
        };
        let p2 = match other.n.checked_mul(self.d) {
            Some(x) => x,
            None => return None,
        };
        let n = match p1.checked_add(p2) {
            Some(x) => x,
            None => return None,
        };
        let d = match self.d.checked_mul(other.d) {
            Some(x) => x,
            None => return None,
        };
        proof {
            assert(self@.d * other@.d > 0) by (nonlinear_arith)
                requires
                    self@.d > 0,
                    other@.d > 0,
            ;
        }
        Some(Rat { n, d })
    }

    /// Exact difference; `None` exactly when a cross product or a component of
    /// the exact result leaves the `i128` range.
    pub fn sub(&self, other: &Rat) -> (r: Option<Rat>)
        requires
            self.wf(),
            other.wf(),
        ensures
            r is Some <==> q_sub_fits(self@, other@),
            r matches Some(v) ==> v.wf() && v@ == q_sub(self@, other@),
    {
        let p1 = match self.n.checked_mul(other.d) {
            Some(x) => x,
            None => return None,
        };
        let p2 = match other.n.checked_mul(self.d) {
            Some(x) => x,
            None => return None,
        };
        let n = match p1.checked_sub(p2) {
            Some(x) => x,
            None => return None,
        };
        let d = match self.d.checked_mul(other.d) {
            Some(x) => x,
            None => return None,
        };
        proof {
            assert(self@.d * other@.d > 0) by (nonlinear_arith)
                requires
                    self@.d > 0,
                    other@.d > 0,
            ;
        }
        Some(Rat { n, d })
    }

    /// Exact product; `None` exactly when a component of the exact result
    /// leaves the `i128` range.
    pub fn mul(&self, other: &Rat) -> (r: Option<Rat>)
        requires
            self.wf(),
            other.wf(),
        ensures
            r is Some <==> q_mul_fits(self@, other@),
            r matches Some(v) ==> v.wf() && v@ == q_mul(self@, other@),
    {
        let n = match self.n.checked_mul(other.n) {
            Some(x) => x,
            None => return None,
        };
        let d = match self.d.checked_mul(other.d) {
            Some(x) => x,
            None => return None,
        };
        proof {
            assert(self@.d * other@.d > 0) by (nonlinear_arith)
                requires
                    self@.d > 0,
                    other@.d > 0,
            ;
        }
        Some(Rat { n, d })
    }

    /// Exact quotient; `None` exactly when the divisor is zero or a component
    /// of the exact result leaves the `i128` range.
    pub fn div(&self, other: &Rat) -> (r: Option<Rat>)
        requires
            self.wf(),
            other.wf(),
        ensures
            r is Some <==> other@.n != 0 && q_div_fits(self@, other@),
            r matches Some(v) ==> v.wf() && v@ == q_div(self@, other@),
    {
        if other.n == 0 {
            return None;
        }
        let p1 = match self.n.checked_mul(other.d) {
            Some(x) => x,
            None => return None,
        };
        let p2 = match self.d.checked_mul(other.n) {
            Some(x) => x,
            None => return None,
        };
        if other.n > 0 {
            proof {
                assert(self@.d * other@.n > 0) by (nonlinear_arith)
                    requires
                        self@.d > 0,
                        other@.n > 0,
                ;
            }
            Some(Rat { n: p1, d: p2 })
        } else {
            proof {
                assert(self@.n * (-other@.d) == -(self@.n * other@.d)
                    && self@.d * (-other@.n) == -(self@.d * other@.n)
                    && self@.d * (-other@.n) > 0) by (nonlinear_arith)
                    requires
                        self@.d > 0,
                        other@.d > 0,
                        other@.n < 0,
                ;
            }
            let n = match 0i128.checked_sub(p1) {
                Some(x) => x,
                None => return None,
            };
            let d = match 0i128.checked_sub(p2) {
                Some(x) => x,
                None => return None,
            };
            Some(Rat { n, d })
        }
    }

    /// Exact `e`-th power; `None` exactly when some intermediate power leaves
    /// the `i128` range.
    pub fn pow(&self, e: u32) -> (r: Option<Rat>)
        requires
            self.wf(),
        ensures
            r is Some <==> q_pow_fits(self@, e as nat),
            r matches Some(v) ==> v.wf() && v@ == q_pow(self@, e as nat),
    {
        let mut acc = Rat::from_int(1);
        let mut i: u32 = 0;
        while i < e
            invariant
                i <= e,
                self.wf(),
                acc.wf(),
                acc@ == q_pow(self@, i as nat),
                forall|j: nat| #![trigger q_pow(self@, j)] 1 <= j <= i ==> q_fits(
                    q_pow(self@, j),
                ),
            decreases e - i,
        {
            proof {
                assert(q_pow(self@, (i + 1) as nat) == q_mul(q_pow(self@, i as nat), self@));
            }
            let next = match acc.mul(self) {
                Some(v) => v,
                None => {
                    proof {
                        assert(!q_fits(q_pow(self@, (i + 1) as nat)));
                    }
                    return None;
                },
            };
            acc = next;
            i = i + 1;
            proof {
                assert(q_fits(q_pow(self@, i as nat)));
            }
        }
        Some(acc)
    }
}

} // verus!
