//! Moments within a simulation step, as exact fractions of the step on the
//! extended rational line.
use vstd::prelude::*;

verus! {

/// A moment on the extended rational line: minus infinity, the fraction
/// `num / den` of a step, or plus infinity.
pub ghost enum Moment {
    NegInf,
    At { num: int, den: int },
    PosInf,
}

impl Moment {
    /// A fraction is well formed when its denominator is positive.
    pub open spec fn wf(self) -> bool {
        self matches Moment::At { den, .. } ==> den > 0
    }

    /// Strict order on the extended line, comparing fractions by
    /// cross-multiplication.
    pub open spec fn lt(self, other: Moment) -> bool {
        match self {
            Moment::NegInf => !(other is NegInf),
            Moment::At { num, den } => match other {
                Moment::NegInf => false,
                Moment::At { num: n2, den: d2 } => num * d2 < n2 * den,
                Moment::PosInf => true,
            },
            Moment::PosInf => false,
        }
    }

    /// Non-strict order on the extended line.
    pub open spec fn le(self, other: Moment) -> bool {
        !other.lt(self)
    }

    /// The larger of two moments; the first one when they are equal.
    pub open spec fn max(self, other: Moment) -> Moment {
        if self.lt(other) { other } else { self }
    }

    /// The smaller of two moments; the first one when they are equal.
    pub open spec fn min(self, other: Moment) -> Moment {
        if other.lt(self) { other } else { self }
    }
}

/// The start of the step.
pub open spec fn start() -> Moment {
    Moment::At { num: 0, den: 1 }
}

/// The end of the step.
pub open spec fn end() -> Moment {
    Moment::At { num: 1, den: 1 }
}

/// A moment as computed at run time: minus infinity, the fraction
/// `num / den` of a step, or plus infinity.
#[derive(Clone, Copy, Debug, PartialEq, Eq, Structural)]
pub enum Time {
    NegInfinity,
    At { num: i64, den: i64 },
    PosInfinity,
}

impl View for Time {
    type V = Moment;

    open spec fn view(&self) -> Moment {
        match *self {
            Time::NegInfinity => Moment::NegInf,
            Time::At { num, den } => Moment::At { num: num as int, den: den as int },
            Time::PosInfinity => Moment::PosInf,
        }
    }
}

impl Time {
    /// Whether this moment comes strictly before `other`.
    pub fn lt(&self, other: &Time) -> (r: bool)
        ensures
            r == self@.lt(other@),
    {
        match (*self, *other) {
            (Time::NegInfinity, Time::NegInfinity) => false,
            (Time::NegInfinity, _) => true,
            (Time::At { .. }, Time::NegInfinity) => false,
            (Time::At { num, den }, Time::At { num: n2, den: d2 }) => {
                proof {
                    lemma_i64_product_fits(num, d2);
                    lemma_i64_product_fits(n2, den);
                }
                let lhs = num as i128 * d2 as i128;
                let rhs = n2 as i128 * den as i128;
                lhs < rhs
            },
            (Time::At { .. }, Time::PosInfinity) => true,
            (Time::PosInfinity, _) => false,
        }
    }
}

/// The product of two 64-bit integers fits in 128 bits.
pub proof fn lemma_i64_product_fits(a: i64, b: i64)
    ensures
        i128::MIN <= a * b <= i128::MAX,
{
    let m: int = 0x8000_0000_0000_0000;
    assert(-(m * m) <= a * b <= m * m) by (nonlinear_arith)
        requires
            -m <= a <= m,
            -m <= b <= m,
    ;
}

/// The order on well-formed moments is strict and total: no moment comes
/// before itself, of two moments at most one comes before the other, and
/// two fractions that neither precede the other are equal in value. Minus
/// infinity comes before every other moment and plus infinity after.
pub proof fn lemma_lt_strict_total(a: Moment, b: Moment)
    requires
        a.wf(),
        b.wf(),
    ensures
        !a.lt(a),
        !(a.lt(b) && b.lt(a)),
        a.lt(b) || b.lt(a) || a.le(b) && b.le(a),
        a is At && b is At && !a.lt(b) && !b.lt(a) ==> a->num * b->den == b->num * a->den,
        !(a is NegInf) ==> Moment::NegInf.lt(a),
        !(a is PosInf) ==> a.lt(Moment::PosInf),
{
}

/// Order on well-formed moments is transitive across two non-strict steps.
pub proof fn lemma_le_trans(a: Moment, b: Moment, c: Moment)
    requires
        a.wf(),
        b.wf(),
        c.wf(),
        a.le(b),
        b.le(c),
    ensures
        a.le(c),
{
    if let (Moment::At { num: an, den: ad }, Moment::At { num: bn, den: bd }, Moment::At {
        num: cn,
        den: cd,
    }) = (a, b, c) {
        assert(an * cd <= cn * ad) by (nonlinear_arith)
            requires
                ad > 0,
                bd > 0,
                cd > 0,
                an * bd <= bn * ad,
                bn * cd <= cn * bd,
        ;
    }
}

/// Order on well-formed moments is transitive across a strict and a
/// non-strict step.
pub proof fn lemma_lt_le_trans(a: Moment, b: Moment, c: Moment)
    requires
        a.wf(),
        b.wf(),
        c.wf(),
        a.lt(b),
        b.le(c),
    ensures
        a.lt(c),
{
    if let (Moment::At { num: an, den: ad }, Moment::At { num: bn, den: bd }, Moment::At {
        num: cn,
        den: cd,
    }) = (a, b, c) {
        assert(an * cd < cn * ad) by (nonlinear_arith)
            requires
                ad > 0,
                bd > 0,
                cd > 0,
                an * bd < bn * ad,
                bn * cd <= cn * bd,
        ;
    }
}

} // verus!
