//! Exact extended-rational numbers.
//!
//! Every quantity handled by the engine is a [`Value`]: a ratio of two
//! machine integers with a positive denominator, one of the two signed
//! infinities, or the undefined value `Nan`.  The infinities and `Nan`
//! arise from division by zero and from results too large to represent,
//! mirroring how IEEE special values arise in floating-point pipelines;
//! they propagate through arithmetic and are never selected by the
//! extremum searches unless nothing else is available.

use vstd::prelude::*;

verus! {

/// Mathematical model of a [`Value`]: an exact rational with unbounded
/// integer components, a signed infinity, or the undefined value.
pub enum SpecNum {
    Finite { num: int, den: int },
    PosInf,
    NegInf,
    Nan,
}

impl SpecNum {
    /// Well-formed: a finite value keeps a positive denominator.
    pub open spec fn wf(self) -> bool {
        match self {
            SpecNum::Finite { num, den } => den >= 1,
            _ => true,
        }
    }

    /// The components of a finite value fit the machine representation.
    pub open spec fn representable(self) -> bool {
        match self {
            SpecNum::Finite { num, den } => {
                &&& i64::MIN <= num <= i64::MAX
                &&& 1 <= den <= i64::MAX
            },
            _ => true,
        }
    }

    /// A result whose components overflow the machine representation
    /// collapses to the undefined value.
    pub open spec fn clamp(self) -> SpecNum {
        if self.representable() {
            self
        } else {
            SpecNum::Nan
        }
    }

    /// Position of each variant in the extremum orders: the finite values
    /// sit between the infinities.
    pub open spec fn band(self) -> int {
        match self {
            SpecNum::NegInf => 0,
            SpecNum::Finite { num, den } => 1,
            SpecNum::PosInf => 2,
            SpecNum::Nan => 3,
        }
    }
}

/// Exact sum, with the IEEE rules for the special values: the undefined
/// value absorbs everything, and opposite infinities cancel to undefined.
pub open spec fn rat_add(a: SpecNum, b: SpecNum) -> SpecNum {
    match a {
        SpecNum::Nan => SpecNum::Nan,
        SpecNum::PosInf => match b {
            SpecNum::Nan => SpecNum::Nan,
            SpecNum::NegInf => SpecNum::Nan,
            _ => SpecNum::PosInf,
        },
        SpecNum::NegInf => match b {
            SpecNum::Nan => SpecNum::Nan,
            SpecNum::PosInf => SpecNum::Nan,
            _ => SpecNum::NegInf,
        },
        SpecNum::Finite { num: an, den: ad } => match b {
            SpecNum::Nan => SpecNum::Nan,
            SpecNum::PosInf => SpecNum::PosInf,
            SpecNum::NegInf => SpecNum::NegInf,
            SpecNum::Finite { num: bn, den: bd } => {
                if ad == bd {
                    SpecNum::Finite { num: an + bn, den: ad }
                } else {
                    SpecNum::Finite { num: an * bd + bn * ad, den: ad * bd }
                }
            },
        },
    }
}

/// Exact difference, with the IEEE rules for the special values.
pub open spec fn rat_sub(a: SpecNum, b: SpecNum) -> SpecNum {
    rat_add(a, rat_neg(b))
}

/// Exact negation; infinities swap sign and undefined stays undefined.
pub open spec fn rat_neg(a: SpecNum) -> SpecNum {
    match a {
        SpecNum::Nan => SpecNum::Nan,
        SpecNum::PosInf => SpecNum::NegInf,
        SpecNum::NegInf => SpecNum::PosInf,
        SpecNum::Finite { num, den } => SpecNum::Finite { num: -num, den },
    }
}

/// Sign of a value: -1, 0 or 1 for finite values, the sign of the
/// infinity otherwise, and 0 for the undefined value.
pub open spec fn rat_sign(a: SpecNum) -> int {
    match a {
        SpecNum::Nan => 0,
        SpecNum::PosInf => 1,
        SpecNum::NegInf => -1,
        SpecNum::Finite { num, den } => {
            if num > 0 {
                1
            } else if num < 0 {
                -1
            } else {
                0
            }
        },
    }
}

/// Exact product, with the IEEE rules: an infinity times zero is
/// undefined, otherwise signs multiply.
pub open spec fn rat_mul(a: SpecNum, b: SpecNum) -> SpecNum {
    match a {
        SpecNum::Nan => SpecNum::Nan,
        SpecNum::PosInf => inf_times(rat_sign(b), b is Nan),
        SpecNum::NegInf => inf_times(-rat_sign(b), b is Nan),
        SpecNum::Finite { num: an, den: ad } => match b {
            SpecNum::Nan => SpecNum::Nan,
            SpecNum::PosInf => inf_times(rat_sign(a), false),
            SpecNum::NegInf => inf_times(-rat_sign(a), false),
            SpecNum::Finite { num: bn, den: bd } => SpecNum::Finite {
                num: an * bn,
                den: ad * bd,
            },
        },
    }
}

/// An infinity scaled by a sign: undefined when the other factor is zero
/// or undefined.
pub open spec fn inf_times(sign: int, other_nan: bool) -> SpecNum {
    if other_nan || sign == 0 {
        SpecNum::Nan
    } else if sign > 0 {
        SpecNum::PosInf
    } else {
        SpecNum::NegInf
    }
}

/// Exact quotient, with the IEEE rules: a nonzero finite value over zero
/// is the infinity of its sign, zero over zero is undefined, an infinity
/// over an infinity is undefined, and a finite value over an infinity is
/// zero.
pub open spec fn rat_div(a: SpecNum, b: SpecNum) -> SpecNum {
    match a {
        SpecNum::Nan => SpecNum::Nan,
        SpecNum::PosInf => match b {
            SpecNum::Finite { num: bn, den: bd } => {
                if bn >= 0 {
                    SpecNum::PosInf
                } else {
                    SpecNum::NegInf
                }
            },
            _ => SpecNum::Nan,
        },
        SpecNum::NegInf => match b {
            SpecNum::Finite { num: bn, den: bd } => {
                if bn >= 0 {
                    SpecNum::NegInf
                } else {
                    SpecNum::PosInf
                }
            },
            _ => SpecNum::Nan,
        },
        SpecNum::Finite { num: an, den: ad } => match b {
            SpecNum::Nan => SpecNum::Nan,
            SpecNum::PosInf => SpecNum::Finite { num: 0, den: 1 },
            SpecNum::NegInf => SpecNum::Finite { num: 0, den: 1 },
            SpecNum::Finite { num: bn, den: bd } => {
                if bn == 0 {
                    if an == 0 {
                        SpecNum::Nan
                    } else if an > 0 {
                        SpecNum::PosInf
                    } else {
                        SpecNum::NegInf
                    }
                } else if bn > 0 {
                    SpecNum::Finite { num: an * bd, den: ad * bn }
                } else {
                    SpecNum::Finite { num: -(an * bd), den: -(ad * bn) }
                }
            },
        },
    }
}

/// The two values denote the same extended number; finite values compare
/// by cross-multiplication, and undefined matches only undefined.
pub open spec fn rat_same(a: SpecNum, b: SpecNum) -> bool {
    match a {
        SpecNum::Nan => b is Nan,
        SpecNum::PosInf => b is PosInf,
        SpecNum::NegInf => b is NegInf,
        SpecNum::Finite { num: an, den: ad } => match b {
            SpecNum::Finite { num: bn, den: bd } => an * bd == bn * ad,
            _ => false,
        },
    }
}

/// Strict order used by maximum searches: the undefined value sorts below
/// everything, then negative infinity, the finite values, and positive
/// infinity.  A candidate that compares as undefined therefore never
/// displaces a defined one.
pub open spec fn below_in_max_order(a: SpecNum, b: SpecNum) -> bool {
    if a is Nan {
        !(b is Nan)
    } else if b is Nan {
        false
    } else if a.band() != b.band() {
        a.band() < b.band()
    } else {
        match (a, b) {
            (
                SpecNum::Finite { num: an, den: ad },
                SpecNum::Finite { num: bn, den: bd },
            ) => an * bd < bn * ad,
            _ => false,
        }
    }
}

/// Strict order used by minimum searches: as the maximum order, except
/// that the undefined value sorts above everything, so it never displaces
/// a defined candidate from a minimum either.
pub open spec fn below_in_min_order(a: SpecNum, b: SpecNum) -> bool {
    if b is Nan {
        !(a is Nan)
    } else if a is Nan {
        false
    } else {
        below_in_max_order(a, b)
    }
}

/// Machine representation of a [`Value`].
#[derive(Clone, Copy, Debug)]
enum Rep {
    Finite { num: i64, den: i64 },
    PosInf,
    NegInf,
    Nan,
}

/// A numeric value of the engine: an exact machine-integer ratio with a
/// positive denominator, a signed infinity, or the undefined value.
#[derive(Clone, Copy, Debug)]
pub struct Value {
    rep: Rep,
}

impl View for Value {
    type V = SpecNum;

    closed spec fn view(&self) -> SpecNum {
        match self.rep {
            Rep::Finite { num, den } => SpecNum::Finite {
                num: num as int,
                den: den as int,
            },
            Rep::PosInf => SpecNum::PosInf,
            Rep::NegInf => SpecNum::NegInf,
            Rep::Nan => SpecNum::Nan,
        }
    }
}

/// Bound on the magnitude of a product of two terms.
proof fn lemma_abs_mul_bound(a: int, b: int, bound_a: int, bound_b: int)
    requires
        -bound_a <= a <= bound_a,
        -bound_b <= b <= bound_b,
        0 <= bound_a,
        0 <= bound_b,
    ensures
        -(bound_a * bound_b) <= a * b <= bound_a * bound_b,
{
    assert(-(bound_a * bound_b) <= a * b <= bound_a * bound_b) by (nonlinear_arith)
        requires
            -bound_a <= a <= bound_a,
            -bound_b <= b <= bound_b,
            0 <= bound_a,
            0 <= bound_b,
    ;
}

/// Sign of a product with a positive left factor.
proof fn lemma_mul_sign(a: int, b: int)
    requires
        a >= 1,
    ensures
        b >= 1 ==> a * b >= 1,
        b <= -1 ==> a * b <= -1,
{
    assert(b >= 1 ==> a * b >= 1) by (nonlinear_arith)
        requires
            a >= 1,
    ;
    assert(b <= -1 ==> a * b <= -1) by (nonlinear_arith)
        requires
            a >= 1,
    ;
}

/// A product of two positive terms is positive.
proof fn lemma_pos_mul_pos(a: int, b: int)
    requires
        a >= 1,
        b >= 1,
    ensures
        a * b >= 1,
{
    assert(a * b >= 1) by (nonlinear_arith)
        requires
            a >= 1,
            b >= 1,
    ;
}

impl Value {
    #[verifier::type_invariant]
    closed spec fn type_inv(self) -> bool {
        self@.wf()
    }

    /// The exact value of a machine integer.
    pub fn from_int(i: i64) -> (r: Value)
        ensures
            r@ == (SpecNum::Finite { num: i as int, den: 1 }),
    {
        Value { rep: Rep::Finite { num: i, den: 1 } }
    }

    /// The exact ratio of two machine integers; the denominator must be
    /// positive, and anything else yields the undefined value.
    pub fn from_parts(num: i64, den: i64) -> (r: Value)
        ensures
            den >= 1 ==> r@ == (SpecNum::Finite { num: num as int, den: den as int }),
            den < 1 ==> r@ == SpecNum::Nan,
    {
        if den >= 1 {
            Value { rep: Rep::Finite { num, den } }
        } else {
            Value { rep: Rep::Nan }
        }
    }

    /// The exact value zero.
    pub fn zero() -> (r: Value)
        ensures
            r@ == (SpecNum::Finite { num: 0, den: 1 }),
    {
        Value { rep: Rep::Finite { num: 0, den: 1 } }
    }

    /// The undefined value.
    pub fn undefined() -> (r: Value)
        ensures
            r@ == SpecNum::Nan,
    {
        Value { rep: Rep::Nan }
    }

    /// The positive infinity.
    pub fn pos_inf() -> (r: Value)
        ensures
            r@ == SpecNum::PosInf,
    {
        Value { rep: Rep::PosInf }
    }

    /// The negative infinity.
    pub fn neg_inf() -> (r: Value)
        ensures
            r@ == SpecNum::NegInf,
    {
        Value { rep: Rep::NegInf }
    }

    /// Whether this value is the undefined value.
    pub fn is_undefined(&self) -> (r: bool)
        ensures
            r == (self@ is Nan),
    {
        matches!(self.rep, Rep::Nan)
    }

    /// Whether this value is finite.
    pub fn is_finite(&self) -> (r: bool)
        ensures
            r == (self@ is Finite),
    {
        matches!(self.rep, Rep::Finite { .. })
    }

    /// Whether this value is the positive infinity.
    pub fn is_pos_inf(&self) -> (r: bool)
        ensures
            r == (self@ is PosInf),
    {
        matches!(self.rep, Rep::PosInf)
    }

    /// Whether this value is the negative infinity.
    pub fn is_neg_inf(&self) -> (r: bool)
        ensures
            r == (self@ is NegInf),
    {
        matches!(self.rep, Rep::NegInf)
    }

    /// The numerator and denominator of a finite value; the denominator
    /// is positive.
    pub fn finite_parts(&self) -> (r: (i64, i64))
        requires
            self@ is Finite,
        ensures
            self@ == (SpecNum::Finite { num: r.0 as int, den: r.1 as int }),
            r.1 >= 1,
    {
        proof {
            use_type_invariant(*self);
        }
        match self.rep {
            Rep::Finite { num, den } => (num, den),
            _ => (0, 1),
        }
    }

    /// Build a finite value from exact wide components, collapsing to the
    /// undefined value whenever a component overflows the machine range.
    fn from_wide(num: i128, den: i128) -> (r: Value)
        requires
            den >= 1,
        ensures
            r@ == (SpecNum::Finite { num: num as int, den: den as int }).clamp(),
    {
        if num < i64::MIN as i128 || num > i64::MAX as i128 || den > i64::MAX as i128 {
            Value { rep: Rep::Nan }
        } else {
            Value { rep: Rep::Finite { num: num as i64, den: den as i64 } }
        }
    }

    /// Sum; overflow of the exact result yields the undefined value.
    pub fn add(self, other: Value) -> (r: Value)
        ensures
            r@ == rat_add(self@, other@).clamp(),
    {
        proof {
            use_type_invariant(self);
            use_type_invariant(other);
        }
        match (self.rep, other.rep) {
            (Rep::Nan, _) => Value { rep: Rep::Nan },
            (_, Rep::Nan) => Value { rep: Rep::Nan },
            (Rep::PosInf, Rep::NegInf) => Value { rep: Rep::Nan },
            (Rep::NegInf, Rep::PosInf) => Value { rep: Rep::Nan },
            (Rep::PosInf, _) => Value { rep: Rep::PosInf },
            (_, Rep::PosInf) => Value { rep: Rep::PosInf },
            (Rep::NegInf, _) => Value { rep: Rep::NegInf },
            (_, Rep::NegInf) => Value { rep: Rep::NegInf },
            (Rep::Finite { num: an, den: ad }, Rep::Finite { num: bn, den: bd }) => {
                if ad == bd {
                    Value::from_wide(an as i128 + bn as i128, ad as i128)
                } else {
                    proof {
                        lemma_abs_mul_bound(an as int, bd as int, i64::MAX as int + 1, i64::MAX as int);
                        lemma_abs_mul_bound(bn as int, ad as int, i64::MAX as int + 1, i64::MAX as int);
                        lemma_abs_mul_bound(ad as int, bd as int, i64::MAX as int, i64::MAX as int);
                        lemma_pos_mul_pos(ad as int, bd as int);
                    }
                    let n = an as i128 * bd as i128 + bn as i128 * ad as i128;
                    let d = ad as i128 * bd as i128;
                    Value::from_wide(n, d)
                }
            },
        }
    }

    /// Difference; overflow of the exact result yields the undefined value.
    pub fn sub(self, other: Value) -> (r: Value)
        ensures
            r@ == rat_sub(self@, other@).clamp(),
    {
        proof {
            use_type_invariant(self);
            use_type_invariant(other);
        }
        match (self.rep, other.rep) {
            (Rep::Nan, _) => Value { rep: Rep::Nan },
            (_, Rep::Nan) => Value { rep: Rep::Nan },
            (Rep::PosInf, Rep::PosInf) => Value { rep: Rep::Nan },
            (Rep::NegInf, Rep::NegInf) => Value { rep: Rep::Nan },
            (Rep::PosInf, _) => Value { rep: Rep::PosInf },
            (_, Rep::PosInf) => Value { rep: Rep::NegInf },
            (Rep::NegInf, _) => Value { rep: Rep::NegInf },
            (_, Rep::NegInf) => Value { rep: Rep::PosInf },
            (Rep::Finite { num: an, den: ad }, Rep::Finite { num: bn, den: bd }) => {
                if ad == bd {
                    Value::from_wide(an as i128 - bn as i128, ad as i128)
                } else {
                    proof {
                        lemma_abs_mul_bound(an as int, bd as int, i64::MAX as int + 1, i64::MAX as int);
                        lemma_abs_mul_bound(bn as int, ad as int, i64::MAX as int + 1, i64::MAX as int);
                        lemma_abs_mul_bound(ad as int, bd as int, i64::MAX as int, i64::MAX as int);
                        lemma_pos_mul_pos(ad as int, bd as int);
                        assert((-(bn as int)) * (ad as int) == -((bn as int) * (ad as int)))
                            by (nonlinear_arith);
                    }
                    let n = an as i128 * bd as i128 - bn as i128 * ad as i128;
                    let d = ad as i128 * bd as i128;
                    Value::from_wide(n, d)
                }
            },
        }
    }

    /// Negation; a numerator at the very bottom of the machine range has no
    /// representable opposite and yields the undefined value.
    pub fn neg(self) -> (r: Value)
        ensures
            r@ == rat_neg(self@).clamp(),
    {
        proof {
            use_type_invariant(self);
        }
        match self.rep {
            Rep::Nan => Value { rep: Rep::Nan },
            Rep::PosInf => Value { rep: Rep::NegInf },
            Rep::NegInf => Value { rep: Rep::PosInf },
            Rep::Finite { num, den } => {
                if num == i64::MIN {
                    Value { rep: Rep::Nan }
                } else {
                    Value { rep: Rep::Finite { num: -num, den } }
                }
            },
        }
    }

    /// Comparison of this value with zero, as -1, 0 or 1; the undefined
    /// value reports 0.
    fn sign(&self) -> (r: i64)
        ensures
            r as int == rat_sign(self@),
    {
        match self.rep {
            Rep::Nan => 0,
            Rep::PosInf => 1,
            Rep::NegInf => -1,
            Rep::Finite { num, den } => {
                if num > 0 {
                    1
                } else if num < 0 {
                    -1
                } else {
                    0
                }
            },
        }
    }

    /// Product; overflow of the exact result yields the undefined value.
    pub fn mul(self, other: Value) -> (r: Value)
        ensures
            r@ == rat_mul(self@, other@).clamp(),
    {
        proof {
            use_type_invariant(self);
            use_type_invariant(other);
        }
        match (self.rep, other.rep) {
            (Rep::Nan, _) => Value { rep: Rep::Nan },
            (_, Rep::Nan) => Value { rep: Rep::Nan },
            (Rep::PosInf, _) => {
                let s = other.sign();
                if s == 0 {
                    Value { rep: Rep::Nan }
                } else if s > 0 {
                    Value { rep: Rep::PosInf }
                } else {
                    Value { rep: Rep::NegInf }
                }
            },
            (Rep::NegInf, _) => {
                let s = other.sign();
                if s == 0 {
                    Value { rep: Rep::Nan }
                } else if s > 0 {
                    Value { rep: Rep::NegInf }
                } else {
                    Value { rep: Rep::PosInf }
                }
            },
            (_, Rep::PosInf) => {
                let s = self.sign();
                if s == 0 {
                    Value { rep: Rep::Nan }
                } else if s > 0 {
                    Value { rep: Rep::PosInf }
                } else {
                    Value { rep: Rep::NegInf }
                }
            },
            (_, Rep::NegInf) => {
                let s = self.sign();
                if s == 0 {
                    Value { rep: Rep::Nan }
                } else if s > 0 {
                    Value { rep: Rep::NegInf }
                } else {
                    Value { rep: Rep::PosInf }
                }
            },
            (Rep::Finite { num: an, den: ad }, Rep::Finite { num: bn, den: bd }) => {
                proof {
                    lemma_abs_mul_bound(an as int, bn as int, i64::MAX as int + 1, i64::MAX as int + 1);
                    lemma_abs_mul_bound(ad as int, bd as int, i64::MAX as int, i64::MAX as int);
                    lemma_pos_mul_pos(ad as int, bd as int);
                }
                Value::from_wide(an as i128 * bn as i128, ad as i128 * bd as i128)
            },
        }
    }

    /// Quotient; division by zero yields the infinity of the numerator's
    /// sign, or the undefined value for zero over zero, and overflow of the
    /// exact result yields the undefined value.
    pub fn div(self, other: Value) -> (r: Value)
        ensures
            r@ == rat_div(self@, other@).clamp(),
    {
        proof {
            use_type_invariant(self);
            use_type_invariant(other);
        }
        match (self.rep, other.rep) {
            (Rep::Nan, _) => Value { rep: Rep::Nan },
            (_, Rep::Nan) => Value { rep: Rep::Nan },
            (Rep::PosInf, Rep::Finite { num: bn, den: bd }) => {
                if bn >= 0 {
                    Value { rep: Rep::PosInf }
                } else {
                    Value { rep: Rep::NegInf }
                }
            },
            (Rep::NegInf, Rep::Finite { num: bn, den: bd }) => {
                if bn >= 0 {
                    Value { rep: Rep::NegInf }
                } else {
                    Value { rep: Rep::PosInf }
                }
            },
            (Rep::PosInf, _) => Value { rep: Rep::Nan },
            (Rep::NegInf, _) => Value { rep: Rep::Nan },
            (Rep::Finite { num: an, den: ad }, Rep::PosInf) => Value::zero(),
            (Rep::Finite { num: an, den: ad }, Rep::NegInf) => Value::zero(),
            (Rep::Finite { num: an, den: ad }, Rep::Finite { num: bn, den: bd }) => {
                if bn == 0 {
                    if an == 0 {
                        Value { rep: Rep::Nan }
                    } else if an > 0 {
                        Value { rep: Rep::PosInf }
                    } else {
                        Value { rep: Rep::NegInf }
                    }
                } else {
                    proof {
                        lemma_abs_mul_bound(an as int, bd as int, i64::MAX as int + 1, i64::MAX as int);
                        lemma_abs_mul_bound(ad as int, bn as int, i64::MAX as int, i64::MAX as int + 1);
                        lemma_mul_sign(ad as int, bn as int);
                    }
                    let n = an as i128 * bd as i128;
                    let d = ad as i128 * bn as i128;
                    if d < 0 {
                        Value::from_wide(-n, -d)
                    } else {
                        Value::from_wide(n, d)
                    }
                }
            },
        }
    }

    /// The two values denote the same extended number.
    pub fn same_value(&self, other: &Value) -> (r: bool)
        ensures
            r == rat_same(self@, other@),
    {
        proof {
            use_type_invariant(*self);
            use_type_invariant(*other);
        }
        match (self.rep, other.rep) {
            (Rep::Nan, Rep::Nan) => true,
            (Rep::PosInf, Rep::PosInf) => true,
            (Rep::NegInf, Rep::NegInf) => true,
            (Rep::Finite { num: an, den: ad }, Rep::Finite { num: bn, den: bd }) => {
                proof {
                    lemma_abs_mul_bound(an as int, bd as int, i64::MAX as int + 1, i64::MAX as int);
                    lemma_abs_mul_bound(bn as int, ad as int, i64::MAX as int + 1, i64::MAX as int);
                }
                an as i128 * bd as i128 == bn as i128 * ad as i128
            },
            _ => false,
        }
    }

    /// Whether `self` sorts strictly below `other` in the maximum-search
    /// order, where the undefined value sorts below everything.
    pub fn below_for_max(&self, other: &Value) -> (r: bool)
        ensures
            r == below_in_max_order(self@, other@),
    {
        proof {
            use_type_invariant(*self);
            use_type_invariant(*other);
        }
        match (self.rep, other.rep) {
            (Rep::Nan, Rep::Nan) => false,
            (Rep::Nan, _) => true,
            (_, Rep::Nan) => false,
            (Rep::NegInf, Rep::NegInf) => false,
            (Rep::NegInf, _) => true,
            (_, Rep::NegInf) => false,
            (Rep::PosInf, _) => false,
            (_, Rep::PosInf) => true,
            (Rep::Finite { num: an, den: ad }, Rep::Finite { num: bn, den: bd }) => {
                proof {
                    lemma_abs_mul_bound(an as int, bd as int, i64::MAX as int + 1, i64::MAX as int);
                    lemma_abs_mul_bound(bn as int, ad as int, i64::MAX as int + 1, i64::MAX as int);
                }
                (an as i128 * bd as i128) < (bn as i128 * ad as i128)
            },
        }
    }

    /// Whether `self` sorts strictly below `other` in the minimum-search
    /// order, where the undefined value sorts above everything.
    pub fn below_for_min(&self, other: &Value) -> (r: bool)
        ensures
            r == below_in_min_order(self@, other@),
    {
        proof {
            use_type_invariant(*self);
            use_type_invariant(*other);
        }
        match (self.rep, other.rep) {
            (Rep::Nan, Rep::Nan) => false,
            (_, Rep::Nan) => true,
            (Rep::Nan, _) => false,
            _ => self.below_for_max(other),
        }
    }
}

/// Transitivity of the maximum-search order, in strict and non-strict
/// form, for well-formed values.
pub proof fn lemma_max_order_trans(a: SpecNum, b: SpecNum, c: SpecNum)
    requires
        a.wf(),
        b.wf(),
        c.wf(),
    ensures
        below_in_max_order(a, b) && below_in_max_order(b, c) ==> below_in_max_order(a, c),
        !below_in_max_order(a, b) && !below_in_max_order(b, c) ==> !below_in_max_order(a, c),
{
    match (a, b, c) {
        (
            SpecNum::Finite { num: an, den: ad },
            SpecNum::Finite { num: bn, den: bd },
            SpecNum::Finite { num: cn, den: cd },
        ) => {
            assert(an * bd < bn * ad && bn * cd < cn * bd ==> an * cd < cn * ad)
                by (nonlinear_arith)
                requires
                    ad >= 1,
                    bd >= 1,
                    cd >= 1,
            ;
            assert(!(an * bd < bn * ad) && !(bn * cd < cn * bd) ==> !(an * cd < cn * ad))
                by (nonlinear_arith)
                requires
                    ad >= 1,
                    bd >= 1,
                    cd >= 1,
            ;
        },
        _ => {},
    }
}

/// Transitivity of the minimum-search order, in strict and non-strict
/// form, for well-formed values.
pub proof fn lemma_min_order_trans(a: SpecNum, b: SpecNum, c: SpecNum)
    requires
        a.wf(),
        b.wf(),
        c.wf(),
    ensures
        below_in_min_order(a, b) && below_in_min_order(b, c) ==> below_in_min_order(a, c),
        !below_in_min_order(a, b) && !below_in_min_order(b, c) ==> !below_in_min_order(a, c),
{
    lemma_max_order_trans(a, b, c);
}

/// Every element of the sequence is well-formed.
pub open spec fn all_wf(s: Seq<SpecNum>) -> bool {
    forall|i: int| 0 <= i < s.len() ==> (#[trigger] s[i]).wf()
}

/// The value a maximum search over `s` settles on: each element displaces
/// the running value unless that value sorts strictly above it, so among
/// equals the last wins, and the undefined value never displaces a
/// defined one.
pub open spec fn run_max(s: Seq<SpecNum>) -> SpecNum
    decreases s.len(),
{
    if s.len() <= 1 {
        s[0]
    } else {
        let p = run_max(s.drop_last());
        if below_in_max_order(s.last(), p) {
            p
        } else {
            s.last()
        }
    }
}

/// The value a minimum search over `s` settles on: an element displaces
/// the running value only by sorting strictly below it, so among equals
/// the first wins, and the undefined value never displaces a defined one.
pub open spec fn run_min(s: Seq<SpecNum>) -> SpecNum
    decreases s.len(),
{
    if s.len() <= 1 {
        s[0]
    } else {
        let p = run_min(s.drop_last());
        if below_in_min_order(s.last(), p) {
            s.last()
        } else {
            p
        }
    }
}

/// The index a maximum search over `s` settles on; `s[run_max_idx(s)]`
/// is `run_max(s)`.
pub open spec fn run_max_idx(s: Seq<SpecNum>) -> int
    decreases s.len(),
{
    if s.len() <= 1 {
        0
    } else {
        let p = run_max_idx(s.drop_last());
        if below_in_max_order(s.last(), s[p]) {
            p
        } else {
            s.len() - 1
        }
    }
}

/// The index a minimum search over `s` settles on; `s[run_min_idx(s)]`
/// is `run_min(s)`.
pub open spec fn run_min_idx(s: Seq<SpecNum>) -> int
    decreases s.len(),
{
    if s.len() <= 1 {
        0
    } else {
        let p = run_min_idx(s.drop_last());
        if below_in_min_order(s.last(), s[p]) {
            s.len() - 1
        } else {
            p
        }
    }
}

/// A maximum search lands on the element at its chosen index.
pub proof fn lemma_run_max_chooses(s: Seq<SpecNum>)
    requires
        s.len() >= 1,
    ensures
        0 <= run_max_idx(s) < s.len(),
        run_max(s) == s[run_max_idx(s)],
    decreases s.len(),
{
    if s.len() <= 1 {
    } else {
        lemma_run_max_chooses(s.drop_last());
        assert(forall|i: int| 0 <= i < s.len() - 1 ==> s.drop_last()[i] == s[i]);
    }
}

/// A minimum search lands on the element at its chosen index.
pub proof fn lemma_run_min_chooses(s: Seq<SpecNum>)
    requires
        s.len() >= 1,
    ensures
        0 <= run_min_idx(s) < s.len(),
        run_min(s) == s[run_min_idx(s)],
    decreases s.len(),
{
    if s.len() <= 1 {
    } else {
        lemma_run_min_chooses(s.drop_last());
        assert(forall|i: int| 0 <= i < s.len() - 1 ==> s.drop_last()[i] == s[i]);
    }
}

/// A maximum search lands on an element of the sequence, and no element
/// sorts strictly above it: in particular it is never the undefined value
/// while any defined element is present.
pub proof fn lemma_run_max_is_max(s: Seq<SpecNum>)
    requires
        s.len() >= 1,
        all_wf(s),
    ensures
        0 <= run_max_idx(s) < s.len(),
        run_max(s) == s[run_max_idx(s)],
        forall|i: int| 0 <= i < s.len() ==> !below_in_max_order(run_max(s), #[trigger] s[i]),
    decreases s.len(),
{
    if s.len() <= 1 {
    } else {
        let t = s.drop_last();
        assert(all_wf(t)) by {
            assert(forall|i: int| 0 <= i < t.len() ==> t[i] == s[i]);
        }
        lemma_run_max_is_max(t);
        let p = run_max(t);
        let last = s.last();
        assert(forall|i: int| 0 <= i < t.len() ==> t[i] == s[i]);
        if below_in_max_order(last, p) {
        } else {
            assert forall|i: int| 0 <= i < s.len() implies !below_in_max_order(
                run_max(s),
                #[trigger] s[i],
            ) by {
                if i < s.len() - 1 {
                    lemma_max_order_trans(last, p, s[i]);
                }
            }
        }
    }
}

/// A minimum search lands on an element of the sequence, and no element
/// sorts strictly below it: in particular it is never the undefined value
/// while any defined element is present.
pub proof fn lemma_run_min_is_min(s: Seq<SpecNum>)
    requires
        s.len() >= 1,
        all_wf(s),
    ensures
        0 <= run_min_idx(s) < s.len(),
        run_min(s) == s[run_min_idx(s)],
        forall|i: int| 0 <= i < s.len() ==> !below_in_min_order(#[trigger] s[i], run_min(s)),
    decreases s.len(),
{
    if s.len() <= 1 {
    } else {
        let t = s.drop_last();
        assert(all_wf(t)) by {
            assert(forall|i: int| 0 <= i < t.len() ==> t[i] == s[i]);
        }
        lemma_run_min_is_min(t);
        let p = run_min(t);
        let last = s.last();
        assert(forall|i: int| 0 <= i < t.len() ==> t[i] == s[i]);
        if below_in_min_order(last, p) {
            assert forall|i: int| 0 <= i < s.len() implies !below_in_min_order(
                #[trigger] s[i],
                run_min(s),
            ) by {
                if i < s.len() - 1 {
                    lemma_min_order_trans(s[i], last, p);
                }
            }
        } else {
        }
    }
}

impl Default for Value {
    /// The default value is exact zero, as a default floating-point
    /// quantity would be.
    fn default() -> (r: Value)
        ensures
            r@ == (SpecNum::Finite { num: 0, den: 1 }),
    {
        Value::zero()
    }
}

} // verus!
