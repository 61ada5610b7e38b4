//! Points and straight lines.

use vstd::prelude::*;
use crate::num_format::{append_chars, format_fixed, format_value, pow10, pow10_u128};
use crate::text::string_from_chars;
use crate::value::{SpecNum, Value, rat_add, rat_div, rat_mul, rat_sub};

verus! {

/// A simple point in the plane.
#[derive(Clone, Copy, Debug)]
pub struct Point {
    pub x: Value,
    pub y: Value,
}

/// A straight line, as a gradient and a y-intercept.
#[derive(Clone, Copy, Debug)]
pub struct Line {
    pub gradient: Value,
    pub y_intercept: Value,
}

/// Gradient of the line through two points: the exact quotient of the
/// coordinate differences, so an infinity when only the x-coordinates
/// agree and undefined when the points coincide.
pub open spec fn spec_gradient(fx: SpecNum, fy: SpecNum, lx: SpecNum, ly: SpecNum) -> SpecNum {
    rat_div(rat_sub(ly, fy).clamp(), rat_sub(lx, fx).clamp()).clamp()
}

/// Intercept of the line through two points, taken at the second point.
pub open spec fn spec_intercept(fx: SpecNum, fy: SpecNum, lx: SpecNum, ly: SpecNum) -> SpecNum {
    rat_sub(ly, rat_mul(spec_gradient(fx, fy, lx, ly), lx).clamp()).clamp()
}

/// The y-value a line takes at a given x.
pub open spec fn spec_line_y(gradient: SpecNum, y_intercept: SpecNum, x: SpecNum) -> SpecNum {
    rat_add(rat_mul(gradient, x).clamp(), y_intercept).clamp()
}

impl Line {
    /// Construct the line through two points: gradient from the coordinate
    /// differences, intercept read off at the second point.  The gradient
    /// is an infinity or undefined when the x-coordinates coincide.
    pub fn from_points(first: Point, last: Point) -> (r: Line)
        ensures
            r.gradient@ == spec_gradient(first.x@, first.y@, last.x@, last.y@),
            r.y_intercept@ == spec_intercept(first.x@, first.y@, last.x@, last.y@),
    {
        let dx = last.x.sub(first.x);
        let dy = last.y.sub(first.y);
        let b = dy.div(dx);
        Line { gradient: b, y_intercept: last.y.sub(b.mul(last.x)) }
    }

    /// The y-value of this line at the given x.
    pub fn y(&self, x: Value) -> (r: Value)
        ensures
            r@ == spec_line_y(self.gradient@, self.y_intercept@, x@),
    {
        self.gradient.mul(x).add(self.y_intercept)
    }
}

/// The legend text for the intercept term: a plus sign and the rendered
/// intercept when the intercept is at least the smallest shown resolution
/// (ten to the minus precision), the rendered negative intercept when it
/// is at most minus that resolution, and nothing when its magnitude falls
/// below the resolution or it is undefined.
pub open spec fn spec_intercept_part(c: SpecNum, p: nat) -> Seq<char> {
    match c {
        SpecNum::Nan => Seq::empty(),
        SpecNum::PosInf => seq!['+', 'i', 'n', 'f'],
        SpecNum::NegInf => seq!['-', 'i', 'n', 'f'],
        SpecNum::Finite { num, den } => {
            if num >= 0 && num * pow10(p) >= den {
                seq!['+'] + format_fixed(c, p)
            } else if num < 0 && (-num) * pow10(p) >= den {
                format_fixed(c, p)
            } else {
                Seq::empty()
            }
        },
    }
}

/// The legend text for a line: `y = `, the gradient at the given
/// precision, `x`, and the intercept term as [`spec_intercept_part`]
/// describes.
pub open spec fn spec_line_display(g: SpecNum, c: SpecNum, p: nat) -> Seq<char> {
    seq!['y', ' ', '=', ' '] + format_fixed(g, p) + seq!['x'] + spec_intercept_part(c, p)
}

impl Line {
    /// The legend text for this line, as [`spec_line_display`] describes:
    /// gradient and intercept rendered with the given number of decimal
    /// digits, the intercept term suppressed when its magnitude falls
    /// below ten to the minus precision.
    pub fn display_precision(&self, precision: usize) -> (r: String)
        requires
            precision <= 18,
        ensures
            r@ == spec_line_display(self.gradient@, self.y_intercept@, precision as nat),
    {
        let mut out: Vec<char> = Vec::new();
        out.push('y');
        out.push(' ');
        out.push('=');
        out.push(' ');
        let gtext = format_value(&self.gradient, precision);
        append_chars(&mut out, &gtext);
        out.push('x');
        let c = &self.y_intercept;
        if c.is_finite() {
            let (num, den) = c.finite_parts();
            let pw = pow10_u128(precision);
            if num >= 0 {
                proof {
                    assert((num as nat) * (pw as nat) <= 0x8000_0000_0000_0000nat
                        * 0x0DE0_B6B3_A764_0000nat) by (nonlinear_arith)
                        requires
                            num as nat <= 0x8000_0000_0000_0000nat,
                            pw as nat <= 0x0DE0_B6B3_A764_0000nat,
                    ;
                }
                if (num as u128) * pw >= den as u128 {
                    out.push('+');
                    let ctext = format_value(c, precision);
                    append_chars(&mut out, &ctext);
                }
            } else {
                let num_abs: u128 = (-(num as i128)) as u128;
                proof {
                    assert((num_abs as nat) * (pw as nat) <= 0x8000_0000_0000_0000nat
                        * 0x0DE0_B6B3_A764_0000nat) by (nonlinear_arith)
                        requires
                            num_abs as nat <= 0x8000_0000_0000_0000nat,
                            pw as nat <= 0x0DE0_B6B3_A764_0000nat,
                    ;
                }
                if num_abs * pw >= den as u128 {
                    let ctext = format_value(c, precision);
                    append_chars(&mut out, &ctext);
                }
            }
        } else if c.is_pos_inf() {
            out.push('+');
            out.push('i');
            out.push('n');
            out.push('f');
        } else if c.is_neg_inf() {
            out.push('-');
            out.push('i');
            out.push('n');
            out.push('f');
        }
        proof {
            assert(out@ =~= spec_line_display(
                self.gradient@,
                self.y_intercept@,
                precision as nat,
            ));
        }
        string_from_chars(&out)
    }

    /// The legend text for this line at the default precision of six
    /// decimal digits.
    pub fn display(&self) -> (r: String)
        ensures
            r@ == spec_line_display(self.gradient@, self.y_intercept@, 6),
    {
        self.display_precision(6)
    }
}

impl Default for Point {
    /// The origin.
    fn default() -> (r: Point)
        ensures
            r.x@ == (SpecNum::Finite { num: 0, den: 1 }),
            r.y@ == (SpecNum::Finite { num: 0, den: 1 }),
    {
        Point { x: Value::zero(), y: Value::zero() }
    }
}

impl Default for Line {
    /// The zero line.
    fn default() -> (r: Line)
        ensures
            r.gradient@ == (SpecNum::Finite { num: 0, den: 1 }),
            r.y_intercept@ == (SpecNum::Finite { num: 0, den: 1 }),
    {
        Line { gradient: Value::zero(), y_intercept: Value::zero() }
    }
}

} // verus!
