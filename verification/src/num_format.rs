//! Fixed-precision decimal rendering of values.
//!
//! A finite value is printed with a fixed number of fractional digits,
//! rounding the exact rational to the nearest such decimal and breaking
//! ties toward an even last digit; the infinities print as `inf` and
//! `-inf`, and the undefined value as `NaN`, as floating-point values do.

use vstd::prelude::*;
use crate::value::{SpecNum, Value};

verus! {

/// The character for one decimal digit value.
pub open spec fn digit_char(d: nat) -> char {
    if d == 0 {
        '0'
    } else if d == 1 {
        '1'
    } else if d == 2 {
        '2'
    } else if d == 3 {
        '3'
    } else if d == 4 {
        '4'
    } else if d == 5 {
        '5'
    } else if d == 6 {
        '6'
    } else if d == 7 {
        '7'
    } else if d == 8 {
        '8'
    } else {
        '9'
    }
}

/// The decimal digits of `n`, most significant first.
pub open spec fn dec_str(n: nat) -> Seq<char>
    decreases n,
{
    if n < 10 {
        seq![digit_char(n)]
    } else {
        dec_str(n / 10).push(digit_char(n % 10))
    }
}

/// Exactly `p` decimal digits of `n`, zero-padded, most significant
/// first; digits of `n` beyond the `p` lowest are dropped.
pub open spec fn frac_str(n: nat, p: nat) -> Seq<char>
    decreases p,
{
    if p == 0 {
        Seq::empty()
    } else {
        frac_str(n / 10, (p - 1) as nat).push(digit_char(n % 10))
    }
}

/// Ten to the power `p`.
pub open spec fn pow10(p: nat) -> nat
    decreases p,
{
    if p == 0 {
        1nat
    } else {
        10 * pow10((p - 1) as nat)
    }
}

/// The magnitude of an integer, as a natural number.
pub open spec fn nat_abs(n: int) -> nat {
    if n < 0 {
        (-n) as nat
    } else {
        n as nat
    }
}

/// `(num / den) * 10^p`, rounded to the nearest integer with ties broken
/// toward even.
pub open spec fn rounded_scaled(num: nat, den: nat, p: nat) -> nat {
    let t = num * pow10(p);
    let q = t / den;
    let rem = t % den;
    if 2 * rem > den {
        q + 1
    } else if 2 * rem < den {
        q
    } else if q % 2 == 1 {
        q + 1
    } else {
        q
    }
}

/// The fixed-precision rendering of a value: sign, integer digits and,
/// for a positive precision, a point and exactly `p` fractional digits;
/// `inf`, `-inf` and `NaN` for the non-finite values.
pub open spec fn format_fixed(v: SpecNum, p: nat) -> Seq<char> {
    match v {
        SpecNum::Nan => seq!['N', 'a', 'N'],
        SpecNum::PosInf => seq!['i', 'n', 'f'],
        SpecNum::NegInf => seq!['-', 'i', 'n', 'f'],
        SpecNum::Finite { num, den } => {
            let m = rounded_scaled(nat_abs(num), den as nat, p);
            let sign: Seq<char> = if num < 0 {
                seq!['-']
            } else {
                Seq::empty()
            };
            if p == 0 {
                sign + dec_str(m)
            } else {
                sign + dec_str(m / pow10(p)) + seq!['.'] + frac_str(m % pow10(p), p)
            }
        },
    }
}

/// Ten to a power is positive and weakly increasing in the exponent.
pub proof fn lemma_pow10_mono(a: nat, b: nat)
    requires
        a <= b,
    ensures
        1 <= pow10(a) <= pow10(b),
    decreases b,
{
    if b == 0 {
    } else if a == b {
        lemma_pow10_mono(0, (b - 1) as nat);
    } else {
        lemma_pow10_mono(a, (b - 1) as nat);
    }
}

/// The numeric value of ten to the eighteenth, the largest exponent the
/// renderer accepts.
pub proof fn lemma_pow10_cap()
    ensures
        pow10(18) == 0x0DE0_B6B3_A764_0000nat,
{
    reveal_with_fuel(pow10, 20);
}

/// The decimal digits of `n`, as characters.
fn digits_vec(n: u128) -> (r: Vec<char>)
    ensures
        r@ == dec_str(n as nat),
{
    let mut rev: Vec<char> = Vec::new();
    let mut m = n;
    while m >= 10
        invariant
            dec_str(n as nat) == dec_str(m as nat) + rev@.reverse(),
        decreases m,
    {
        let d = (m % 10) as u8;
        proof {
            assert(rev@.push(digit_char((m % 10) as nat)).reverse() =~= seq![
                digit_char((m % 10) as nat),
            ] + rev@.reverse());
            assert(dec_str((m / 10) as nat) + (seq![digit_char((m % 10) as nat)]
                + rev@.reverse()) =~= (dec_str((m / 10) as nat).push(
                digit_char((m % 10) as nat),
            )) + rev@.reverse());
        }
        rev.push(digit_byte_char(d));
        m = m / 10;
    }
    let d = (m % 10) as u8;
    proof {
        assert(dec_str(m as nat) == seq![digit_char(m as nat)]);
        assert(m as nat % 10 == m as nat);
    }
    rev.push(digit_byte_char(d));
    proof {
        assert(rev@.reverse() =~= seq![digit_char(m as nat)] + rev@.drop_last().reverse());
        assert(dec_str(n as nat) =~= rev@.reverse());
    }
    reverse_chars(&rev)
}

/// Exactly `p` decimal digits of `n`, zero-padded, as characters.
fn frac_digits_vec(n: u128, p: usize) -> (r: Vec<char>)
    ensures
        r@ == frac_str(n as nat, p as nat),
{
    let mut rev: Vec<char> = Vec::new();
    let mut m = n;
    let mut left = p;
    while left > 0
        invariant
            frac_str(n as nat, p as nat) == frac_str(m as nat, left as nat) + rev@.reverse(),
        decreases left,
    {
        let d = (m % 10) as u8;
        proof {
            assert(rev@.push(digit_char((m % 10) as nat)).reverse() =~= seq![
                digit_char((m % 10) as nat),
            ] + rev@.reverse());
            assert(frac_str((m / 10) as nat, (left - 1) as nat) + (seq![
                digit_char((m % 10) as nat),
            ] + rev@.reverse()) =~= (frac_str((m / 10) as nat, (left - 1) as nat).push(
                digit_char((m % 10) as nat),
            )) + rev@.reverse());
        }
        rev.push(digit_byte_char(d));
        m = m / 10;
        left = left - 1;
    }
    proof {
        assert(frac_str(m as nat, 0) =~= Seq::<char>::empty());
        assert(frac_str(n as nat, p as nat) =~= rev@.reverse());
    }
    reverse_chars(&rev)
}

/// The character for a digit given as a byte value.
fn digit_byte_char(d: u8) -> (c: char)
    requires
        d < 10,
    ensures
        c == digit_char(d as nat),
{
    match d {
        0 => '0',
        1 => '1',
        2 => '2',
        3 => '3',
        4 => '4',
        5 => '5',
        6 => '6',
        7 => '7',
        8 => '8',
        _ => '9',
    }
}

/// A vector of characters, reversed.
fn reverse_chars(v: &Vec<char>) -> (r: Vec<char>)
    ensures
        r@ == v@.reverse(),
{
    let mut r: Vec<char> = Vec::new();
    let mut i: usize = 0;
    while i < v.len()
        invariant
            i <= v@.len(),
            r@.len() == i,
            forall|j: int| 0 <= j < i ==> #[trigger] r@[j] == v@[v@.len() - 1 - j],
        decreases v@.len() - i,
    {
        r.push(v[v.len() - 1 - i]);
        i = i + 1;
    }
    proof {
        assert(r@ =~= v@.reverse());
    }
    r
}

/// Append the characters of `src` to `dst`.
pub fn append_chars(dst: &mut Vec<char>, src: &Vec<char>)
    ensures
        final(dst)@ == old(dst)@ + src@,
{
    let mut i: usize = 0;
    while i < src.len()
        invariant
            i <= src@.len(),
            dst@ == old(dst)@ + src@.take(i as int),
        decreases src@.len() - i,
    {
        proof {
            assert((old(dst)@ + src@.take(i as int)).push(src@[i as int]) =~= old(dst)@
                + src@.take(i + 1));
        }
        dst.push(src[i]);
        i = i + 1;
    }
    proof {
        assert(src@.take(src@.len() as int) =~= src@);
    }
}

/// Ten to the power `p`, as a machine integer.
pub fn pow10_u128(p: usize) -> (r: u128)
    requires
        p <= 18,
    ensures
        r == pow10(p as nat),
        1 <= r <= 0x0DE0_B6B3_A764_0000u128,
{
    proof {
        lemma_pow10_cap();
        lemma_pow10_mono(0, 18);
    }
    let mut pw: u128 = 1;
    let mut e: usize = 0;
    while e < p
        invariant
            e <= p <= 18,
            pw == pow10(e as nat),
        decreases p - e,
    {
        proof {
            lemma_pow10_mono(e as nat + 1, 18);
            lemma_pow10_cap();
        }
        pw = pw * 10;
        e = e + 1;
    }
    proof {
        lemma_pow10_mono(p as nat, 18);
        lemma_pow10_cap();
    }
    pw
}

/// Render a value at the given precision, as [`format_fixed`] describes.
pub fn format_value(v: &Value, precision: usize) -> (r: Vec<char>)
    requires
        precision <= 18,
    ensures
        r@ == format_fixed(v@, precision as nat),
{
    if v.is_finite() {
        let (num, den) = v.finite_parts();
        let num_abs: u128 = if num < 0 {
            (-(num as i128)) as u128
        } else {
            num as u128
        };
        let pw = pow10_u128(precision);
        proof {
            lemma_pow10_mono(precision as nat, 18);
            lemma_pow10_cap();
            assert((num_abs as nat) * (pw as nat) <= 0x8000_0000_0000_0000nat
                * 0x0DE0_B6B3_A764_0000nat) by (nonlinear_arith)
                requires
                    num_abs as nat <= 0x8000_0000_0000_0000nat,
                    pw as nat <= 0x0DE0_B6B3_A764_0000nat,
            ;
        }
        let t: u128 = num_abs * pw;
        let q: u128 = t / (den as u128);
        let rem: u128 = t % (den as u128);
        let m: u128 = if 2 * rem > den as u128 {
            q + 1
        } else if 2 * rem < den as u128 {
            q
        } else if q % 2 == 1 {
            q + 1
        } else {
            q
        };
        proof {
            assert(m as nat == rounded_scaled(nat_abs(num as int), den as nat, precision as nat));
        }
        let mut out: Vec<char> = Vec::new();
        if num < 0 {
            out.push('-');
        }
        if precision == 0 {
            let ds = digits_vec(m);
            append_chars(&mut out, &ds);
        } else {
            let ds = digits_vec(m / pw);
            append_chars(&mut out, &ds);
            out.push('.');
            let fs = frac_digits_vec(m % pw, precision);
            append_chars(&mut out, &fs);
        }
        proof {
            assert(out@ =~= format_fixed(v@, precision as nat));
        }
        out
    } else if v.is_pos_inf() {
        let mut out: Vec<char> = Vec::new();
        out.push('i');
        out.push('n');
        out.push('f');
        proof {
            assert(out@ =~= seq!['i', 'n', 'f']);
        }
        out
    } else if v.is_neg_inf() {
        let mut out: Vec<char> = Vec::new();
        out.push('-');
        out.push('i');
        out.push('n');
        out.push('f');
        proof {
            assert(out@ =~= seq!['-', 'i', 'n', 'f']);
        }
        out
    } else {
        let mut out: Vec<char> = Vec::new();
        out.push('N');
        out.push('a');
        out.push('N');
        proof {
            assert(out@ =~= seq!['N', 'a', 'N']);
        }
        out
    }
}

} // verus!
