//! Validation of numeric command-line arguments.
//!
//! These mirror the standard library's grammars: a float argument must be
//! shaped like a floating-point literal (optional sign, digits with at
//! most one point, an optional exponent, or an infinity or NaN word), and
//! a size argument like an unsigned 32-bit integer.

use vstd::prelude::*;
use crate::text::chars_vec;
use crate::two_var_data::{digit_of, is_digit_char};

verus! {

/// The index of the first character at or after `i` that is not a
/// decimal digit.
pub open spec fn skip_digits(s: Seq<char>, i: int) -> int
    decreases s.len() - i,
{
    if i < s.len() && is_digit_char(s[i]) {
        skip_digits(s, i + 1)
    } else {
        i
    }
}

/// A character equals a lowercase letter, ignoring ASCII case.
pub open spec fn char_ci_eq(c: char, lower: char) -> bool {
    c == lower || c as u32 + 32 == lower as u32
}

/// The characters of `s` from `i` on spell exactly the lowercase word
/// `w`, ignoring ASCII case.
pub open spec fn rest_word_ci(s: Seq<char>, i: int, w: Seq<char>) -> bool {
    &&& s.len() - i == w.len()
    &&& forall|k: int| 0 <= k < w.len() ==> char_ci_eq(s[i + k], #[trigger] w[k])
}

/// The characters of `s` from `i` on form a decimal floating-point body:
/// digits with at most one point and at least one digit, then optionally
/// an exponent marker, an optional sign, and at least one digit, with
/// nothing left over.
pub open spec fn is_decimal_from(s: Seq<char>, i: int) -> bool {
    let a = skip_digits(s, i);
    let dotted = a < s.len() && s[a] == '.';
    let b = if dotted {
        skip_digits(s, a + 1)
    } else {
        a
    };
    let mantissa_ok = a > i || (dotted && b > a + 1);
    if b == s.len() {
        mantissa_ok
    } else if s[b] == 'e' || s[b] == 'E' {
        let c0 = b + 1;
        let c1 = if c0 < s.len() && (s[c0] == '+' || s[c0] == '-') {
            c0 + 1
        } else {
            c0
        };
        let d = skip_digits(s, c1);
        mantissa_ok && d == s.len() && d > c1
    } else {
        false
    }
}

/// The word `inf`.
pub open spec fn word_inf() -> Seq<char> {
    seq!['i', 'n', 'f']
}

/// The word `infinity`.
pub open spec fn word_infinity() -> Seq<char> {
    seq!['i', 'n', 'f', 'i', 'n', 'i', 't', 'y']
}

/// The word `nan`.
pub open spec fn word_nan() -> Seq<char> {
    seq!['n', 'a', 'n']
}

/// The text is a well-formed floating-point literal: an optional sign,
/// then an infinity or NaN word in any ASCII case, or a decimal body.
pub open spec fn is_float_literal(s: Seq<char>) -> bool {
    let i0: int = if s.len() > 0 && (s[0] == '+' || s[0] == '-') {
        1
    } else {
        0
    };
    ||| rest_word_ci(s, i0, word_inf())
    ||| rest_word_ci(s, i0, word_infinity())
    ||| rest_word_ci(s, i0, word_nan())
    ||| is_decimal_from(s, i0)
}

/// Whether a character is a decimal digit.
fn exec_is_digit(c: char) -> (r: bool)
    ensures
        r == is_digit_char(c),
{
    let u = c as u32;
    48 <= u && u <= 57
}

/// The first index at or after `i` whose character is not a digit.
fn exec_skip_digits(chars: &Vec<char>, i: usize) -> (r: usize)
    requires
        i <= chars@.len(),
    ensures
        r == skip_digits(chars@, i as int),
        i <= r <= chars@.len(),
{
    let mut j = i;
    while j < chars.len() && exec_is_digit_at(chars, j)
        invariant
            i <= j <= chars@.len(),
            skip_digits(chars@, i as int) == skip_digits(chars@, j as int),
        decreases chars@.len() - j,
    {
        j = j + 1;
    }
    j
}

/// Whether the character at `j` is a digit; a helper so the loop
/// condition stays a plain call.
fn exec_is_digit_at(chars: &Vec<char>, j: usize) -> (r: bool)
    requires
        j < chars@.len(),
    ensures
        r == is_digit_char(chars@[j as int]),
{
    exec_is_digit(chars[j])
}

/// Whether the characters from `i` on spell `w`, ignoring ASCII case.
fn exec_rest_word_ci(chars: &Vec<char>, i: usize, w: &Vec<char>) -> (r: bool)
    requires
        i <= chars@.len(),
    ensures
        r == rest_word_ci(chars@, i as int, w@),
{
    if chars.len() - i != w.len() {
        return false;
    }
    let mut k: usize = 0;
    while k < w.len()
        invariant
            k <= w@.len(),
            i + w@.len() == chars@.len(),
            i <= chars@.len(),
            chars@.len() <= usize::MAX,
            forall|m: int| 0 <= m < k ==> char_ci_eq(chars@[i + m], #[trigger] w@[m]),
        decreases w@.len() - k,
    {
        proof {
            assert(i + k < chars@.len());
        }
        let c = chars[i + k];
        let l = w[k];
        let cu = c as u32;
        let lu = l as u32;
        if !(c == l || (lu >= 32 && cu == lu - 32)) {
            return false;
        }
        k = k + 1;
    }
    true
}

/// Check a default-uncertainty argument: accepted exactly when the text
/// is a well-formed floating-point literal, rejected otherwise with the
/// standard library's message for a malformed float.
pub fn du_validator(num: &str) -> (r: Result<(), String>)
    ensures
        r is Ok <==> is_float_literal(num@),
        r is Err ==> r->Err_0@ == "invalid float literal"@,
{
    let chars = chars_vec(num);
    let n = chars.len();
    let start: usize = if n > 0 && (chars[0] == '+' || chars[0] == '-') {
        1
    } else {
        0
    };
    let winf = vec!['i', 'n', 'f'];
    let winfinity = vec!['i', 'n', 'f', 'i', 'n', 'i', 't', 'y'];
    let wnan = vec!['n', 'a', 'n'];
    proof {
        assert(winf@ =~= word_inf());
        assert(winfinity@ =~= word_infinity());
        assert(wnan@ =~= word_nan());
    }
    let ok = if exec_rest_word_ci(&chars, start, &winf) || exec_rest_word_ci(
        &chars,
        start,
        &winfinity,
    ) || exec_rest_word_ci(&chars, start, &wnan) {
        true
    } else {
        let a = exec_skip_digits(&chars, start);
        let dotted = a < n && chars[a] == '.';
        let b = if dotted {
            exec_skip_digits(&chars, a + 1)
        } else {
            a
        };
        let mantissa_ok = a > start || (dotted && b > a + 1);
        if b == n {
            mantissa_ok
        } else {
            let eb = chars[b];
            if eb == 'e' || eb == 'E' {
                let c0 = b + 1;
                let c1 = if c0 < n && (chars[c0] == '+' || chars[c0] == '-') {
                    c0 + 1
                } else {
                    c0
                };
                let d = exec_skip_digits(&chars, c1);
                mantissa_ok && d == n && d > c1
            } else {
                false
            }
        }
    };
    if ok {
        Ok(())
    } else {
        Err(invalid_float_message())
    }
}

/// The standard library's message for a malformed float argument.
fn invalid_float_message() -> (r: String)
    ensures
        r@ == "invalid float literal"@,
{
    let s = "invalid float literal";
    s.to_owned()
}

/// The decimal value of the digits of `s` in `[st, i)`.
pub open spec fn dec_val_upto(s: Seq<char>, st: int, i: int) -> nat
    decreases i - st,
{
    if i <= st {
        0nat
    } else {
        dec_val_upto(s, st, i - 1) * 10 + (if 0 <= digit_of(s[i - 1]) {
            digit_of(s[i - 1]) as nat
        } else {
            0nat
        })
    }
}

/// What checking a size argument yields: nothing to parse, a character
/// that is not a digit, a value beyond the 32-bit range, or acceptance.
/// A digit prefix that already overflows wins over a later bad character,
/// as the standard library's integer parser reports it.
pub open spec fn size_check(s: Seq<char>) -> Result<(), Seq<char>> {
    if s.len() == 0 {
        Err("cannot parse integer from empty string"@)
    } else {
        let st: int = if s[0] == '+' {
            1
        } else {
            0
        };
        if s.len() == st {
            Err("cannot parse integer from empty string"@)
        } else {
            let k = skip_digits(s, st);
            if dec_val_upto(s, st, k) > u32::MAX {
                Err("number too large to fit in target type"@)
            } else if k < s.len() {
                Err("invalid digit found in string"@)
            } else {
                Ok(())
            }
        }
    }
}

/// Check a plot-size argument: accepted exactly when the text parses as
/// an unsigned 32-bit integer, rejected otherwise with the standard
/// library's message.
pub fn size_validator(num: &str) -> (r: Result<(), String>)
    ensures
        r is Ok <==> size_check(num@) is Ok,
        r is Err ==> r->Err_0@ == size_check(num@)->Err_0,
{
    let chars = chars_vec(num);
    let n = chars.len();
    if n == 0 {
        return Err(empty_int_message());
    }
    let st: usize = if chars[0] == '+' {
        1
    } else {
        0
    };
    if n == st {
        return Err(empty_int_message());
    }
    let ghost sp = chars@;
    let mut i = st;
    let mut acc: u64 = 0;
    let mut big = false;
    while i < n && exec_is_digit_at(&chars, i)
        invariant
            st <= i <= n,
            n == sp.len(),
            chars@ == sp,
            skip_digits(sp, st as int) == skip_digits(sp, i as int),
            forall|m: int| st <= m < i ==> is_digit_char(sp[m]),
            acc <= u32::MAX,
            if big {
                dec_val_upto(sp, st as int, i as int) > u32::MAX
            } else {
                acc == dec_val_upto(sp, st as int, i as int)
            },
        decreases n - i,
    {
        let d = (chars[i] as u32 - 48) as u64;
        if !big {
            let t = acc * 10 + d;
            if t > u32::MAX as u64 {
                big = true;
            } else {
                acc = t;
            }
        }
        i = i + 1;
    }
    if big {
        Err(too_large_message())
    } else if i < n {
        Err(invalid_digit_message())
    } else {
        Ok(())
    }
}

/// The standard library's message for an empty integer argument.
fn empty_int_message() -> (r: String)
    ensures
        r@ == "cannot parse integer from empty string"@,
{
    let s = "cannot parse integer from empty string";
    s.to_owned()
}

/// The standard library's message for a non-digit in an integer argument.
fn invalid_digit_message() -> (r: String)
    ensures
        r@ == "invalid digit found in string"@,
{
    let s = "invalid digit found in string";
    s.to_owned()
}

/// The standard library's message for an integer argument out of range.
fn too_large_message() -> (r: String)
    ensures
        r@ == "number too large to fit in target type"@,
{
    let s = "number too large to fit in target type";
    s.to_owned()
}

} // verus!
