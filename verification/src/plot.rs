//! Plotting backends that a caller can render with.
//!
//! The engine itself never draws; it only names the available renderers
//! and parses a backend choice from text, ASCII case-insensitively.

use vstd::prelude::*;
use crate::text::{chars_eq, chars_vec, string_from_chars};

verus! {

/// Available backends.
#[derive(PartialEq, Eq, Structural, Debug, Copy, Clone)]
pub enum Backends {
    Gnuplot,
    Plotters,
}

/// Error when converting text to [`Backends`]: the lowercased text, which
/// names no known backend.
#[derive(Clone, Debug, PartialEq, Eq)]
pub enum BackendsFromStrError {
    UnknownBackend(String),
}

/// The text carried by an unknown-backend error.
pub open spec fn unknown_backend_text(e: BackendsFromStrError) -> Seq<char> {
    match e {
        BackendsFromStrError::UnknownBackend(s) => s@,
    }
}

/// An ASCII uppercase letter mapped to its lowercase form; any other
/// character is left alone.
pub open spec fn lower_char(c: char) -> char {
    if c == 'A' {
        'a'
    } else if c == 'B' {
        'b'
    } else if c == 'C' {
        'c'
    } else if c == 'D' {
        'd'
    } else if c == 'E' {
        'e'
    } else if c == 'F' {
        'f'
    } else if c == 'G' {
        'g'
    } else if c == 'H' {
        'h'
    } else if c == 'I' {
        'i'
    } else if c == 'J' {
        'j'
    } else if c == 'K' {
        'k'
    } else if c == 'L' {
        'l'
    } else if c == 'M' {
        'm'
    } else if c == 'N' {
        'n'
    } else if c == 'O' {
        'o'
    } else if c == 'P' {
        'p'
    } else if c == 'Q' {
        'q'
    } else if c == 'R' {
        'r'
    } else if c == 'S' {
        's'
    } else if c == 'T' {
        't'
    } else if c == 'U' {
        'u'
    } else if c == 'V' {
        'v'
    } else if c == 'W' {
        'w'
    } else if c == 'X' {
        'x'
    } else if c == 'Y' {
        'y'
    } else if c == 'Z' {
        'z'
    } else {
        c
    }
}

/// The text with every ASCII uppercase letter lowercased.
pub open spec fn lower_seq(s: Seq<char>) -> Seq<char> {
    s.map_values(|c: char| lower_char(c))
}

/// An ASCII uppercase letter mapped to its lowercase form.
fn exec_lower_char(c: char) -> (r: char)
    ensures
        r == lower_char(c),
{
    match c {
        'A' => 'a',
        'B' => 'b',
        'C' => 'c',
        'D' => 'd',
        'E' => 'e',
        'F' => 'f',
        'G' => 'g',
        'H' => 'h',
        'I' => 'i',
        'J' => 'j',
        'K' => 'k',
        'L' => 'l',
        'M' => 'm',
        'N' => 'n',
        'O' => 'o',
        'P' => 'p',
        'Q' => 'q',
        'R' => 'r',
        'S' => 's',
        'T' => 't',
        'U' => 'u',
        'V' => 'v',
        'W' => 'w',
        'X' => 'x',
        'Y' => 'y',
        'Z' => 'z',
        other => other,
    }
}

/// The characters of `v` with ASCII uppercase letters lowercased.
fn lower_vec(v: &Vec<char>) -> (r: Vec<char>)
    ensures
        r@ == lower_seq(v@),
{
    let mut r: Vec<char> = Vec::new();
    let mut i: usize = 0;
    while i < v.len()
        invariant
            i <= v@.len(),
            r@.len() == i,
            forall|j: int| 0 <= j < i ==> #[trigger] r@[j] == lower_char(v@[j]),
        decreases v@.len() - i,
    {
        r.push(exec_lower_char(v[i]));
        i = i + 1;
    }
    proof {
        assert(r@ =~= lower_seq(v@));
    }
    r
}

impl Backends {
    /// Parse a backend description, ASCII case-insensitively: `plotters`
    /// and `gnuplot` name the two backends, and any other text is
    /// reported back, lowercased, as unknown.
    pub fn from_str(bstr: &str) -> (r: Result<Backends, BackendsFromStrError>)
        ensures
            ({
                let l = lower_seq(bstr@);
                &&& (l == "plotters"@ ==> r == Ok::<Backends, BackendsFromStrError>(
                    Backends::Plotters,
                ))
                &&& (l == "gnuplot"@ ==> r == Ok::<Backends, BackendsFromStrError>(
                    Backends::Gnuplot,
                ))
                &&& (l != "plotters"@ && l != "gnuplot"@ ==> r is Err && unknown_backend_text(
                    r->Err_0,
                ) == l)
            }),
    {
        let chars = chars_vec(bstr);
        let low = lower_vec(&chars);
        let wp = vec!['p', 'l', 'o', 't', 't', 'e', 'r', 's'];
        let wg = vec!['g', 'n', 'u', 'p', 'l', 'o', 't'];
        proof {
            reveal_strlit("plotters");
            reveal_strlit("gnuplot");
            assert(wp@ =~= "plotters"@);
            assert(wg@ =~= "gnuplot"@);
        }
        if chars_eq(&low, &wp) {
            Ok(Backends::Plotters)
        } else if chars_eq(&low, &wg) {
            Ok(Backends::Gnuplot)
        } else {
            Err(BackendsFromStrError::UnknownBackend(string_from_chars(&low)))
        }
    }

    /// The lowercase name of this backend.
    pub fn name(&self) -> (r: String)
        ensures
            *self == Backends::Gnuplot ==> r@ == "gnuplot"@,
            *self == Backends::Plotters ==> r@ == "plotters"@,
    {
        match *self {
            Backends::Gnuplot => {
                let s = "gnuplot";
                s.to_owned()
            },
            Backends::Plotters => {
                let s = "plotters";
                s.to_owned()
            },
        }
    }
}

} // verus!
