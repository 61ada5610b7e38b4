//! Parsing observation text and fitting lines to the resulting dataset.
//!
//! One line of input holds any mixture of text and numbers; the tokenizer
//! picks out maximal runs shaped like decimal numbers and the line parser
//! maps the run count to a data point with value and uncertainty pairs.
//! The dataset then offers summary statistics, the least-squares best-fit
//! line, and the extreme-gradient envelope lines.

use vstd::prelude::*;
use crate::text::chars_vec;
use crate::linear_data::{Line, Point};
use crate::value::{SpecNum, Value, rat_add, rat_sub, rat_mul, rat_div, run_max, run_min, run_max_idx, run_min_idx, lemma_run_max_chooses, lemma_run_min_chooses, below_in_max_order, below_in_min_order, all_wf, lemma_run_max_is_max, lemma_run_min_is_min};

verus! {

/// Why one line failed to parse: no numeric fields at all (skippable), or
/// a field count that matches no known layout (fatal).
#[derive(Clone, Copy, Debug, PartialEq, Eq, Structural)]
pub enum ParseError {
    EmptyField,
    BadFields,
}

/// Whether a character is a decimal digit.
pub open spec fn is_digit_char(c: char) -> bool {
    48 <= c as u32 <= 57
}

/// The numeric value of a decimal digit character.
pub open spec fn digit_of(c: char) -> int {
    c as u32 - 48
}

/// State of the tokenizer after reading some prefix of the text.
pub struct ScanState {
    /// Index where the current number (or its attached minus sign) begins.
    pub started: Option<int>,
    /// Whether a minus sign immediately precedes the first digit.
    pub neg: bool,
    /// Magnitude of the digits read so far, fractional digits included.
    pub num: int,
    /// Ten to the number of fractional digits read so far.
    pub den: int,
    /// Whether the single permitted decimal point has been passed.
    pub frac: bool,
    /// Index of the character that terminated the number, once one has.
    pub ended: Option<int>,
}

/// The tokenizer's starting state.
pub open spec fn scan_init() -> ScanState {
    ScanState { started: None, neg: false, num: 0, den: 1, frac: false, ended: None }
}

/// One tokenizer step over the character at index `i`, scanning `s` from
/// index `from`.  A digit extends (or begins) the number, attaching a
/// minus sign only when it stands immediately before the first digit; the
/// first '.' switches to fractional digits; any other character ends the
/// number once one has begun.  After the number has ended the state is
/// frozen.
pub open spec fn scan_step(s: Seq<char>, from: int, st: ScanState, i: int) -> ScanState {
    let c = s[i];
    if st.ended is Some {
        st
    } else if is_digit_char(c) {
        let st1 = if st.started is None {
            if i > from && s[i - 1] == '-' {
                ScanState { started: Some(i - 1), neg: true, ..st }
            } else {
                ScanState { started: Some(i), ..st }
            }
        } else {
            st
        };
        ScanState {
            num: st1.num * 10 + digit_of(c),
            den: if st1.frac { st1.den * 10 } else { st1.den },
            ..st1
        }
    } else if c == '.' && !st.frac {
        ScanState { frac: true, ..st }
    } else if st.started is Some {
        ScanState { ended: Some(i), ..st }
    } else {
        st
    }
}

/// Tokenizer state after the characters of `s` in `[from, i)`.
pub open spec fn scan_state_at(s: Seq<char>, from: int, i: int) -> ScanState
    decreases i - from,
{
    if i <= from {
        scan_init()
    } else {
        scan_step(s, from, scan_state_at(s, from, i - 1), i - 1)
    }
}

/// The number denoted by a final tokenizer state: the signed digit
/// magnitude over ten to the fractional digit count, or the undefined
/// value when either component overflows the machine range.
pub open spec fn scan_value(st: ScanState) -> SpecNum {
    if st.num > i64::MAX || st.den > i64::MAX {
        SpecNum::Nan
    } else {
        SpecNum::Finite { num: if st.neg { -st.num } else { st.num }, den: st.den }
    }
}

/// Index one past the last character of the number.
pub open spec fn scan_end(st: ScanState, len: int) -> int {
    match st.ended {
        Some(e) => e,
        None => len,
    }
}

/// The first number in `s` at or after `from`: its value, the index where
/// it starts (minus sign included), and the index one past its last
/// character; or nothing when no digit occurs.
pub open spec fn spec_scan(s: Seq<char>, from: int) -> Option<(SpecNum, int, int)> {
    let st = scan_state_at(s, from, s.len() as int);
    match st.started {
        Some(sp) => Some((scan_value(st), sp, scan_end(st, s.len() as int))),
        None => None,
    }
}

/// Structural facts about the tokenizer state: a start index lies in
/// `[from, i)`, an end index follows the start, and a number only ends
/// after it has started.
pub open spec fn scan_state_ok(st: ScanState, from: int, i: int) -> bool {
    &&& st.num >= 0
    &&& st.den >= 1
    &&& (st.started is None ==> st.ended is None && !st.neg && st.num == 0)
    &&& (match st.started {
        Some(sp) => from <= sp < i,
        None => true,
    })
    &&& (match st.ended {
        Some(en) => st.started is Some && st.started->0 < en && en < i,
        None => true,
    })
}

proof fn lemma_scan_state_ok(s: Seq<char>, from: int, i: int)
    requires
        from >= 0,
    ensures
        scan_state_ok(scan_state_at(s, from, i), from, if i <= from { from + 1 } else { i }),
    decreases i - from,
{
    if i <= from {
    } else {
        lemma_scan_state_ok(s, from, i - 1);
    }
}

/// The token reported by a scan starts at or after `from` and ends after
/// it starts, within the text.
pub proof fn lemma_scan_bounds(s: Seq<char>, from: int)
    requires
        0 <= from <= s.len(),
    ensures
        match spec_scan(s, from) {
            Some(t) => from <= t.1 < t.2 <= s.len(),
            None => true,
        },
{
    lemma_scan_state_ok(s, from, s.len() as int);
}

/// On text without a digit the tokenizer never starts a number.
proof fn lemma_scan_state_no_digits(s: Seq<char>, from: int, i: int)
    requires
        0 <= from,
        i <= s.len(),
        forall|k: int| 0 <= k < s.len() ==> !is_digit_char(#[trigger] s[k]),
    ensures
        scan_state_at(s, from, i).started is None,
        scan_state_at(s, from, i).ended is None,
    decreases i - from,
{
    if i <= from {
    } else {
        lemma_scan_state_no_digits(s, from, i - 1);
    }
}

/// A line without a digit yields no numeric field at all, so the line
/// parser treats it as blank and the dataset parser skips it.
pub proof fn lemma_no_digits_no_fields(s: Seq<char>)
    requires
        forall|k: int| 0 <= k < s.len() ==> !is_digit_char(#[trigger] s[k]),
    ensures
        spec_fields(s, 0).len() == 0,
{
    lemma_scan_state_no_digits(s, 0, s.len() as int);
}

/// On text that is all digits the tokenizer takes every character as one
/// number: no sign, no fraction, and the digits' exact decimal value.
proof fn lemma_scan_state_all_digits(s: Seq<char>, i: int)
    requires
        s.len() >= 1,
        1 <= i <= s.len(),
        forall|k: int| 0 <= k < s.len() ==> is_digit_char(#[trigger] s[k]),
    ensures
        scan_state_at(s, 0, i) == (ScanState {
            started: Some(0),
            neg: false,
            num: crate::validators::dec_val_upto(s, 0, i) as int,
            den: 1,
            frac: false,
            ended: None,
        }),
    decreases i,
{
    if i == 1 {
    } else {
        lemma_scan_state_all_digits(s, i - 1);
    }
}

/// A string of digits scans to one number spanning the whole string,
/// whose value is the digits' exact decimal value while that value fits
/// the machine range.
pub proof fn lemma_scan_all_digits(s: Seq<char>)
    requires
        s.len() >= 1,
        forall|k: int| 0 <= k < s.len() ==> is_digit_char(#[trigger] s[k]),
    ensures
        ({
            let value = crate::validators::dec_val_upto(s, 0, s.len() as int);
            spec_scan(s, 0) == Some(
                (
                    if value > i64::MAX {
                        SpecNum::Nan
                    } else {
                        SpecNum::Finite { num: value as int, den: 1 }
                    },
                    0int,
                    s.len() as int,
                ),
            )
        }),
{
    lemma_scan_state_all_digits(s, s.len() as int);
}

/// How an optional machine index realizes an optional spec index.
pub open spec fn opt_idx_matches(a: Option<usize>, b: Option<int>) -> bool {
    match a {
        Some(x) => b == Some(x as int),
        None => b is None,
    }
}

/// Scan `chars` for the first number at or after `from`, exactly as
/// [`spec_scan`] describes.
fn scan_from(chars: &Vec<char>, from: usize) -> (r: Option<(Value, (usize, usize))>)
    requires
        from <= chars@.len(),
    ensures
        match spec_scan(chars@, from as int) {
            Some(t) => match r {
                Some(rt) => rt.0@ == t.0 && rt.1.0 == t.1 && rt.1.1 == t.2,
                None => false,
            },
            None => r is None,
        },
{
    let ghost s = chars@;
    let len = chars.len();
    let mut i: usize = from;
    let mut started: Option<usize> = None;
    let mut neg = false;
    let mut num: i64 = 0;
    let mut big_num = false;
    let mut den: i64 = 1;
    let mut big_den = false;
    let mut frac = false;
    let mut ended: Option<usize> = None;
    while i < len
        invariant
            from <= i <= len,
            len == s.len(),
            chars@ == s,
            ({
                let st = scan_state_at(s, from as int, i as int);
                &&& opt_idx_matches(started, st.started)
                &&& neg == st.neg
                &&& frac == st.frac
                &&& opt_idx_matches(ended, st.ended)
                &&& st.num >= 0
                &&& st.den >= 1
                &&& num >= 0
                &&& den >= 1
                &&& (if big_num {
                    st.num > i64::MAX
                } else {
                    num == st.num
                })
                &&& (if big_den {
                    st.den > i64::MAX
                } else {
                    den == st.den
                })
            }),
        decreases len - i,
    {
        proof {
            assert(scan_state_at(s, from as int, i + 1) == scan_step(
                s,
                from as int,
                scan_state_at(s, from as int, i as int),
                i as int,
            ));
        }
        if ended.is_none() {
            let c = chars[i];
            let u = c as u32;
            if 48 <= u && u <= 57 {
                if started.is_none() {
                    if i > from && chars[i - 1] == '-' {
                        started = Some(i - 1);
                        neg = true;
                    } else {
                        started = Some(i);
                    }
                }
                let d = (u - 48) as i64;
                if !big_num {
                    let t = num as i128 * 10 + d as i128;
                    if t > i64::MAX as i128 {
                        big_num = true;
                    } else {
                        num = t as i64;
                    }
                }
                if frac && !big_den {
                    let t = den as i128 * 10;
                    if t > i64::MAX as i128 {
                        big_den = true;
                    } else {
                        den = t as i64;
                    }
                }
            } else if c == '.' && !frac {
                frac = true;
            } else if started.is_some() {
                ended = Some(i);
            }
        }
        i = i + 1;
    }
    match started {
        None => None,
        Some(sp) => {
            let value = if big_num || big_den {
                Value::undefined()
            } else {
                let signed = if neg {
                    -num
                } else {
                    num
                };
                Value::from_parts(signed, den)
            };
            let en = match ended {
                Some(e) => e,
                None => len,
            };
            Some((value, (sp, en)))
        },
    }
}

/// Find the first number in the string: the parsed value, the index of
/// its first character (an attached minus sign included), and the index
/// one past its last character; or nothing when the string holds no
/// digit.
pub fn atof(string: &str) -> (r: Option<(Value, (usize, usize))>)
    ensures
        match spec_scan(string@, 0) {
            Some(t) => match r {
                Some(rt) => rt.0@ == t.0 && rt.1.0 == t.1 && rt.1.1 == t.2,
                None => false,
            },
            None => r is None,
        },
{
    let chars = chars_vec(string);
    scan_from(&chars, 0)
}

/// The numeric fields of `s` at or after `from`: each number the
/// tokenizer finds, in order, resuming after the previous number's end.
pub open spec fn spec_fields(s: Seq<char>, from: int) -> Seq<SpecNum>
    decreases s.len() - from,
{
    match spec_scan(s, from) {
        Some(t) => {
            if from < t.2 <= s.len() {
                seq![t.0] + spec_fields(s, t.2)
            } else {
                seq![t.0]
            }
        },
        None => Seq::empty(),
    }
}

/// The views of a vector of values.
pub open spec fn views_of(v: Seq<Value>) -> Seq<SpecNum> {
    v.map_values(|x: Value| x@)
}

/// One observation: a value and an uncertainty for each of x and y.
#[derive(Clone, Copy, Debug)]
pub struct TwoVarDataPoint {
    pub x_value: Value,
    pub x_uncertainty: Value,
    pub y_value: Value,
    pub y_uncertainty: Value,
}

/// The point that a line with fields `fs` parses to, given the default
/// uncertainties: two fields are x and y, three add an explicit y
/// uncertainty, four spell out all four quantities in order.
pub open spec fn point_matches(
    p: TwoVarDataPoint,
    fs: Seq<SpecNum>,
    dux: SpecNum,
    duy: SpecNum,
) -> bool {
    if fs.len() == 2 {
        &&& p.x_value@ == fs[0]
        &&& p.x_uncertainty@ == dux
        &&& p.y_value@ == fs[1]
        &&& p.y_uncertainty@ == duy
    } else if fs.len() == 3 {
        &&& p.x_value@ == fs[0]
        &&& p.x_uncertainty@ == dux
        &&& p.y_value@ == fs[1]
        &&& p.y_uncertainty@ == fs[2]
    } else if fs.len() == 4 {
        &&& p.x_value@ == fs[0]
        &&& p.x_uncertainty@ == fs[1]
        &&& p.y_value@ == fs[2]
        &&& p.y_uncertainty@ == fs[3]
    } else {
        false
    }
}

/// A line's field count admits a data point.
pub open spec fn line_contributes(l: Seq<char>) -> bool {
    let n = spec_fields(l, 0).len();
    n == 2 || n == 3 || n == 4
}

/// A line's field count is malformed: a lone number, or five or more.
pub open spec fn line_malformed(l: Seq<char>) -> bool {
    let n = spec_fields(l, 0).len();
    !(n == 0 || n == 2 || n == 3 || n == 4)
}

impl TwoVarDataPoint {
    /// Parse one line of text into a data point, supplying the default x
    /// and y uncertainties where the line does not spell them out.  A line
    /// without numbers reports `EmptyField`; a line with one number, or
    /// five or more, reports `BadFields`.
    pub fn from_line(line: &str, dux: Value, duy: Value) -> (r: Result<
        TwoVarDataPoint,
        ParseError,
    >)
        ensures
            ({
                let fs = spec_fields(line@, 0);
                &&& (fs.len() == 0 ==> r == Err::<TwoVarDataPoint, ParseError>(
                    ParseError::EmptyField,
                ))
                &&& (line_contributes(line@) ==> r is Ok && point_matches(
                    r->Ok_0,
                    fs,
                    dux@,
                    duy@,
                ))
                &&& (line_malformed(line@) ==> r == Err::<TwoVarDataPoint, ParseError>(
                    ParseError::BadFields,
                ))
            }),
    {
        let chars = chars_vec(line);
        Self::from_line_chars(&chars, dux, duy)
    }

    /// Parse one line of text, given as its characters; see
    /// [`TwoVarDataPoint::from_line`].
    fn from_line_chars(chars: &Vec<char>, dux: Value, duy: Value) -> (r: Result<
        TwoVarDataPoint,
        ParseError,
    >)
        ensures
            ({
                let fs = spec_fields(chars@, 0);
                &&& (fs.len() == 0 ==> r == Err::<TwoVarDataPoint, ParseError>(
                    ParseError::EmptyField,
                ))
                &&& (line_contributes(chars@) ==> r is Ok && point_matches(
                    r->Ok_0,
                    fs,
                    dux@,
                    duy@,
                ))
                &&& (line_malformed(chars@) ==> r == Err::<TwoVarDataPoint, ParseError>(
                    ParseError::BadFields,
                ))
            }),
    {
        let ghost s = chars@;
        let mut fields: Vec<Value> = Vec::new();
        let mut pos: usize = 0;
        let mut done = false;
        while !done
            invariant
                pos <= s.len(),
                chars@ == s,
                spec_fields(s, 0) == views_of(fields@) + spec_fields(s, pos as int),
                done ==> spec_scan(s, pos as int) is None,
            decreases s.len() - pos, if done {
                0int
            } else {
                1int
            },
        {
            proof {
                lemma_scan_bounds(s, pos as int);
            }
            match scan_from(&chars, pos) {
                Some((value, (_, end_point))) => {
                    proof {
                        let t = spec_scan(s, pos as int)->0;
                        assert(views_of(fields@.push(value)) =~= views_of(fields@) + seq![
                            value@,
                        ]);
                        assert(views_of(fields@) + (seq![value@] + spec_fields(s, t.2)) =~= (
                        views_of(fields@) + seq![value@]) + spec_fields(s, t.2));
                    }
                    fields.push(value);
                    pos = end_point;
                },
                None => {
                    done = true;
                },
            }
        }
        proof {
            assert(spec_fields(s, 0) =~= views_of(fields@));
        }
        if fields.len() == 0 {
            Err(ParseError::EmptyField)
        } else if fields.len() == 2 {
            Ok(
                TwoVarDataPoint {
                    x_value: fields[0],
                    x_uncertainty: dux,
                    y_value: fields[1],
                    y_uncertainty: duy,
                },
            )
        } else if fields.len() == 3 {
            Ok(
                TwoVarDataPoint {
                    x_value: fields[0],
                    x_uncertainty: dux,
                    y_value: fields[1],
                    y_uncertainty: fields[2],
                },
            )
        } else if fields.len() == 4 {
            Ok(
                TwoVarDataPoint {
                    x_value: fields[0],
                    x_uncertainty: fields[1],
                    y_value: fields[2],
                    y_uncertainty: fields[3],
                },
            )
        } else {
            Err(ParseError::BadFields)
        }
    }
}

/// Line-splitter state after the first `i` characters: the finished lines
/// and the partial line being gathered.  A newline finishes the current
/// line; every other character extends it.
pub open spec fn split_state(s: Seq<char>, i: int) -> (Seq<Seq<char>>, Seq<char>)
    decreases i,
{
    if i <= 0 {
        (Seq::empty(), Seq::empty())
    } else {
        let prev = split_state(s, i - 1);
        if s[i - 1] == '\n' {
            (prev.0.push(prev.1), Seq::empty())
        } else {
            (prev.0, prev.1.push(s[i - 1]))
        }
    }
}

/// The lines of `s`, split at newline characters; the separators are
/// dropped and the text after the last newline forms a final line, so the
/// empty text yields one empty line.
pub open spec fn spec_split_lines(s: Seq<char>) -> Seq<Seq<char>> {
    let st = split_state(s, s.len() as int);
    st.0.push(st.1)
}

/// The views of a vector of character vectors.
pub open spec fn line_views(v: Seq<Vec<char>>) -> Seq<Seq<char>> {
    v.map_values(|l: Vec<char>| l@)
}

/// Split a character vector into its lines, as [`spec_split_lines`]
/// describes.
fn split_lines(chars: &Vec<char>) -> (r: Vec<Vec<char>>)
    ensures
        line_views(r@) == spec_split_lines(chars@),
{
    let ghost s = chars@;
    let mut finished: Vec<Vec<char>> = Vec::new();
    let mut cur: Vec<char> = Vec::new();
    let mut i: usize = 0;
    while i < chars.len()
        invariant
            i <= s.len(),
            chars@ == s,
            line_views(finished@) == split_state(s, i as int).0,
            cur@ == split_state(s, i as int).1,
        decreases s.len() - i,
    {
        let c = chars[i];
        if c == '\n' {
            proof {
                assert(line_views(finished@.push(cur)) =~= line_views(finished@).push(cur@));
            }
            finished.push(cur);
            cur = Vec::new();
        } else {
            cur.push(c);
        }
        i = i + 1;
    }
    proof {
        assert(line_views(finished@.push(cur)) =~= line_views(finished@).push(cur@));
    }
    finished.push(cur);
    finished
}

/// The contributing lines among the first `i` lines: those whose field
/// count admits a data point.
pub open spec fn kept_upto(lines: Seq<Seq<char>>, i: int) -> Seq<Seq<char>>
    decreases i,
{
    if i <= 0 {
        Seq::empty()
    } else {
        let prev = kept_upto(lines, i - 1);
        if line_contributes(lines[i - 1]) {
            prev.push(lines[i - 1])
        } else {
            prev
        }
    }
}

/// The whole parse failed: the offending line, carried for diagnostics.
#[derive(Clone, Debug)]
pub struct DatasetError {
    pub line: String,
}

/// An ordered set of observations, in input order.
#[derive(Clone, Debug)]
pub struct TwoVarDataSet {
    pub dataset: Vec<TwoVarDataPoint>,
}

/// The dataset `ds` is what parsing `lines` with the given defaults
/// produces: one point per contributing line, in order.
pub open spec fn dataset_matches(
    ds: Seq<TwoVarDataPoint>,
    lines: Seq<Seq<char>>,
    dux: SpecNum,
    duy: SpecNum,
) -> bool {
    let kept = kept_upto(lines, lines.len() as int);
    &&& ds.len() == kept.len()
    &&& forall|k: int|
        0 <= k < kept.len() ==> point_matches(#[trigger] ds[k], spec_fields(kept[k], 0), dux, duy)
}

impl TwoVarDataSet {
    /// Parse a whole text buffer: split it into lines, skip lines without
    /// numbers, and collect one data point per remaining line, supplying
    /// the default uncertainties where a line omits them.  The first line
    /// with a malformed field count aborts the parse, and the error
    /// carries that line's text.
    pub fn from_string(buf: &str, dux: Value, duy: Value) -> (r: Result<
        TwoVarDataSet,
        DatasetError,
    >)
        ensures
            ({
                let lines = spec_split_lines(buf@);
                &&& (r is Ok <==> forall|i: int|
                    0 <= i < lines.len() ==> !line_malformed(#[trigger] lines[i]))
                &&& (r is Ok ==> dataset_matches(r->Ok_0.dataset@, lines, dux@, duy@))
                &&& (r is Err ==> exists|j: int|
                    {
                        &&& 0 <= j < lines.len()
                        &&& line_malformed(#[trigger] lines[j])
                        &&& forall|i: int| 0 <= i < j ==> !line_malformed(#[trigger] lines[i])
                        &&& r->Err_0.line@ == lines[j]
                    })
            }),
    {
        let chars = chars_vec(buf);
        let line_vecs = split_lines(&chars);
        let ghost lines = spec_split_lines(buf@);
        let mut result: Vec<TwoVarDataPoint> = Vec::new();
        let mut k: usize = 0;
        while k < line_vecs.len()
            invariant
                k <= line_vecs@.len(),
                lines == spec_split_lines(buf@),
                line_views(line_vecs@) == lines,
                forall|i: int| 0 <= i < k ==> !line_malformed(#[trigger] lines[i]),
                result@.len() == kept_upto(lines, k as int).len(),
                forall|j: int|
                    0 <= j < result@.len() ==> point_matches(
                        #[trigger] result@[j],
                        spec_fields(kept_upto(lines, k as int)[j], 0),
                        dux@,
                        duy@,
                    ),
            decreases line_vecs@.len() - k,
        {
            proof {
                assert(lines[k as int] == line_vecs@[k as int]@);
            }
            match TwoVarDataPoint::from_line_chars(&line_vecs[k], dux, duy) {
                Ok(data) => {
                    proof {
                        assert(kept_upto(lines, k + 1) == kept_upto(lines, k as int).push(
                            lines[k as int],
                        ));
                    }
                    result.push(data);
                },
                Err(ParseError::EmptyField) => {},
                Err(ParseError::BadFields) => {
                    let line = crate::text::string_from_chars(&line_vecs[k]);
                    proof {
                        assert(line_malformed(lines[k as int]));
                        assert(line@ == lines[k as int]);
                    }
                    return Err(DatasetError { line });
                },
            }
            k = k + 1;
        }
        proof {
            assert(kept_upto(lines, lines.len() as int) == kept_upto(
                lines,
                line_vecs@.len() as int,
            ));
        }
        Ok(TwoVarDataSet { dataset: result })
    }

    /// Number of observations.
    pub fn len(&self) -> (r: usize)
        ensures
            r == self.dataset@.len(),
    {
        self.dataset.len()
    }

    /// Whether the dataset holds no observation.
    pub fn is_empty(&self) -> (r: bool)
        ensures
            r == (self.dataset@.len() == 0),
    {
        self.dataset.len() == 0
    }

    /// The observation at an index.
    pub fn get(&self, idx: usize) -> (r: TwoVarDataPoint)
        requires
            idx < self.dataset@.len(),
        ensures
            r == self.dataset@[idx as int],
    {
        self.dataset[idx]
    }
}

/// Key of a point in a maximum search over x: the raw value, or value
/// plus its own uncertainty when uncertainties are taken into account.
pub open spec fn max_key_x(p: TwoVarDataPoint, wu: bool) -> SpecNum {
    if wu {
        rat_add(p.x_value@, p.x_uncertainty@).clamp()
    } else {
        p.x_value@
    }
}

/// Key of a point in a minimum search over x: the raw value, or value
/// minus its own uncertainty when uncertainties are taken into account.
pub open spec fn min_key_x(p: TwoVarDataPoint, wu: bool) -> SpecNum {
    if wu {
        rat_sub(p.x_value@, p.x_uncertainty@).clamp()
    } else {
        p.x_value@
    }
}

/// Key of a point in a maximum search over y.
pub open spec fn max_key_y(p: TwoVarDataPoint, wu: bool) -> SpecNum {
    if wu {
        rat_add(p.y_value@, p.y_uncertainty@).clamp()
    } else {
        p.y_value@
    }
}

/// Key of a point in a minimum search over y.
pub open spec fn min_key_y(p: TwoVarDataPoint, wu: bool) -> SpecNum {
    if wu {
        rat_sub(p.y_value@, p.y_uncertainty@).clamp()
    } else {
        p.y_value@
    }
}

/// The per-point keys of a maximum search over x.
pub open spec fn keys_max_x(ds: Seq<TwoVarDataPoint>, wu: bool) -> Seq<SpecNum> {
    Seq::new(ds.len(), |i: int| max_key_x(ds[i], wu))
}

/// The per-point keys of a minimum search over x.
pub open spec fn keys_min_x(ds: Seq<TwoVarDataPoint>, wu: bool) -> Seq<SpecNum> {
    Seq::new(ds.len(), |i: int| min_key_x(ds[i], wu))
}

/// The per-point keys of a maximum search over y.
pub open spec fn keys_max_y(ds: Seq<TwoVarDataPoint>, wu: bool) -> Seq<SpecNum> {
    Seq::new(ds.len(), |i: int| max_key_y(ds[i], wu))
}

/// The per-point keys of a minimum search over y.
pub open spec fn keys_min_y(ds: Seq<TwoVarDataPoint>, wu: bool) -> Seq<SpecNum> {
    Seq::new(ds.len(), |i: int| min_key_y(ds[i], wu))
}

/// What `max_x` returns: zero on an empty dataset, otherwise the maximum
/// search over the per-point keys.
pub open spec fn spec_max_x(ds: Seq<TwoVarDataPoint>, wu: bool) -> SpecNum {
    if ds.len() == 0 {
        SpecNum::Finite { num: 0, den: 1 }
    } else {
        run_max(keys_max_x(ds, wu))
    }
}

/// What `min_x` returns: zero on an empty dataset, otherwise the minimum
/// search over the per-point keys.
pub open spec fn spec_min_x(ds: Seq<TwoVarDataPoint>, wu: bool) -> SpecNum {
    if ds.len() == 0 {
        SpecNum::Finite { num: 0, den: 1 }
    } else {
        run_min(keys_min_x(ds, wu))
    }
}

/// What `max_y` returns: zero on an empty dataset, otherwise the maximum
/// search over the per-point keys.
pub open spec fn spec_max_y(ds: Seq<TwoVarDataPoint>, wu: bool) -> SpecNum {
    if ds.len() == 0 {
        SpecNum::Finite { num: 0, den: 1 }
    } else {
        run_max(keys_max_y(ds, wu))
    }
}

/// What `min_y` returns: zero on an empty dataset, otherwise the minimum
/// search over the per-point keys.
pub open spec fn spec_min_y(ds: Seq<TwoVarDataPoint>, wu: bool) -> SpecNum {
    if ds.len() == 0 {
        SpecNum::Finite { num: 0, den: 1 }
    } else {
        run_min(keys_min_y(ds, wu))
    }
}

/// Running sum of a sequence of values, each step clamped as the machine
/// addition is.
pub open spec fn spec_sum(s: Seq<SpecNum>) -> SpecNum
    decreases s.len(),
{
    if s.len() == 0 {
        SpecNum::Finite { num: 0, den: 1 }
    } else {
        rat_add(spec_sum(s.drop_last()), s.last()).clamp()
    }
}

/// A count as a value; a count beyond the machine range is undefined.
pub open spec fn count_num(n: nat) -> SpecNum {
    if n <= i64::MAX {
        SpecNum::Finite { num: n as int, den: 1 }
    } else {
        SpecNum::Nan
    }
}

/// The x values of a dataset.
pub open spec fn xs_of(ds: Seq<TwoVarDataPoint>) -> Seq<SpecNum> {
    Seq::new(ds.len(), |i: int| ds[i].x_value@)
}

/// The y values of a dataset.
pub open spec fn ys_of(ds: Seq<TwoVarDataPoint>) -> Seq<SpecNum> {
    Seq::new(ds.len(), |i: int| ds[i].y_value@)
}

/// What `mean_x` returns: the sum of the x values over the count.  On an
/// empty dataset this is zero over zero, the undefined value.
pub open spec fn spec_mean_x(ds: Seq<TwoVarDataPoint>) -> SpecNum {
    rat_div(spec_sum(xs_of(ds)), count_num(ds.len())).clamp()
}

/// What `mean_y` returns; undefined on an empty dataset.
pub open spec fn spec_mean_y(ds: Seq<TwoVarDataPoint>) -> SpecNum {
    rat_div(spec_sum(ys_of(ds)), count_num(ds.len())).clamp()
}

impl TwoVarDataSet {
    /// The maximum x value; with `with_uncertainty`, the maximum of value
    /// plus uncertainty, and that sum is returned.  An undefined key never
    /// beats a defined one, and an empty dataset yields zero.
    pub fn max_x(&self, with_uncertainty: bool) -> (r: Value)
        ensures
            r@ == spec_max_x(self.dataset@, with_uncertainty),
            self.dataset@.len() > 0 ==> exists|i: int|
                0 <= i < self.dataset@.len() && r@ == max_key_x(
                    #[trigger] self.dataset@[i],
                    with_uncertainty,
                ),
            self.dataset@.len() > 0 && all_wf(keys_max_x(self.dataset@, with_uncertainty))
                ==> forall|i: int|
                0 <= i < self.dataset@.len() ==> !below_in_max_order(r@, max_key_x(#[trigger] self.dataset@[i], with_uncertainty)),
    {
        let ghost keys = keys_max_x(self.dataset@, with_uncertainty);
        if self.dataset.len() == 0 {
            return Value::zero();
        }
        let p0 = self.dataset[0];
        let mut acc = if with_uncertainty {
            p0.x_value.add(p0.x_uncertainty)
        } else {
            p0.x_value
        };
        proof {
            assert(keys.take(1) =~= seq![keys[0]]);
        }
        let mut i: usize = 1;
        while i < self.dataset.len()
            invariant
                1 <= i <= self.dataset@.len(),
                keys == keys_max_x(self.dataset@, with_uncertainty),
                acc@ == run_max(keys.take(i as int)),
            decreases self.dataset@.len() - i,
        {
            let p = self.dataset[i];
            let k = if with_uncertainty {
                p.x_value.add(p.x_uncertainty)
            } else {
                p.x_value
            };
            proof {
                assert(keys.take(i + 1).drop_last() =~= keys.take(i as int));
                assert(keys.take(i + 1).last() == keys[i as int]);
            }
            if !k.below_for_max(&acc) {
                acc = k;
            }
            i = i + 1;
        }
        proof {
            assert(keys.take(self.dataset@.len() as int) =~= keys);
            lemma_run_max_chooses(keys);
            assert(keys[run_max_idx(keys)] == max_key_x(
                self.dataset@[run_max_idx(keys)],
                with_uncertainty,
            ));
            if all_wf(keys) {
                lemma_run_max_is_max(keys);
                assert forall|i: int| 0 <= i < self.dataset@.len() implies !below_in_max_order(acc@, max_key_x(self.dataset@[i], with_uncertainty)) by {
                    assert(keys[i] == max_key_x(self.dataset@[i], with_uncertainty));
                }
            }
        }
        acc
    }

    /// The minimum x value; with `with_uncertainty`, the minimum of value
    /// minus uncertainty, and that difference is returned.  An undefined
    /// key never beats a defined one, and an empty dataset yields zero.
    pub fn min_x(&self, with_uncertainty: bool) -> (r: Value)
        ensures
            r@ == spec_min_x(self.dataset@, with_uncertainty),
            self.dataset@.len() > 0 ==> exists|i: int|
                0 <= i < self.dataset@.len() && r@ == min_key_x(
                    #[trigger] self.dataset@[i],
                    with_uncertainty,
                ),
            self.dataset@.len() > 0 && all_wf(keys_min_x(self.dataset@, with_uncertainty))
                ==> forall|i: int|
                0 <= i < self.dataset@.len() ==> !below_in_min_order(min_key_x(#[trigger] self.dataset@[i], with_uncertainty), r@),
    {
        let ghost keys = keys_min_x(self.dataset@, with_uncertainty);
        if self.dataset.len() == 0 {
            return Value::zero();
        }
        let p0 = self.dataset[0];
        let mut acc = if with_uncertainty {
            p0.x_value.sub(p0.x_uncertainty)
        } else {
            p0.x_value
        };
        proof {
            assert(keys.take(1) =~= seq![keys[0]]);
        }
        let mut i: usize = 1;
        while i < self.dataset.len()
            invariant
                1 <= i <= self.dataset@.len(),
                keys == keys_min_x(self.dataset@, with_uncertainty),
                acc@ == run_min(keys.take(i as int)),
            decreases self.dataset@.len() - i,
        {
            let p = self.dataset[i];
            let k = if with_uncertainty {
                p.x_value.sub(p.x_uncertainty)
            } else {
                p.x_value
            };
            proof {
                assert(keys.take(i + 1).drop_last() =~= keys.take(i as int));
                assert(keys.take(i + 1).last() == keys[i as int]);
            }
            if k.below_for_min(&acc) {
                acc = k;
            }
            i = i + 1;
        }
        proof {
            assert(keys.take(self.dataset@.len() as int) =~= keys);
            lemma_run_min_chooses(keys);
            assert(keys[run_min_idx(keys)] == min_key_x(
                self.dataset@[run_min_idx(keys)],
                with_uncertainty,
            ));
            if all_wf(keys) {
                lemma_run_min_is_min(keys);
                assert forall|i: int| 0 <= i < self.dataset@.len() implies !below_in_min_order(min_key_x(self.dataset@[i], with_uncertainty), acc@) by {
                    assert(keys[i] == min_key_x(self.dataset@[i], with_uncertainty));
                }
            }
        }
        acc
    }

    /// The maximum y value; see `max_x`.
    pub fn max_y(&self, with_uncertainty: bool) -> (r: Value)
        ensures
            r@ == spec_max_y(self.dataset@, with_uncertainty),
            self.dataset@.len() > 0 ==> exists|i: int|
                0 <= i < self.dataset@.len() && r@ == max_key_y(
                    #[trigger] self.dataset@[i],
                    with_uncertainty,
                ),
            self.dataset@.len() > 0 && all_wf(keys_max_y(self.dataset@, with_uncertainty))
                ==> forall|i: int|
                0 <= i < self.dataset@.len() ==> !below_in_max_order(r@, max_key_y(#[trigger] self.dataset@[i], with_uncertainty)),
    {
        let ghost keys = keys_max_y(self.dataset@, with_uncertainty);
        if self.dataset.len() == 0 {
            return Value::zero();
        }
        let p0 = self.dataset[0];
        let mut acc = if with_uncertainty {
            p0.y_value.add(p0.y_uncertainty)
        } else {
            p0.y_value
        };
        proof {
            assert(keys.take(1) =~= seq![keys[0]]);
        }
        let mut i: usize = 1;
        while i < self.dataset.len()
            invariant
                1 <= i <= self.dataset@.len(),
                keys == keys_max_y(self.dataset@, with_uncertainty),
                acc@ == run_max(keys.take(i as int)),
            decreases self.dataset@.len() - i,
        {
            let p = self.dataset[i];
            let k = if with_uncertainty {
                p.y_value.add(p.y_uncertainty)
            } else {
                p.y_value
            };
            proof {
                assert(keys.take(i + 1).drop_last() =~= keys.take(i as int));
                assert(keys.take(i + 1).last() == keys[i as int]);
            }
            if !k.below_for_max(&acc) {
                acc = k;
            }
            i = i + 1;
        }
        proof {
            assert(keys.take(self.dataset@.len() as int) =~= keys);
            lemma_run_max_chooses(keys);
            assert(keys[run_max_idx(keys)] == max_key_y(
                self.dataset@[run_max_idx(keys)],
                with_uncertainty,
            ));
            if all_wf(keys) {
                lemma_run_max_is_max(keys);
                assert forall|i: int| 0 <= i < self.dataset@.len() implies !below_in_max_order(acc@, max_key_y(self.dataset@[i], with_uncertainty)) by {
                    assert(keys[i] == max_key_y(self.dataset@[i], with_uncertainty));
                }
            }
        }
        acc
    }

    /// The minimum y value; see `min_x`.
    pub fn min_y(&self, with_uncertainty: bool) -> (r: Value)
        ensures
            r@ == spec_min_y(self.dataset@, with_uncertainty),
            self.dataset@.len() > 0 ==> exists|i: int|
                0 <= i < self.dataset@.len() && r@ == min_key_y(
                    #[trigger] self.dataset@[i],
                    with_uncertainty,
                ),
            self.dataset@.len() > 0 && all_wf(keys_min_y(self.dataset@, with_uncertainty))
                ==> forall|i: int|
                0 <= i < self.dataset@.len() ==> !below_in_min_order(min_key_y(#[trigger] self.dataset@[i], with_uncertainty), r@),
    {
        let ghost keys = keys_min_y(self.dataset@, with_uncertainty);
        if self.dataset.len() == 0 {
            return Value::zero();
        }
        let p0 = self.dataset[0];
        let mut acc = if with_uncertainty {
            p0.y_value.sub(p0.y_uncertainty)
        } else {
            p0.y_value
        };
        proof {
            assert(keys.take(1) =~= seq![keys[0]]);
        }
        let mut i: usize = 1;
        while i < self.dataset.len()
            invariant
                1 <= i <= self.dataset@.len(),
                keys == keys_min_y(self.dataset@, with_uncertainty),
                acc@ == run_min(keys.take(i as int)),
            decreases self.dataset@.len() - i,
        {
            let p = self.dataset[i];
            let k = if with_uncertainty {
                p.y_value.sub(p.y_uncertainty)
            } else {
                p.y_value
            };
            proof {
                assert(keys.take(i + 1).drop_last() =~= keys.take(i as int));
                assert(keys.take(i + 1).last() == keys[i as int]);
            }
            if k.below_for_min(&acc) {
                acc = k;
            }
            i = i + 1;
        }
        proof {
            assert(keys.take(self.dataset@.len() as int) =~= keys);
            lemma_run_min_chooses(keys);
            assert(keys[run_min_idx(keys)] == min_key_y(
                self.dataset@[run_min_idx(keys)],
                with_uncertainty,
            ));
            if all_wf(keys) {
                lemma_run_min_is_min(keys);
                assert forall|i: int| 0 <= i < self.dataset@.len() implies !below_in_min_order(min_key_y(self.dataset@[i], with_uncertainty), acc@) by {
                    assert(keys[i] == min_key_y(self.dataset@[i], with_uncertainty));
                }
            }
        }
        acc
    }

    /// The arithmetic mean of the x values: their sum over the count,
    /// which on an empty dataset is zero over zero, the undefined value.
    pub fn mean_x(&self) -> (r: Value)
        ensures
            r@ == spec_mean_x(self.dataset@),
    {
        let ghost xs = xs_of(self.dataset@);
        let mut sum = Value::zero();
        let mut i: usize = 0;
        while i < self.dataset.len()
            invariant
                i <= self.dataset@.len(),
                xs == xs_of(self.dataset@),
                sum@ == spec_sum(xs.take(i as int)),
            decreases self.dataset@.len() - i,
        {
            proof {
                assert(xs.take(i + 1).drop_last() =~= xs.take(i as int));
                assert(xs.take(i + 1).last() == xs[i as int]);
            }
            sum = sum.add(self.dataset[i].x_value);
            i = i + 1;
        }
        proof {
            assert(xs.take(self.dataset@.len() as int) =~= xs);
        }
        let n = self.dataset.len();
        let count = if n as u64 > i64::MAX as u64 {
            Value::undefined()
        } else {
            Value::from_int(n as i64)
        };
        sum.div(count)
    }

    /// The arithmetic mean of the y values; undefined on an empty dataset.
    pub fn mean_y(&self) -> (r: Value)
        ensures
            r@ == spec_mean_y(self.dataset@),
    {
        let ghost ys = ys_of(self.dataset@);
        let mut sum = Value::zero();
        let mut i: usize = 0;
        while i < self.dataset.len()
            invariant
                i <= self.dataset@.len(),
                ys == ys_of(self.dataset@),
                sum@ == spec_sum(ys.take(i as int)),
            decreases self.dataset@.len() - i,
        {
            proof {
                assert(ys.take(i + 1).drop_last() =~= ys.take(i as int));
                assert(ys.take(i + 1).last() == ys[i as int]);
            }
            sum = sum.add(self.dataset[i].y_value);
            i = i + 1;
        }
        proof {
            assert(ys.take(self.dataset@.len() as int) =~= ys);
        }
        let n = self.dataset.len();
        let count = if n as u64 > i64::MAX as u64 {
            Value::undefined()
        } else {
            Value::from_int(n as i64)
        };
        sum.div(count)
    }

    /// All x values, in order.
    pub fn get_x_value(&self) -> (r: Vec<Value>)
        ensures
            r@.len() == self.dataset@.len(),
            forall|i: int| 0 <= i < r@.len() ==> #[trigger] r@[i] == self.dataset@[i].x_value,
    {
        let mut r: Vec<Value> = Vec::new();
        let mut i: usize = 0;
        while i < self.dataset.len()
            invariant
                i <= self.dataset@.len(),
                r@.len() == i,
                forall|j: int| 0 <= j < i ==> #[trigger] r@[j] == self.dataset@[j].x_value,
            decreases self.dataset@.len() - i,
        {
            r.push(self.dataset[i].x_value);
            i = i + 1;
        }
        r
    }

    /// All x uncertainties, in order.
    pub fn get_x_uncertainty(&self) -> (r: Vec<Value>)
        ensures
            r@.len() == self.dataset@.len(),
            forall|i: int| 0 <= i < r@.len() ==> #[trigger] r@[i] == self.dataset@[i].x_uncertainty,
    {
        let mut r: Vec<Value> = Vec::new();
        let mut i: usize = 0;
        while i < self.dataset.len()
            invariant
                i <= self.dataset@.len(),
                r@.len() == i,
                forall|j: int| 0 <= j < i ==> #[trigger] r@[j] == self.dataset@[j].x_uncertainty,
            decreases self.dataset@.len() - i,
        {
            r.push(self.dataset[i].x_uncertainty);
            i = i + 1;
        }
        r
    }

    /// All y values, in order.
    pub fn get_y_value(&self) -> (r: Vec<Value>)
        ensures
            r@.len() == self.dataset@.len(),
            forall|i: int| 0 <= i < r@.len() ==> #[trigger] r@[i] == self.dataset@[i].y_value,
    {
        let mut r: Vec<Value> = Vec::new();
        let mut i: usize = 0;
        while i < self.dataset.len()
            invariant
                i <= self.dataset@.len(),
                r@.len() == i,
                forall|j: int| 0 <= j < i ==> #[trigger] r@[j] == self.dataset@[j].y_value,
            decreases self.dataset@.len() - i,
        {
            r.push(self.dataset[i].y_value);
            i = i + 1;
        }
        r
    }

    /// All y uncertainties, in order.
    pub fn get_y_uncertainty(&self) -> (r: Vec<Value>)
        ensures
            r@.len() == self.dataset@.len(),
            forall|i: int| 0 <= i < r@.len() ==> #[trigger] r@[i] == self.dataset@[i].y_uncertainty,
    {
        let mut r: Vec<Value> = Vec::new();
        let mut i: usize = 0;
        while i < self.dataset.len()
            invariant
                i <= self.dataset@.len(),
                r@.len() == i,
                forall|j: int| 0 <= j < i ==> #[trigger] r@[j] == self.dataset@[j].y_uncertainty,
            decreases self.dataset@.len() - i,
        {
            r.push(self.dataset[i].y_uncertainty);
            i = i + 1;
        }
        r
    }
}

/// The products `(x - mean_x)(y - mean_y)`, one per point, each machine
/// step clamped.
pub open spec fn fit_cross_terms(ds: Seq<TwoVarDataPoint>, ax: SpecNum, ay: SpecNum) -> Seq<
    SpecNum,
> {
    Seq::new(
        ds.len(),
        |i: int|
            rat_mul(
                rat_sub(ds[i].x_value@, ax).clamp(),
                rat_sub(ds[i].y_value@, ay).clamp(),
            ).clamp(),
    )
}

/// The squares `(x - mean_x)^2`, one per point, each machine step
/// clamped.
pub open spec fn fit_square_terms(ds: Seq<TwoVarDataPoint>, ax: SpecNum) -> Seq<SpecNum> {
    Seq::new(
        ds.len(),
        |i: int|
            rat_mul(
                rat_sub(ds[i].x_value@, ax).clamp(),
                rat_sub(ds[i].x_value@, ax).clamp(),
            ).clamp(),
    )
}

/// Gradient of the least-squares best fit: the covariance sum over the
/// variance sum.  With identical x values the variance sum is zero and
/// the quotient is an infinity or the undefined value; on an empty
/// dataset both sums are zero and the gradient is undefined.
pub open spec fn spec_best_gradient(ds: Seq<TwoVarDataPoint>) -> SpecNum {
    rat_div(
        spec_sum(fit_cross_terms(ds, spec_mean_x(ds), spec_mean_y(ds))),
        spec_sum(fit_square_terms(ds, spec_mean_x(ds))),
    ).clamp()
}

/// Intercept of the least-squares best fit: `mean_y - gradient * mean_x`.
pub open spec fn spec_best_intercept(ds: Seq<TwoVarDataPoint>) -> SpecNum {
    rat_sub(spec_mean_y(ds), rat_mul(spec_best_gradient(ds), spec_mean_x(ds)).clamp()).clamp()
}

/// Whether envelope corner `k` (0 to 3) adds the x uncertainty; corners
/// run (+,+), (+,-), (-,+), (-,-).
pub open spec fn corner_plus_x(k: int) -> bool {
    k == 0 || k == 1
}

/// Whether envelope corner `k` adds the y uncertainty.
pub open spec fn corner_plus_y(k: int) -> bool {
    k == 0 || k == 2
}

/// The x coordinate of envelope corner `k` of a point.
pub open spec fn corner_x(p: TwoVarDataPoint, k: int) -> SpecNum {
    if corner_plus_x(k) {
        rat_add(p.x_value@, p.x_uncertainty@).clamp()
    } else {
        rat_sub(p.x_value@, p.x_uncertainty@).clamp()
    }
}

/// The y coordinate of envelope corner `k` of a point.
pub open spec fn corner_y(p: TwoVarDataPoint, k: int) -> SpecNum {
    if corner_plus_y(k) {
        rat_add(p.y_value@, p.y_uncertainty@).clamp()
    } else {
        rat_sub(p.y_value@, p.y_uncertainty@).clamp()
    }
}

/// Gradient of envelope candidate `k` (0 to 15): the line from corner
/// `k / 4` of the first point to corner `k % 4` of the last point.
pub open spec fn cand_gradient(ds: Seq<TwoVarDataPoint>, k: int) -> SpecNum {
    let first = ds[0];
    let last = ds[ds.len() - 1];
    crate::linear_data::spec_gradient(
        corner_x(first, k / 4),
        corner_y(first, k / 4),
        corner_x(last, k % 4),
        corner_y(last, k % 4),
    )
}

/// Intercept of envelope candidate `k`.
pub open spec fn cand_intercept(ds: Seq<TwoVarDataPoint>, k: int) -> SpecNum {
    let first = ds[0];
    let last = ds[ds.len() - 1];
    crate::linear_data::spec_intercept(
        corner_x(first, k / 4),
        corner_y(first, k / 4),
        corner_x(last, k % 4),
        corner_y(last, k % 4),
    )
}

/// The sixteen candidate gradients.
pub open spec fn cand_grads(ds: Seq<TwoVarDataPoint>) -> Seq<SpecNum> {
    Seq::new(16, |k: int| cand_gradient(ds, k))
}

impl TwoVarDataSet {
    /// The least-squares best-fit line through all points: gradient
    /// `sum((x - mean_x)(y - mean_y)) / sum((x - mean_x)^2)` and intercept
    /// `mean_y - gradient * mean_x`.  With zero x variance the gradient
    /// degenerates to an infinity or the undefined value, which is
    /// propagated, not treated as an error.
    pub fn line_best_fit(&self) -> (r: Line)
        ensures
            r.gradient@ == spec_best_gradient(self.dataset@),
            r.y_intercept@ == spec_best_intercept(self.dataset@),
    {
        let ax = self.mean_x();
        let ay = self.mean_y();
        let ghost cross = fit_cross_terms(self.dataset@, ax@, ay@);
        let ghost squares = fit_square_terms(self.dataset@, ax@);
        let mut numerator = Value::zero();
        let mut denominator = Value::zero();
        let mut i: usize = 0;
        while i < self.dataset.len()
            invariant
                i <= self.dataset@.len(),
                ax@ == spec_mean_x(self.dataset@),
                ay@ == spec_mean_y(self.dataset@),
                cross == fit_cross_terms(self.dataset@, ax@, ay@),
                squares == fit_square_terms(self.dataset@, ax@),
                numerator@ == spec_sum(cross.take(i as int)),
                denominator@ == spec_sum(squares.take(i as int)),
            decreases self.dataset@.len() - i,
        {
            proof {
                assert(cross.take(i + 1).drop_last() =~= cross.take(i as int));
                assert(cross.take(i + 1).last() == cross[i as int]);
                assert(squares.take(i + 1).drop_last() =~= squares.take(i as int));
                assert(squares.take(i + 1).last() == squares[i as int]);
            }
            let data = self.dataset[i];
            let dx = data.x_value.sub(ax);
            let dy = data.y_value.sub(ay);
            numerator = numerator.add(dx.mul(dy));
            denominator = denominator.add(dx.mul(dx));
            i = i + 1;
        }
        proof {
            assert(cross.take(self.dataset@.len() as int) =~= cross);
            assert(squares.take(self.dataset@.len() as int) =~= squares);
        }
        let b = numerator.div(denominator);
        let a = ay.sub(b.mul(ax));
        Line { gradient: b, y_intercept: a }
    }

    /// The envelope corner `k` (0 to 3) of a point.
    fn corner(p: &TwoVarDataPoint, k: usize) -> (r: Point)
        requires
            k < 4,
        ensures
            r.x@ == corner_x(*p, k as int),
            r.y@ == corner_y(*p, k as int),
    {
        let x = if k == 0 || k == 1 {
            p.x_value.add(p.x_uncertainty)
        } else {
            p.x_value.sub(p.x_uncertainty)
        };
        let y = if k == 0 || k == 2 {
            p.y_value.add(p.y_uncertainty)
        } else {
            p.y_value.sub(p.y_uncertainty)
        };
        Point { x, y }
    }

    /// All sixteen candidate envelope lines: every corner of the first
    /// point's error box joined to every corner of the last point's.
    /// Nothing is available on an empty dataset.
    fn lines(&self) -> (r: Option<Vec<Line>>)
        ensures
            r is Some <==> self.dataset@.len() > 0,
            r is Some ==> {
                let v = r->0@;
                &&& v.len() == 16
                &&& forall|k: int|
                    0 <= k < 16 ==> (#[trigger] v[k]).gradient@ == cand_gradient(
                        self.dataset@,
                        k,
                    ) && v[k].y_intercept@ == cand_intercept(self.dataset@, k)
            },
    {
        if self.dataset.len() == 0 {
            return None;
        }
        let first = self.dataset[0];
        let last = self.dataset[self.dataset.len() - 1];
        let mut v: Vec<Line> = Vec::new();
        let mut k: usize = 0;
        while k < 16
            invariant
                k <= 16,
                self.dataset@.len() > 0,
                first == self.dataset@[0],
                last == self.dataset@[self.dataset@.len() - 1],
                v@.len() == k,
                forall|m: int|
                    0 <= m < k ==> (#[trigger] v@[m]).gradient@ == cand_gradient(
                        self.dataset@,
                        m,
                    ) && v@[m].y_intercept@ == cand_intercept(self.dataset@, m),
            decreases 16 - k,
        {
            let fc = Self::corner(&first, k / 4);
            let lc = Self::corner(&last, k % 4);
            v.push(Line::from_points(fc, lc));
            k = k + 1;
        }
        Some(v)
    }

    /// The candidate envelope line with the greatest gradient, or nothing
    /// on an empty dataset.  A candidate with an undefined gradient is
    /// never chosen over one whose gradient is defined; among equal
    /// gradients the last candidate wins.
    pub fn line_max_grad(&self) -> (r: Option<Line>)
        ensures
            r is Some <==> self.dataset@.len() > 0,
            r is Some ==> {
                let grads = cand_grads(self.dataset@);
                let c = run_max_idx(grads);
                &&& r->0.gradient@ == cand_gradient(self.dataset@, c)
                &&& r->0.y_intercept@ == cand_intercept(self.dataset@, c)
                &&& forall|k: int|
                    0 <= k < 16 ==> !below_in_max_order(r->0.gradient@, #[trigger] grads[k])
                &&& (exists|k: int| 0 <= k < 16 && !(#[trigger] grads[k] is Nan)) ==> !(
                r->0.gradient@ is Nan)
            },
    {
        let ghost grads = cand_grads(self.dataset@);
        match self.lines() {
            None => None,
            Some(lns) => {
                let mut best = lns[0];
                let ghost mut bi: int = 0;
                proof {
                    assert(grads.take(1) =~= seq![grads[0]]);
                }
                let mut k: usize = 1;
                while k < 16
                    invariant
                        1 <= k <= 16,
                        grads == cand_grads(self.dataset@),
                        lns@.len() == 16,
                        forall|m: int|
                            0 <= m < 16 ==> (#[trigger] lns@[m]).gradient@ == cand_gradient(
                                self.dataset@,
                                m,
                            ) && lns@[m].y_intercept@ == cand_intercept(self.dataset@, m),
                        0 <= bi < k,
                        best == lns@[bi],
                        bi == run_max_idx(grads.take(k as int)),
                    decreases 16 - k,
                {
                    proof {
                        assert(grads.take(k + 1).drop_last() =~= grads.take(k as int));
                        assert(grads.take(k + 1).last() == grads[k as int]);
                        assert(forall|m: int|
                            0 <= m < k ==> grads.take(k + 1)[m] == #[trigger] grads.take(
                                k as int,
                            )[m]);
                    }
                    if !lns[k].gradient.below_for_max(&best.gradient) {
                        best = lns[k];
                        proof {
                            bi = k as int;
                        }
                    }
                    k = k + 1;
                }
                proof {
                    assert(grads.take(16) =~= grads);
                    assert(all_wf(grads)) by {
                        assert(forall|m: int|
                            0 <= m < 16 ==> (#[trigger] grads[m]) == cand_gradient(
                                self.dataset@,
                                m,
                            ));
                    }
                    lemma_run_max_is_max(grads);
                }
                Some(best)
            },
        }
    }

    /// The candidate envelope line with the smallest gradient, or nothing
    /// on an empty dataset.  A candidate with an undefined gradient is
    /// never chosen over one whose gradient is defined; among equal
    /// gradients the first candidate wins.
    pub fn line_min_grad(&self) -> (r: Option<Line>)
        ensures
            r is Some <==> self.dataset@.len() > 0,
            r is Some ==> {
                let grads = cand_grads(self.dataset@);
                let c = run_min_idx(grads);
                &&& r->0.gradient@ == cand_gradient(self.dataset@, c)
                &&& r->0.y_intercept@ == cand_intercept(self.dataset@, c)
                &&& forall|k: int|
                    0 <= k < 16 ==> !below_in_min_order(#[trigger] grads[k], r->0.gradient@)
                &&& (exists|k: int| 0 <= k < 16 && !(#[trigger] grads[k] is Nan)) ==> !(
                r->0.gradient@ is Nan)
            },
    {
        let ghost grads = cand_grads(self.dataset@);
        match self.lines() {
            None => None,
            Some(lns) => {
                let mut best = lns[0];
                let ghost mut bi: int = 0;
                proof {
                    assert(grads.take(1) =~= seq![grads[0]]);
                }
                let mut k: usize = 1;
                while k < 16
                    invariant
                        1 <= k <= 16,
                        grads == cand_grads(self.dataset@),
                        lns@.len() == 16,
                        forall|m: int|
                            0 <= m < 16 ==> (#[trigger] lns@[m]).gradient@ == cand_gradient(
                                self.dataset@,
                                m,
                            ) && lns@[m].y_intercept@ == cand_intercept(self.dataset@, m),
                        0 <= bi < k,
                        best == lns@[bi],
                        bi == run_min_idx(grads.take(k as int)),
                    decreases 16 - k,
                {
                    proof {
                        assert(grads.take(k + 1).drop_last() =~= grads.take(k as int));
                        assert(grads.take(k + 1).last() == grads[k as int]);
                        assert(forall|m: int|
                            0 <= m < k ==> grads.take(k + 1)[m] == #[trigger] grads.take(
                                k as int,
                            )[m]);
                    }
                    if lns[k].gradient.below_for_min(&best.gradient) {
                        best = lns[k];
                        proof {
                            bi = k as int;
                        }
                    }
                    k = k + 1;
                }
                proof {
                    assert(grads.take(16) =~= grads);
                    assert(all_wf(grads)) by {
                        assert(forall|m: int|
                            0 <= m < 16 ==> (#[trigger] grads[m]) == cand_gradient(
                                self.dataset@,
                                m,
                            ));
                    }
                    lemma_run_min_is_min(grads);
                }
                Some(best)
            },
        }
    }
}

impl Default for TwoVarDataPoint {
    /// A point at the origin with zero uncertainties.
    fn default() -> (r: TwoVarDataPoint)
        ensures
            r.x_value@ == (SpecNum::Finite { num: 0, den: 1 }),
            r.x_uncertainty@ == (SpecNum::Finite { num: 0, den: 1 }),
            r.y_value@ == (SpecNum::Finite { num: 0, den: 1 }),
            r.y_uncertainty@ == (SpecNum::Finite { num: 0, den: 1 }),
    {
        TwoVarDataPoint {
            x_value: Value::zero(),
            x_uncertainty: Value::zero(),
            y_value: Value::zero(),
            y_uncertainty: Value::zero(),
        }
    }
}

impl Default for TwoVarDataSet {
    /// A dataset with no observations.
    fn default() -> (r: TwoVarDataSet)
        ensures
            r.dataset@.len() == 0,
    {
        TwoVarDataSet { dataset: Vec::new() }
    }
}

} // verus!
