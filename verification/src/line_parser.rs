//! The line grammar.
//!
//! One line of source text is an ordered list of tokens separated by single
//! spaces.  A token is a bracketed expression, a floating-point literal, or a
//! bare word (a non-empty run of alphanumerics plus `_`, `.` and `-`; a span
//! that reads as a literal is a number, never a word).  A bracketed
//! expression `[...]` holds either a single literal or one of the four
//! generator keywords followed by a space and a space-separated list of
//! literals.  A line that cannot be consumed in full fails.

use crate::fixed::is_float_lit;
use crate::fixed::is_float_lit_x;
use crate::fixed::lit_micros;
use crate::fixed::lit_to_micros;
use crate::fixed::is_digit;
use vstd::prelude::*;

verus! {

/// A parsed token, at the specification level.
pub ghost enum TokV {
    Word(Seq<char>),
    Scalar(int),
    Bounce(Seq<int>),
    Ramp(Seq<int>),
    Choose(Seq<int>),
    Cycle(Seq<int>),
}

/// A parsed token: a bare word, a scalar in micros, or a generator
/// specification with its argument list in micros.
pub enum ParserResult {
    String(String),
    Scalar(i64),
    Bounce(Vec<i64>),
    Ramp(Vec<i64>),
    Choose(Vec<i64>),
    Cycle(Vec<i64>),
}

impl View for ParserResult {
    type V = TokV;

    open spec fn view(&self) -> TokV {
        match self {
            ParserResult::String(s) => TokV::Word(s@),
            ParserResult::Scalar(v) => TokV::Scalar(*v as int),
            ParserResult::Bounce(v) => TokV::Bounce(v@.map_values(|x: i64| x as int)),
            ParserResult::Ramp(v) => TokV::Ramp(v@.map_values(|x: i64| x as int)),
            ParserResult::Choose(v) => TokV::Choose(v@.map_values(|x: i64| x as int)),
            ParserResult::Cycle(v) => TokV::Cycle(v@.map_values(|x: i64| x as int)),
        }
    }
}

/// The view of a token list.
pub open spec fn toks_view(v: Seq<ParserResult>) -> Seq<TokV> {
    v.map_values(|t: ParserResult| t@)
}

/// No token could be read at some position of the line, a bracket is
/// unbalanced, or characters trail behind the last token.
#[derive(Clone, Copy, PartialEq, Eq, Debug)]
pub struct SyntaxError;

pub open spec fn is_word_char(c: char) -> bool {
    ('a' as u32 <= c as u32 && c as u32 <= 'z' as u32) || ('A' as u32 <= c as u32 && c as u32
        <= 'Z' as u32) || is_digit(c) || c == '_' || c == '.' || c == '-'
}

pub open spec fn is_word(s: Seq<char>) -> bool {
    s.len() > 0 && forall|i: int| 0 <= i < s.len() ==> is_word_char(s[i])
}

/// First index at or after `i` that holds `c`.
pub open spec fn scan_until(s: Seq<char>, i: int, c: char) -> int
    decreases s.len() - i,
{
    if i < 0 || i >= s.len() || s[i] == c {
        i
    } else {
        scan_until(s, i + 1, c)
    }
}

pub open spec fn kw_ramp() -> Seq<char> {
    seq!['r', 'a', 'm', 'p']
}

pub open spec fn kw_bounce() -> Seq<char> {
    seq!['b', 'o', 'u', 'n', 'c', 'e']
}

pub open spec fn kw_choose() -> Seq<char> {
    seq!['c', 'h', 'o', 'o', 's', 'e']
}

pub open spec fn kw_cycle() -> Seq<char> {
    seq!['c', 'y', 'c', 'l', 'e']
}

/// The values, in micros, of the space-separated literal list `s[i..]`.
pub open spec fn parse_nums_at(s: Seq<char>, i: int) -> Option<Seq<int>>
    decreases s.len() - i,
{
    if i < 0 {
        None
    } else if i >= s.len() {
        Some(Seq::empty())
    } else {
        let j = scan_until(s, i, ' ');
        if !(i <= j <= s.len()) {
            None
        } else {
            let piece = s.subrange(i, j);
            if !is_float_lit(piece) {
                None
            } else {
                let v = lit_micros(piece);
                if j == s.len() {
                    Some(seq![v])
                } else {
                    match parse_nums_at(s, j + 1) {
                        Option::None => None,
                        Option::Some(rest) => Some(seq![v] + rest),
                    }
                }
            }
        }
    }
}

/// The token denoted by the interior of a bracketed expression.
pub open spec fn parse_bracket(inner: Seq<char>) -> Option<TokV> {
    if is_float_lit(inner) {
        Some(TokV::Scalar(lit_micros(inner)))
    } else {
        let sp = scan_until(inner, 0, ' ');
        if !(0 <= sp < inner.len()) {
            None
        } else {
            let kw = inner.subrange(0, sp);
            match parse_nums_at(inner, sp + 1) {
                Option::None => None,
                Option::Some(vals) => if kw =~= kw_ramp() {
                    Some(TokV::Ramp(vals))
                } else if kw =~= kw_bounce() {
                    Some(TokV::Bounce(vals))
                } else if kw =~= kw_choose() {
                    Some(TokV::Choose(vals))
                } else if kw =~= kw_cycle() {
                    Some(TokV::Cycle(vals))
                } else {
                    None
                },
            }
        }
    }
}

/// The token list of the line tail `s[i..]`, or nothing if no token can be
/// read at some position.
pub open spec fn parse_toks(s: Seq<char>, i: int) -> Option<Seq<TokV>>
    decreases s.len() - i,
{
    if i < 0 {
        None
    } else if i >= s.len() {
        Some(Seq::empty())
    } else if s[i] == '[' {
        let j = scan_until(s, i + 1, ']');
        if !(i + 1 <= j < s.len()) {
            None
        } else {
            match parse_bracket(s.subrange(i + 1, j)) {
                Option::None => None,
                Option::Some(tok) => {
                    if j + 1 == s.len() {
                        Some(seq![tok])
                    } else if s[j + 1] == ' ' {
                        match parse_toks(s, j + 2) {
                            Option::None => None,
                            Option::Some(rest) => Some(seq![tok] + rest),
                        }
                    } else {
                        None
                    }
                },
            }
        }
    } else {
        let j = scan_until(s, i, ' ');
        if !(i < j <= s.len()) {
            None
        } else {
            let span = s.subrange(i, j);
            let tok = if is_float_lit(span) {
                Some(TokV::Scalar(lit_micros(span)))
            } else if is_word(span) {
                Some(TokV::Word(span))
            } else {
                None
            };
            match tok {
                Option::None => None,
                Option::Some(tk) => {
                    if j == s.len() {
                        Some(seq![tk])
                    } else {
                        match parse_toks(s, j + 1) {
                            Option::None => None,
                            Option::Some(rest) => Some(seq![tk] + rest),
                        }
                    }
                },
            }
        }
    }
}

/// The token list of a whole line, or nothing on a syntax error.
pub open spec fn parse_line_v(s: Seq<char>) -> Option<Seq<TokV>> {
    parse_toks(s, 0)
}

// ---------------------------------------------------------------------------
// Executable parser
// ---------------------------------------------------------------------------
/// First index at or after `from` that holds `c`.
fn scan_until_x(s: &[char], from: usize, c: char) -> (r: usize)
    requires
        from <= s@.len(),
    ensures
        r as int == scan_until(s@, from as int, c),
        from <= r <= s@.len(),
{
    let n = s.len();
    let mut p = from;
    while p < n && *vstd::slice::slice_index_get(s, p) != c
        invariant
            from <= p <= n == s@.len(),
            scan_until(s@, from as int, c) == scan_until(s@, p as int, c),
            p < n ==> scan_until(s@, p as int, c) == if s@[p as int] == c {
                p as int
            } else {
                scan_until(s@, p as int + 1, c)
            },
        decreases n - p,
    {
        p = p + 1;
    }
    p
}

fn is_word_char_x(c: char) -> (b: bool)
    ensures
        b == is_word_char(c),
{
    let u = c as u32;
    ('a' as u32 <= u && u <= 'z' as u32) || ('A' as u32 <= u && u <= 'Z' as u32) || ('0' as u32 <= u
        && u <= '9' as u32) || c == '_' || c == '.' || c == '-'
}

fn is_word_x(s: &[char]) -> (b: bool)
    ensures
        b == is_word(s@),
{
    let n = s.len();
    if n == 0 {
        return false;
    }
    let mut p: usize = 0;
    while p < n
        invariant
            p <= n == s@.len(),
            forall|q: int| 0 <= q < p ==> is_word_char(s@[q]),
        decreases n - p,
    {
        if !is_word_char_x(*vstd::slice::slice_index_get(s, p)) {
            return false;
        }
        p = p + 1;
    }
    true
}

/// Does `kw` spell one of the generator keywords?
fn kw_matches(kw: &[char], pat: &[char]) -> (b: bool)
    ensures
        b == (kw@ =~= pat@),
{
    let n = kw.len();
    if n != pat.len() {
        return false;
    }
    let mut p: usize = 0;
    while p < n
        invariant
            p <= n == kw@.len() == pat@.len(),
            forall|q: int| 0 <= q < p ==> kw@[q] == pat@[q],
        decreases n - p,
    {
        if *vstd::slice::slice_index_get(kw, p) != *vstd::slice::slice_index_get(pat, p) {
            return false;
        }
        p = p + 1;
    }
    true
}

/// The values, in micros, of the space-separated literal list `s[from..]`.
fn parse_nums_x(s: &[char], from: usize) -> (r: Option<Vec<i64>>)
    requires
        from <= s@.len(),
    ensures
        match r {
            Option::Some(v) => parse_nums_at(s@, from as int) == Some(
                v@.map_values(|x: i64| x as int),
            ),
            Option::None => parse_nums_at(s@, from as int) is None,
        },
{
    let n = s.len();
    let mut vals: Vec<i64> = Vec::new();
    let mut pos = from;
    loop
        invariant
            from <= pos <= n == s@.len(),
            parse_nums_at(s@, from as int) == (match parse_nums_at(s@, pos as int) {
                Option::None => None::<Seq<int>>,
                Option::Some(rest) => Some(vals@.map_values(|x: i64| x as int) + rest),
            }),
        decreases n - pos,
    {
        if pos >= n {
            proof {
                assert(vals@.map_values(|x: i64| x as int) + Seq::<int>::empty() =~= vals@.map_values(
                    |x: i64| x as int,
                ));
            }
            return Some(vals);
        }
        let j = scan_until_x(s, pos, ' ');
        let piece = vstd::slice::slice_subrange(s, pos, j);
        if !is_float_lit_x(piece) {
            return None;
        }
        let v = lit_to_micros(piece);
        let ghost old_vals = vals@;
        vals.push(v);
        proof {
            assert(vals@.map_values(|x: i64| x as int) =~= old_vals.map_values(|x: i64| x as int)
                + seq![v as int]);
        }
        if j == n {
            proof {
                assert(vals@.map_values(|x: i64| x as int) + Seq::<int>::empty() =~= vals@.map_values(
                    |x: i64| x as int,
                ));
                assert forall|rest: Seq<int>|
                    old_vals.map_values(|x: i64| x as int) + (seq![v as int] + rest)
                        =~= vals@.map_values(|x: i64| x as int) + rest by {}
            }
            return Some(vals);
        }
        proof {
            assert forall|rest: Seq<int>|
                old_vals.map_values(|x: i64| x as int) + (seq![v as int] + rest) =~= vals@.map_values(
                    |x: i64| x as int,
                ) + rest by {}
        }
        pos = j + 1;
    }
}

/// The token denoted by the interior of a bracketed expression.
fn parse_bracket_x(inner: &[char]) -> (r: Option<ParserResult>)
    ensures
        match r {
            Option::Some(t) => parse_bracket(inner@) == Some(t@),
            Option::None => parse_bracket(inner@) is None,
        },
{
    if is_float_lit_x(inner) {
        let v = lit_to_micros(inner);
        return Some(ParserResult::Scalar(v));
    }
    let n = inner.len();
    let sp = scan_until_x(inner, 0, ' ');
    if sp >= n {
        return None;
    }
    let kw = vstd::slice::slice_subrange(inner, 0, sp);
    match parse_nums_x(inner, sp + 1) {
        Option::None => None,
        Option::Some(vals) => {
            let rp: Vec<char> = vec!['r', 'a', 'm', 'p'];
            let bp: Vec<char> = vec!['b', 'o', 'u', 'n', 'c', 'e'];
            let cp: Vec<char> = vec!['c', 'h', 'o', 'o', 's', 'e'];
            let yp: Vec<char> = vec!['c', 'y', 'c', 'l', 'e'];
            proof {
                assert(rp@ =~= kw_ramp());
                assert(bp@ =~= kw_bounce());
                assert(cp@ =~= kw_choose());
                assert(yp@ =~= kw_cycle());
            }
            if kw_matches(kw, rp.as_slice()) {
                Some(ParserResult::Ramp(vals))
            } else if kw_matches(kw, bp.as_slice()) {
                Some(ParserResult::Bounce(vals))
            } else if kw_matches(kw, cp.as_slice()) {
                Some(ParserResult::Choose(vals))
            } else if kw_matches(kw, yp.as_slice()) {
                Some(ParserResult::Cycle(vals))
            } else {
                None
            }
        },
    }
}

/// Parse one line of source text into its token list, or fail with a
/// `SyntaxError` when no token can be read at some position, a bracket is
/// unbalanced, or the line cannot be consumed in full.
pub fn parse_line(i: &str) -> (r: Result<Vec<ParserResult>, SyntaxError>)
    ensures
        match r {
            Result::Ok(toks) => parse_line_v(i@) == Some(toks_view(toks@)),
            Result::Err(_) => parse_line_v(i@) is None,
        },
{
    let n = i.unicode_len();
    let mut chars: Vec<char> = Vec::new();
    let mut p: usize = 0;
    while p < n
        invariant
            p <= n == i@.len(),
            chars@ == i@.subrange(0, p as int),
        decreases n - p,
    {
        let c = i.get_char(p);
        chars.push(c);
        proof {
            assert(chars@ =~= i@.subrange(0, p as int + 1));
        }
        p = p + 1;
    }
    proof {
        assert(chars@ =~= i@);
    }
    let s = chars.as_slice();
    let mut toks: Vec<ParserResult> = Vec::new();
    let mut pos: usize = 0;
    loop
        invariant
            pos <= n == s@.len(),
            s@ == i@,
            parse_toks(s@, 0) == (match parse_toks(s@, pos as int) {
                Option::None => None::<Seq<TokV>>,
                Option::Some(rest) => Some(toks_view(toks@) + rest),
            }),
        decreases n - pos,
    {
        if pos >= n {
            proof {
                assert(toks_view(toks@) + Seq::<TokV>::empty() =~= toks_view(toks@));
            }
            return Ok(toks);
        }
        let c0 = *vstd::slice::slice_index_get(s, pos);
        let tok: ParserResult;
        let next: usize;
        if c0 == '[' {
            let j = scan_until_x(s, pos + 1, ']');
            if j >= n {
                return Err(SyntaxError);
            }
            let inner = vstd::slice::slice_subrange(s, pos + 1, j);
            match parse_bracket_x(inner) {
                Option::None => {
                    return Err(SyntaxError);
                },
                Option::Some(t) => {
                    tok = t;
                },
            }
            if j + 1 == n {
                next = n;
            } else if *vstd::slice::slice_index_get(s, j + 1) == ' ' {
                next = j + 2;
            } else {
                return Err(SyntaxError);
            }
        } else {
            let j = scan_until_x(s, pos, ' ');
            if j == pos {
                return Err(SyntaxError);
            }
            let span = vstd::slice::slice_subrange(s, pos, j);
            if is_float_lit_x(span) {
                tok = ParserResult::Scalar(lit_to_micros(span));
            } else if is_word_x(span) {
                let w = i.substring_char(pos, j);
                tok = ParserResult::String(w.to_owned());
            } else {
                return Err(SyntaxError);
            }
            next = if j == n {
                n
            } else {
                j + 1
            };
        }
        let ghost old_toks = toks@;
        toks.push(tok);
        proof {
            assert(toks_view(toks@) =~= toks_view(old_toks) + seq![toks@[toks@.len() - 1]@]);
            assert forall|rest: Seq<TokV>|
                toks_view(old_toks) + (seq![toks@[toks@.len() - 1]@] + rest) =~= toks_view(toks@)
                    + rest by {}
            assert(toks_view(toks@) + Seq::<TokV>::empty() =~= toks_view(toks@));
        }
        pos = next;
    }
}

} // verus!
