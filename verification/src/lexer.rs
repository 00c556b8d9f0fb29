//! The lexer: one line of source text becomes a flat sequence of
//! classified lexemes.
//!
//! Scanning is driven by the lookahead character: `#` starts a comment
//! that runs to the end of the line, `"` a string literal, `[` an array
//! literal, `:` a word definition (each running to its closing
//! delimiter), a leading digit a number, and any other non-whitespace
//! run is matched against the operator table, unmatched runs becoming
//! word references.

use vstd::prelude::*;

use crate::errors::ErrorType;
use crate::text::{
    copy_range, find_char, find_from, is_digit, is_digit_c, is_ws, is_ws_c, run_end, run_end_c,
    trim, trim_s,
};

verus! {

/// The classification a lexeme carries to the parser.
#[derive(Debug, Clone, Copy, PartialEq, Eq, Structural)]
pub enum LexemeType {
    Number,
    Str,
    Array,
    Word,
    Print,
    If,
    Do,
    And,
    Or,
    Forward,
    Plus,
    Equal,
    Minus,
    Multiply,
    Divide,
    Concat,
    Len,
    Transmute,
    Duplicate,
    Swap,
    Rotate,
    Clear,
    ClearButOne,
    Pop,
    Definition,
}

/// A classified raw substring: the lexer's output, the parser's input.
#[derive(Debug, Clone)]
pub struct Lexeme {
    pub string: Vec<char>,
    pub ty: LexemeType,
}

/// The mathematical image of a [`Lexeme`]: its text and classification.
#[verifier::ext_equal]
pub ghost struct LexG {
    pub s: Seq<char>,
    pub t: LexemeType,
}

impl View for Lexeme {
    type V = LexG;

    open spec fn view(&self) -> LexG {
        LexG { s: self.string@, t: self.ty }
    }
}

impl Lexeme {
    /// Wrap a text and its classification as a lexeme.
    pub fn new(string: Vec<char>, ty: LexemeType) -> (r: Self)
        ensures
            r@ == (LexG { s: string@, t: ty }),
    {
        Self { string, ty }
    }
}

/// The views of a sequence of lexemes.
pub open spec fn lexs_v(s: Seq<Lexeme>) -> Seq<LexG> {
    Seq::new(s.len(), |i: int| s[i]@)
}

pub broadcast proof fn lemma_lexs_v_push(s: Seq<Lexeme>, x: Lexeme)
    ensures
        #[trigger] lexs_v(s.push(x)) == lexs_v(s).push(x@),
{
    assert(lexs_v(s.push(x)) =~= lexs_v(s).push(x@));
}

/// The operator-keyword table: what a non-numeric non-whitespace run
/// means. A run matching no table entry is a word reference.
pub open spec fn classify_run(s: Seq<char>) -> LexemeType {
    if s == seq!['_'] {
        LexemeType::Print
    } else if s == seq!['?'] || s == seq!['i', 'f'] {
        LexemeType::If
    } else if s == seq!['-', '>'] || s == seq!['t', 'h', 'e', 'n'] {
        LexemeType::Forward
    } else if s == seq!['d', 'o'] {
        LexemeType::Do
    } else if s == seq!['+'] {
        LexemeType::Plus
    } else if s == seq!['-'] {
        LexemeType::Minus
    } else if s == seq!['*'] {
        LexemeType::Multiply
    } else if s == seq!['/'] {
        LexemeType::Divide
    } else if s == seq!['='] || s == seq!['e', 'q', 'l'] {
        LexemeType::Equal
    } else if s == seq!['^'] || s == seq!['a', 'n', 'd'] {
        LexemeType::And
    } else if s == seq!['v'] || s == seq!['o', 'r'] {
        LexemeType::Or
    } else if s == seq![','] || s == seq!['c', 'a', 't'] {
        LexemeType::Concat
    } else if s == seq!['l', 'e', 'n'] {
        LexemeType::Len
    } else if s == seq!['t', 'r', 'm'] {
        LexemeType::Transmute
    } else if s == seq!['d', 'u', 'p'] || s == seq!['<', '>'] {
        LexemeType::Duplicate
    } else if s == seq!['s', 'w', 'p'] || s == seq!['>', '<'] {
        LexemeType::Swap
    } else if s == seq!['r', 'o', 't'] {
        LexemeType::Rotate
    } else if s == seq!['c', 'l', 'r'] {
        LexemeType::Clear
    } else if s == seq!['c', 'l', 'r', '1'] {
        LexemeType::ClearButOne
    } else if s == seq!['p', 'o', 'p'] || s == seq!['<', '<'] {
        LexemeType::Pop
    } else {
        LexemeType::Word
    }
}

/// Whether `v` is exactly the one-character sequence `a`.
fn is1(v: &Vec<char>, a: char) -> (r: bool)
    ensures
        r == (v@ == seq![a]),
{
    let r = v.len() == 1 && v[0] == a;
    proof {
        if r {
            assert(v@ =~= seq![a]);
        }
    }
    r
}

/// Whether `v` is exactly the two-character sequence `a b`.
fn is2(v: &Vec<char>, a: char, b: char) -> (r: bool)
    ensures
        r == (v@ == seq![a, b]),
{
    let r = v.len() == 2 && v[0] == a && v[1] == b;
    proof {
        if r {
            assert(v@ =~= seq![a, b]);
        }
    }
    r
}

/// Whether `v` is exactly the three-character sequence `a b c`.
fn is3(v: &Vec<char>, a: char, b: char, c: char) -> (r: bool)
    ensures
        r == (v@ == seq![a, b, c]),
{
    let r = v.len() == 3 && v[0] == a && v[1] == b && v[2] == c;
    proof {
        if r {
            assert(v@ =~= seq![a, b, c]);
        }
    }
    r
}

/// Whether `v` is exactly the four-character sequence `a b c d`.
fn is4(v: &Vec<char>, a: char, b: char, c: char, d: char) -> (r: bool)
    ensures
        r == (v@ == seq![a, b, c, d]),
{
    let r = v.len() == 4 && v[0] == a && v[1] == b && v[2] == c && v[3] == d;
    proof {
        if r {
            assert(v@ =~= seq![a, b, c, d]);
        }
    }
    r
}

/// Match a non-whitespace run against the operator-keyword table.
fn classify(v: &Vec<char>) -> (t: LexemeType)
    ensures
        t == classify_run(v@),
{
    if is1(v, '_') {
        LexemeType::Print
    } else if is1(v, '?') || is2(v, 'i', 'f') {
        LexemeType::If
    } else if is2(v, '-', '>') || is4(v, 't', 'h', 'e', 'n') {
        LexemeType::Forward
    } else if is2(v, 'd', 'o') {
        LexemeType::Do
    } else if is1(v, '+') {
        LexemeType::Plus
    } else if is1(v, '-') {
        LexemeType::Minus
    } else if is1(v, '*') {
        LexemeType::Multiply
    } else if is1(v, '/') {
        LexemeType::Divide
    } else if is1(v, '=') || is3(v, 'e', 'q', 'l') {
        LexemeType::Equal
    } else if is1(v, '^') || is3(v, 'a', 'n', 'd') {
        LexemeType::And
    } else if is1(v, 'v') || is2(v, 'o', 'r') {
        LexemeType::Or
    } else if is1(v, ',') || is3(v, 'c', 'a', 't') {
        LexemeType::Concat
    } else if is3(v, 'l', 'e', 'n') {
        LexemeType::Len
    } else if is3(v, 't', 'r', 'm') {
        LexemeType::Transmute
    } else if is3(v, 'd', 'u', 'p') || is2(v, '<', '>') {
        LexemeType::Duplicate
    } else if is3(v, 's', 'w', 'p') || is2(v, '>', '<') {
        LexemeType::Swap
    } else if is3(v, 'r', 'o', 't') {
        LexemeType::Rotate
    } else if is3(v, 'c', 'l', 'r') {
        LexemeType::Clear
    } else if is4(v, 'c', 'l', 'r', '1') {
        LexemeType::ClearButOne
    } else if is3(v, 'p', 'o', 'p') || is2(v, '<', '<') {
        LexemeType::Pop
    } else {
        LexemeType::Word
    }
}

pub broadcast proof fn lemma_find_from_bounds(s: Seq<char>, i: int, c: char)
    requires
        0 <= i,
    ensures
        match #[trigger] find_from(s, i, c) {
            Some(j) => i <= j < s.len() && s[j] == c,
            None => true,
        },
    decreases s.len() - i,
{
    if i < s.len() && s[i] != c {
        lemma_find_from_bounds(s, i + 1, c);
    }
}

/// Prefix one lexeme onto the result of lexing the rest, passing a
/// failure through.
pub open spec fn lex_cons(x: LexG, rest: Option<Seq<LexG>>) -> Option<Seq<LexG>> {
    match rest {
        Some(r) => Some(seq![x] + r),
        None => None,
    }
}

/// What lexing the tail of `s` from position `i` yields: the lexemes,
/// or nothing on an unmatched `"`, `[` or `:` delimiter.
pub open spec fn lex_s(s: Seq<char>, i: int) -> Option<Seq<LexG>>
    decreases s.len() - i,
        via lex_s_decreases
{
    if i < 0 || i >= s.len() {
        Some(Seq::empty())
    } else {
        let c = s[i];
        if is_ws(c) {
            lex_s(s, i + 1)
        } else if c == '#' {
            match find_from(s, i, '\n') {
                Some(j) => lex_s(s, j + 1),
                None => Some(Seq::empty()),
            }
        } else if c == '"' {
            match find_from(s, i + 1, '"') {
                Some(j) => lex_cons(
                    LexG { s: trim_s(s.subrange(i + 1, j)), t: LexemeType::Str },
                    lex_s(s, j + 1),
                ),
                None => None,
            }
        } else if c == '[' {
            match find_from(s, i + 1, ']') {
                Some(j) => lex_cons(
                    LexG { s: s.subrange(i + 1, j), t: LexemeType::Array },
                    lex_s(s, j + 1),
                ),
                None => None,
            }
        } else if c == ':' {
            match find_from(s, i + 1, ';') {
                Some(j) => lex_cons(
                    LexG { s: s.subrange(i + 1, j), t: LexemeType::Definition },
                    lex_s(s, j + 1),
                ),
                None => None,
            }
        } else if is_digit(c) {
            let e = run_end(s, i);
            lex_cons(LexG { s: s.subrange(i, e), t: LexemeType::Number }, lex_s(s, e))
        } else {
            let e = run_end(s, i);
            lex_cons(
                LexG { s: s.subrange(i, e), t: classify_run(s.subrange(i, e)) },
                lex_s(s, e),
            )
        }
    }
}

#[via_fn]
proof fn lex_s_decreases(s: Seq<char>, i: int) {
    broadcast use lemma_find_from_bounds;
    broadcast use crate::text::lemma_run_end_bounds;

    if 0 <= i < s.len() {
        let c = s[i];
        if !is_ws(c) && c != '#' && c != '"' && c != '[' && c != ':' {
            assert(run_end(s, i) == run_end(s, i + 1));
        }
    }
}

/// Lex one line, given as its characters.
pub fn lex_chars(v: &Vec<char>) -> (r: Result<Vec<Lexeme>, ErrorType>)
    ensures
        match r {
            Ok(ls) => lex_s(v@, 0) == Some(lexs_v(ls@)),
            Err(e) => e == ErrorType::Parse && lex_s(v@, 0) is None,
        },
{
    broadcast use lemma_lexs_v_push;
    broadcast use lemma_find_from_bounds;
    broadcast use crate::text::lemma_run_end_bounds;

    let mut res: Vec<Lexeme> = Vec::new();
    let mut i: usize = 0;
    proof {
        assert(lexs_v(res@) =~= Seq::<LexG>::empty());
    }
    while i < v.len()
        invariant
            i <= v@.len(),
            lex_s(v@, 0) == lex_lift(lexs_v(res@), lex_s(v@, i as int)),
        decreases v@.len() - i,
    {
        let ghost done = lexs_v(res@);
        let c = v[i];
        if is_ws_c(c) {
            i = i + 1;
        } else if c == '#' {
            match find_char(v, i, '\n') {
                Some(j) => {
                    i = j + 1;
                },
                None => {
                    proof {
                        assert(lex_s(v@, i as int) == Some(Seq::<LexG>::empty()));
                        assert(lex_s(v@, v@.len() as int) == Some(Seq::<LexG>::empty()));
                    }
                    i = v.len();
                },
            }
        } else if c == '"' {
            match find_char(v, i + 1, '"') {
                Some(j) => {
                    let inner = copy_range(v, i + 1, j);
                    let lx = Lexeme::new(trim(&inner), LexemeType::Str);
                    let ghost g = lx@;
                    res.push(lx);
                    proof {
                        assert(lex_s(v@, i as int) == lex_cons(g, lex_s(v@, j + 1)));
                        lemma_lift_step(done, g, lex_s(v@, j + 1));
                    }
                    i = j + 1;
                },
                None => {
                    return Err(ErrorType::Parse);
                },
            }
        } else if c == '[' {
            match find_char(v, i + 1, ']') {
                Some(j) => {
                    let lx = Lexeme::new(copy_range(v, i + 1, j), LexemeType::Array);
                    let ghost g = lx@;
                    res.push(lx);
                    proof {
                        assert(lex_s(v@, i as int) == lex_cons(g, lex_s(v@, j + 1)));
                        lemma_lift_step(done, g, lex_s(v@, j + 1));
                    }
                    i = j + 1;
                },
                None => {
                    return Err(ErrorType::Parse);
                },
            }
        } else if c == ':' {
            match find_char(v, i + 1, ';') {
                Some(j) => {
                    let lx = Lexeme::new(copy_range(v, i + 1, j), LexemeType::Definition);
                    let ghost g = lx@;
                    res.push(lx);
                    proof {
                        assert(lex_s(v@, i as int) == lex_cons(g, lex_s(v@, j + 1)));
                        lemma_lift_step(done, g, lex_s(v@, j + 1));
                    }
                    i = j + 1;
                },
                None => {
                    return Err(ErrorType::Parse);
                },
            }
        } else if is_digit_c(c) {
            let e = run_end_c(v, i);
            proof {
                assert(run_end(v@, i as int) == run_end(v@, i as int + 1));
                crate::text::lemma_run_end_bounds(v@, i as int + 1);
            }
            let lx = Lexeme::new(copy_range(v, i, e), LexemeType::Number);
            let ghost g = lx@;
            res.push(lx);
            proof {
                assert(lex_s(v@, i as int) == lex_cons(g, lex_s(v@, e as int)));
                lemma_lift_step(done, g, lex_s(v@, e as int));
            }
            i = e;
        } else {
            let e = run_end_c(v, i);
            proof {
                assert(run_end(v@, i as int) == run_end(v@, i as int + 1));
                crate::text::lemma_run_end_bounds(v@, i as int + 1);
            }
            let run = copy_range(v, i, e);
            let ty = classify(&run);
            let lx = Lexeme::new(run, ty);
            let ghost g = lx@;
            res.push(lx);
            proof {
                assert(lex_s(v@, i as int) == lex_cons(g, lex_s(v@, e as int)));
                lemma_lift_step(done, g, lex_s(v@, e as int));
            }
            i = e;
        }
    }
    proof {
        assert(lex_s(v@, v@.len() as int) == Some(Seq::<LexG>::empty()));
        assert(lexs_v(res@) + Seq::<LexG>::empty() =~= lexs_v(res@));
    }
    Ok(res)
}

/// Lex one line of source text.
pub fn lex(line: &str) -> (r: Result<Vec<Lexeme>, ErrorType>)
    ensures
        match r {
            Ok(ls) => lex_s(line@, 0) == Some(lexs_v(ls@)),
            Err(e) => e == ErrorType::Parse && lex_s(line@, 0) is None,
        },
{
    let v = crate::text::chars_of(line);
    lex_chars(&v)
}

/// Append the lexemes already produced in front of what the rest of the
/// line yields.
pub open spec fn lex_lift(done: Seq<LexG>, rest: Option<Seq<LexG>>) -> Option<Seq<LexG>> {
    match rest {
        Some(r) => Some(done + r),
        None => None,
    }
}

proof fn lemma_lift_step(done: Seq<LexG>, x: LexG, rest: Option<Seq<LexG>>)
    ensures
        lex_lift(done, lex_cons(x, rest)) == lex_lift(done.push(x), rest),
{
    match rest {
        Some(r) => {
            assert(done + (seq![x] + r) =~= done.push(x) + r);
        },
        None => {},
    }
}

} // verus!

