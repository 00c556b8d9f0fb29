//! The parser: lexemes become tokens, and word definitions are
//! harvested into a dictionary.
//!
//! Each lexeme maps to exactly one token. A `Definition` lexeme is
//! re-lexed and its body parsed into a flat instruction sequence; since
//! a definition runs to the first `;`, a definition can never nest
//! inside another, and a body lexeme classified as a definition is a
//! parse error.

use vstd::prelude::*;

use crate::array::{A, Prim};
use crate::dict::Dict;
use crate::errors::ErrorType;
use crate::lexer::{lex_chars, lex_s, lexs_v, LexG, Lexeme, LexemeType};
use crate::text::{chars_to_string, parse_int, parse_int_s, split_ws, split_ws_from, vecs_v};

verus! {

/// A fixed, non-redefinable primitive operation.
#[derive(Debug, Clone, Copy, PartialEq, Eq, Structural)]
pub enum Builtins {
    Print,
    Plus,
    Equal,
    Minus,
    Multiply,
    Divide,
    Concat,
    Len,
    Transmute,
    Duplicate,
    Swap,
    Rotate,
    Clear,
    ClearButOne,
    Pop,
    If,
    Do,
    And,
    Or,
    Forward,
}

/// One evaluable instruction: what the stack machine walks. `Nop`
/// holds the place of a declaration, so that jump and repeat positions
/// are unaffected.
#[derive(Debug)]
pub enum Instr {
    Word(String),
    Data(A),
    Builtin(Builtins),
    Nop,
}

/// A word body: an ordered instruction sequence.
pub type Body = Vec<Instr>;

/// One AST node: a word reference, a data literal, a builtin, or a
/// word definition (a declaration, harvested into the dictionary and
/// never evaluated in place).
#[derive(Debug)]
pub enum Token {
    Word(String),
    Data(A),
    Builtin(Builtins),
    Definition((String, Body)),
}

/// An ordered token sequence: one parsed line.
pub type Ast = Vec<Token>;

/// The mathematical image of an [`Instr`].
pub ghost enum InstrG {
    Word(Seq<char>),
    Data(Seq<Prim>),
    Builtin(Builtins),
    Nop,
}

/// The mathematical image of a [`Token`].
pub ghost enum TokG {
    Word(Seq<char>),
    Data(Seq<Prim>),
    Builtin(Builtins),
    Def(Seq<char>, Seq<InstrG>),
}

/// The image of one instruction.
pub open spec fn instr_v(x: Instr) -> InstrG {
    match x {
        Instr::Word(n) => InstrG::Word(n@),
        Instr::Data(a) => InstrG::Data(a.d@),
        Instr::Builtin(b) => InstrG::Builtin(b),
        Instr::Nop => InstrG::Nop,
    }
}

/// The images of an instruction sequence.
pub open spec fn instrs_v(s: Seq<Instr>) -> Seq<InstrG> {
    Seq::new(s.len(), |i: int| instr_v(s[i]))
}

/// The image of one token.
pub open spec fn tok_v(t: Token) -> TokG {
    match t {
        Token::Word(n) => TokG::Word(n@),
        Token::Data(a) => TokG::Data(a.d@),
        Token::Builtin(b) => TokG::Builtin(b),
        Token::Definition((n, body)) => TokG::Def(n@, instrs_v(body@)),
    }
}

/// The images of a token sequence.
pub open spec fn toks_v(s: Seq<Token>) -> Seq<TokG> {
    Seq::new(s.len(), |i: int| tok_v(s[i]))
}

/// What a token means to the evaluator: a declaration holds its place
/// but does nothing.
pub open spec fn tok_erase(g: TokG) -> InstrG {
    match g {
        TokG::Word(n) => InstrG::Word(n),
        TokG::Data(d) => InstrG::Data(d),
        TokG::Builtin(b) => InstrG::Builtin(b),
        TokG::Def(_, _) => InstrG::Nop,
    }
}

/// The instruction sequence a token sequence evaluates as.
pub open spec fn toks_erase(s: Seq<TokG>) -> Seq<InstrG> {
    Seq::new(s.len(), |i: int| tok_erase(s[i]))
}

/// The dictionary fragment harvested from one top-level token
/// sequence: every definition, in order, later ones replacing earlier.
pub open spec fn words_of(ast: Seq<TokG>) -> Map<Seq<char>, Seq<InstrG>>
    decreases ast.len(),
{
    if ast.len() == 0 {
        Map::empty()
    } else {
        match ast.last() {
            TokG::Def(n, b) => words_of(ast.drop_last()).insert(n, b),
            _ => words_of(ast.drop_last()),
        }
    }
}

/// A character as a value element.
pub open spec fn char_prim(c: char) -> Prim {
    Prim::Char(c)
}

/// The character vector `s` as a character-typed value.
pub open spec fn chars_data(s: Seq<char>) -> Seq<Prim>
    decreases s.len(),
{
    if s.len() == 0 {
        Seq::empty()
    } else {
        chars_data(s.drop_last()).push(char_prim(s.last()))
    }
}

pub broadcast proof fn lemma_chars_data(s: Seq<char>)
    ensures
        #[trigger] chars_data(s).len() == s.len(),
        forall|i: int| 0 <= i < s.len() ==> chars_data(s)[i] == Prim::Char(s[i]),
    decreases s.len(),
{
    if s.len() > 0 {
        lemma_chars_data(s.drop_last());
        assert(chars_data(s) == chars_data(s.drop_last()).push(char_prim(s.last())));
        assert(chars_data(s).len() == s.len());
        assert forall|i: int| 0 <= i < s.len() implies chars_data(s)[i] == Prim::Char(s[i]) by {
            if i < s.len() - 1 {
                assert(chars_data(s)[i] == chars_data(s.drop_last())[i]);
                assert(s.drop_last()[i] == s[i]);
            } else {
                assert(chars_data(s)[i] == char_prim(s.last()));
            }
        }
    }
}

/// The numeric value an array literal body denotes: its
/// whitespace-separated pieces, each an integer literal.
pub open spec fn array_val_s(s: Seq<char>) -> Option<Seq<Prim>> {
    let pieces = split_ws_from(s, 0);
    if forall|i: int| 0 <= i < pieces.len() ==> parse_int_s(#[trigger] pieces[i]) is Some {
        Some(Seq::new(pieces.len(), |i: int| Prim::Num(parse_int_s(pieces[i])->0)))
    } else {
        None
    }
}

/// What one lexeme inside a word body parses to: a `Definition`
/// lexeme cannot occur there.
pub open spec fn parse_simple_s(l: LexG) -> Option<InstrG> {
    match l.t {
        LexemeType::Number => match parse_int_s(l.s) {
            Some(x) => Some(InstrG::Data(seq![Prim::Num(x)])),
            None => None,
        },
        LexemeType::Str => Some(InstrG::Data(chars_data(l.s))),
        LexemeType::Array => match array_val_s(l.s) {
            Some(d) => Some(InstrG::Data(d)),
            None => None,
        },
        LexemeType::Word => Some(InstrG::Word(l.s)),
        LexemeType::Definition => None,
        LexemeType::Print => Some(InstrG::Builtin(Builtins::Print)),
        LexemeType::If => Some(InstrG::Builtin(Builtins::If)),
        LexemeType::Do => Some(InstrG::Builtin(Builtins::Do)),
        LexemeType::And => Some(InstrG::Builtin(Builtins::And)),
        LexemeType::Or => Some(InstrG::Builtin(Builtins::Or)),
        LexemeType::Forward => Some(InstrG::Builtin(Builtins::Forward)),
        LexemeType::Plus => Some(InstrG::Builtin(Builtins::Plus)),
        LexemeType::Equal => Some(InstrG::Builtin(Builtins::Equal)),
        LexemeType::Minus => Some(InstrG::Builtin(Builtins::Minus)),
        LexemeType::Multiply => Some(InstrG::Builtin(Builtins::Multiply)),
        LexemeType::Divide => Some(InstrG::Builtin(Builtins::Divide)),
        LexemeType::Concat => Some(InstrG::Builtin(Builtins::Concat)),
        LexemeType::Len => Some(InstrG::Builtin(Builtins::Len)),
        LexemeType::Transmute => Some(InstrG::Builtin(Builtins::Transmute)),
        LexemeType::Duplicate => Some(InstrG::Builtin(Builtins::Duplicate)),
        LexemeType::Swap => Some(InstrG::Builtin(Builtins::Swap)),
        LexemeType::Rotate => Some(InstrG::Builtin(Builtins::Rotate)),
        LexemeType::Clear => Some(InstrG::Builtin(Builtins::Clear)),
        LexemeType::ClearButOne => Some(InstrG::Builtin(Builtins::ClearButOne)),
        LexemeType::Pop => Some(InstrG::Builtin(Builtins::Pop)),
    }
}

/// What a whole word body parses to, failing if any lexeme does.
pub open spec fn parse_body_s(ls: Seq<LexG>) -> Option<Seq<InstrG>> {
    if forall|i: int| 0 <= i < ls.len() ==> parse_simple_s(#[trigger] ls[i]) is Some {
        Some(Seq::new(ls.len(), |i: int| parse_simple_s(ls[i])->0))
    } else {
        None
    }
}

/// What one top-level lexeme parses to. A `Definition` lexeme is
/// re-lexed; its first lexeme names the word and the rest form its
/// body.
pub open spec fn parse_one_s(l: LexG) -> Option<TokG> {
    if l.t is Definition {
        match lex_s(l.s, 0) {
            None => None,
            Some(ls) => if ls.len() == 0 {
                None
            } else {
                match parse_body_s(ls.skip(1)) {
                    Some(b) => Some(TokG::Def(ls[0].s, b)),
                    None => None,
                }
            },
        }
    } else {
        match parse_simple_s(l) {
            Some(g) => Some(tok_of_instr_g(g)),
            None => None,
        }
    }
}

/// Lift an instruction image to a token image. `Nop` never arises
/// here: only a declaration lowers to it, and `parse_simple_s` yields
/// no declaration.
pub open spec fn tok_of_instr_g(g: InstrG) -> TokG {
    match g {
        InstrG::Word(n) => TokG::Word(n),
        InstrG::Data(d) => TokG::Data(d),
        InstrG::Builtin(b) => TokG::Builtin(b),
        InstrG::Nop => TokG::Builtin(Builtins::Forward),
    }
}

/// What a lexed line parses to, failing if any lexeme does.
pub open spec fn parse_toks_s(ls: Seq<LexG>) -> Option<Seq<TokG>> {
    if forall|i: int| 0 <= i < ls.len() ==> parse_one_s(#[trigger] ls[i]) is Some {
        Some(Seq::new(ls.len(), |i: int| parse_one_s(ls[i])->0))
    } else {
        None
    }
}

/// What one line of source text parses to.
pub open spec fn parse_line_s(text: Seq<char>) -> Option<Seq<TokG>> {
    match lex_s(text, 0) {
        None => None,
        Some(ls) => parse_toks_s(ls),
    }
}

/// Parse the body of an array literal: whitespace-separated integer
/// literals.
fn parse_array_body(v: &Vec<char>) -> (r: Result<Vec<Prim>, ErrorType>)
    ensures
        match r {
            Ok(d) => array_val_s(v@) == Some(d@),
            Err(e) => e == ErrorType::Parse && array_val_s(v@) is None,
        },
{
    let pieces = split_ws(v);
    let ghost pg = vecs_v(pieces@);
    let mut d: Vec<Prim> = Vec::new();
    let mut k: usize = 0;
    while k < pieces.len()
        invariant
            pg == split_ws_from(v@, 0),
            pg == vecs_v(pieces@),
            k <= pieces@.len(),
            d@.len() == k,
            forall|j: int| 0 <= j < k ==> parse_int_s(#[trigger] pg[j]) is Some,
            forall|j: int| 0 <= j < k ==> d@[j] == Prim::Num(parse_int_s(pg[j])->0),
        decreases pieces@.len() - k,
    {
        match parse_int(&pieces[k]) {
            Some(x) => {
                d.push(Prim::Num(x));
            },
            None => {
                proof {
                    assert(parse_int_s(pg[k as int]) is None);
                }
                return Err(ErrorType::Parse);
            },
        }
        k = k + 1;
    }
    proof {
        assert(array_val_s(v@) matches Some(s) && s =~= d@);
    }
    Ok(d)
}

/// Parse one lexeme of a word body, where no definition can occur.
fn parse_simple(l: &Lexeme) -> (r: Result<Instr, ErrorType>)
    ensures
        match r {
            Ok(x) => parse_simple_s(l@) == Some(instr_v(x)),
            Err(e) => e == ErrorType::Parse && parse_simple_s(l@) is None,
        },
{
    match l.ty {
        LexemeType::Number => match parse_int(&l.string) {
            Some(x) => {
                let a = A::from_num(x);
                proof {
                    assert(a.d@ =~= seq![Prim::Num(x)]);
                }
                Ok(Instr::Data(a))
            },
            None => Err(ErrorType::Parse),
        },
        LexemeType::Str => {
            let a = A::from_chars(&l.string);
            proof {
                lemma_chars_data(l@.s);
                assert(a.d@ =~= chars_data(l@.s));
            }
            Ok(Instr::Data(a))
        },
        LexemeType::Array => match parse_array_body(&l.string) {
            Ok(d) => Ok(Instr::Data(A::new(d))),
            Err(e) => Err(e),
        },
        LexemeType::Word => Ok(Instr::Word(chars_to_string(&l.string))),
        LexemeType::Definition => Err(ErrorType::Parse),
        LexemeType::Print => Ok(Instr::Builtin(Builtins::Print)),
        LexemeType::If => Ok(Instr::Builtin(Builtins::If)),
        LexemeType::Do => Ok(Instr::Builtin(Builtins::Do)),
        LexemeType::And => Ok(Instr::Builtin(Builtins::And)),
        LexemeType::Or => Ok(Instr::Builtin(Builtins::Or)),
        LexemeType::Forward => Ok(Instr::Builtin(Builtins::Forward)),
        LexemeType::Plus => Ok(Instr::Builtin(Builtins::Plus)),
        LexemeType::Equal => Ok(Instr::Builtin(Builtins::Equal)),
        LexemeType::Minus => Ok(Instr::Builtin(Builtins::Minus)),
        LexemeType::Multiply => Ok(Instr::Builtin(Builtins::Multiply)),
        LexemeType::Divide => Ok(Instr::Builtin(Builtins::Divide)),
        LexemeType::Concat => Ok(Instr::Builtin(Builtins::Concat)),
        LexemeType::Len => Ok(Instr::Builtin(Builtins::Len)),
        LexemeType::Transmute => Ok(Instr::Builtin(Builtins::Transmute)),
        LexemeType::Duplicate => Ok(Instr::Builtin(Builtins::Duplicate)),
        LexemeType::Swap => Ok(Instr::Builtin(Builtins::Swap)),
        LexemeType::Rotate => Ok(Instr::Builtin(Builtins::Rotate)),
        LexemeType::Clear => Ok(Instr::Builtin(Builtins::Clear)),
        LexemeType::ClearButOne => Ok(Instr::Builtin(Builtins::ClearButOne)),
        LexemeType::Pop => Ok(Instr::Builtin(Builtins::Pop)),
    }
}

impl Token {
    /// Parse one top-level lexeme.
    pub fn parse(l: &Lexeme) -> (r: Result<Token, ErrorType>)
        ensures
            match r {
                Ok(t) => parse_one_s(l@) == Some(tok_v(t)),
                Err(e) => e == ErrorType::Parse && parse_one_s(l@) is None,
            },
    {
        match l.ty {
            LexemeType::Definition => {
                let ls = match lex_chars(&l.string) {
                    Ok(ls) => ls,
                    Err(e) => {
                        return Err(e);
                    },
                };
                let ghost lgs = lexs_v(ls@);
                if ls.len() == 0 {
                    return Err(ErrorType::Parse);
                }
                let name = chars_to_string(&ls[0].string);
                let mut body: Vec<Instr> = Vec::new();
                let mut k: usize = 1;
                while k < ls.len()
                    invariant
                        lgs == lexs_v(ls@),
                        lex_s(l@.s, 0) == Some(lgs),
                        l.ty is Definition,
                        1 <= k <= ls@.len(),
                        body@.len() == k - 1,
                        forall|j: int|
                            0 <= j < k - 1 ==> parse_simple_s(#[trigger] lgs[j + 1]) == Some(
                                instr_v(body@[j]),
                            ),
                    decreases ls@.len() - k,
                {
                    match parse_simple(&ls[k]) {
                        Ok(x) => {
                            body.push(x);
                        },
                        Err(e) => {
                            proof {
                                assert(lgs.skip(1)[k - 1] == lgs[k as int]);
                                assert(parse_body_s(lgs.skip(1)) is None);
                            }
                            return Err(e);
                        },
                    }
                    k = k + 1;
                }
                proof {
                    let bs = lgs.skip(1);
                    assert(forall|j: int|
                        0 <= j < bs.len() ==> #[trigger] bs[j] == lgs[j + 1]);
                    assert(parse_body_s(bs) matches Some(b) && b =~= instrs_v(body@));
                }
                Ok(Token::Definition((name, body)))
            },
            _ => match parse_simple(l) {
                Ok(x) => Ok(instr_to_token(x)),
                Err(e) => Err(e),
            },
        }
    }
}

/// Rebuild a top-level token from a body instruction.
fn instr_to_token(x: Instr) -> (t: Token)
    ensures
        tok_v(t) == tok_of_instr_g(instr_v(x)),
{
    match x {
        Instr::Word(n) => Token::Word(n),
        Instr::Data(a) => Token::Data(a),
        Instr::Builtin(b) => Token::Builtin(b),
        Instr::Nop => Token::Builtin(Builtins::Forward),
    }
}

/// Parse a lexed line into its token sequence.
pub(crate) fn parse_ast(lexemes: &Vec<Lexeme>) -> (r: Result<Ast, ErrorType>)
    ensures
        match r {
            Ok(ast) => parse_toks_s(lexs_v(lexemes@)) == Some(toks_v(ast@)),
            Err(e) => e == ErrorType::Parse && parse_toks_s(lexs_v(lexemes@)) is None,
        },
{
    let ghost lgs = lexs_v(lexemes@);
    let mut ast: Vec<Token> = Vec::new();
    let mut k: usize = 0;
    while k < lexemes.len()
        invariant
            lgs == lexs_v(lexemes@),
            k <= lexemes@.len(),
            ast@.len() == k,
            forall|j: int|
                0 <= j < k ==> parse_one_s(#[trigger] lgs[j]) == Some(tok_v(ast@[j])),
        decreases lexemes@.len() - k,
    {
        match Token::parse(&lexemes[k]) {
            Ok(t) => {
                ast.push(t);
            },
            Err(e) => {
                proof {
                    assert(parse_one_s(lgs[k as int]) is None);
                }
                return Err(e);
            },
        }
        k = k + 1;
    }
    proof {
        assert(parse_toks_s(lgs) matches Some(ts) && ts =~= toks_v(ast@));
    }
    Ok(ast)
}

/// Copy one instruction.
fn clone_instr(x: &Instr) -> (r: Instr)
    ensures
        instr_v(r) == instr_v(*x),
{
    match x {
        Instr::Word(n) => Instr::Word(n.clone()),
        Instr::Data(a) => Instr::Data(a.clone()),
        Instr::Builtin(b) => Instr::Builtin(*b),
        Instr::Nop => Instr::Nop,
    }
}

/// Copy a word body.
pub fn clone_body(b: &Body) -> (r: Body)
    ensures
        instrs_v(r@) == instrs_v(b@),
{
    let mut r: Vec<Instr> = Vec::new();
    let mut k: usize = 0;
    while k < b.len()
        invariant
            k <= b@.len(),
            r@.len() == k,
            forall|j: int| 0 <= j < k ==> instr_v(#[trigger] r@[j]) == instr_v(b@[j]),
        decreases b@.len() - k,
    {
        r.push(clone_instr(&b[k]));
        k = k + 1;
    }
    proof {
        assert(instrs_v(r@) =~= instrs_v(b@));
    }
    r
}

/// Harvest every top-level definition into a dictionary fragment, in
/// order, later definitions of a name replacing earlier ones. It does
/// not descend into definition bodies.
pub fn resolve_words(tokens: &Ast) -> (r: Dict)
    ensures
        r@ == words_of(toks_v(tokens@)),
{
    let ghost ts = toks_v(tokens@);
    let mut words = Dict::new();
    let mut k: usize = 0;
    proof {
        assert(ts.take(0) =~= Seq::<TokG>::empty());
    }
    while k < tokens.len()
        invariant
            ts == toks_v(tokens@),
            k <= tokens@.len(),
            words@ == words_of(ts.take(k as int)),
        decreases tokens@.len() - k,
    {
        match &tokens[k] {
            Token::Definition((n, b)) => {
                words.insert(n.clone(), clone_body(b));
            },
            _ => {},
        }
        proof {
            assert(ts.take(k + 1).drop_last() =~= ts.take(k as int));
            assert(ts.take(k + 1).last() == tok_v(tokens@[k as int]));
        }
        k = k + 1;
    }
    proof {
        assert(ts.take(tokens@.len() as int) =~= ts);
    }
    words
}

/// Parse one line of source text: its token sequence, and the
/// dictionary fragment of the definitions it holds.
pub fn parse(buf: &str) -> (r: Result<(Ast, Dict), ErrorType>)
    ensures
        match r {
            Ok((ast, dict)) => parse_line_s(buf@) == Some(toks_v(ast@)) && dict@ == words_of(
                toks_v(ast@),
            ),
            Err(e) => e == ErrorType::Parse && parse_line_s(buf@) is None,
        },
{
    let v = crate::text::chars_of(buf);
    let lexemes = match lex_chars(&v) {
        Ok(ls) => ls,
        Err(e) => {
            return Err(e);
        },
    };
    let ast = match parse_ast(&lexemes) {
        Ok(a) => a,
        Err(e) => {
            return Err(e);
        },
    };
    let words = resolve_words(&ast);
    Ok((ast, words))
}

} // verus!
