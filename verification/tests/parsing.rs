use stacklang::array::Prim;
use stacklang::lexer::{lex, LexemeType};
use stacklang::parser::{parse, Builtins, Instr, Token};

#[test]
fn lexemes_are_classified_by_the_operator_table() {
    let ls = lex("dup <> then -> frob 12 \"s\" [ 1 ] clr1").unwrap();
    let kinds: Vec<LexemeType> = ls.iter().map(|l| l.ty).collect();
    assert_eq!(
        kinds,
        vec![
            LexemeType::Duplicate,
            LexemeType::Duplicate,
            LexemeType::Forward,
            LexemeType::Forward,
            LexemeType::Word,
            LexemeType::Number,
            LexemeType::Str,
            LexemeType::Array,
            LexemeType::ClearButOne,
        ]
    );
}

#[test]
fn tokens_mirror_their_lexemes() {
    let (ast, _) = parse("3 [ 1 2 ] + w").unwrap();
    assert_eq!(ast.len(), 4);
    match &ast[0] {
        Token::Data(a) => assert_eq!(a.d, vec![Prim::Num(3)]),
        _ => panic!("expected a data token"),
    }
    match &ast[1] {
        Token::Data(a) => assert_eq!(a.d, vec![Prim::Num(1), Prim::Num(2)]),
        _ => panic!("expected a data token"),
    }
    match &ast[2] {
        Token::Builtin(b) => assert_eq!(*b, Builtins::Plus),
        _ => panic!("expected a builtin token"),
    }
    match &ast[3] {
        Token::Word(n) => assert_eq!(n, "w"),
        _ => panic!("expected a word token"),
    }
}

#[test]
fn definitions_are_harvested_into_the_dictionary() {
    let (ast, words) = parse(": sq dup * ; 2 sq").unwrap();
    assert_eq!(ast.len(), 3);
    let body = words.get(&"sq".to_string()).expect("sq should be defined");
    assert_eq!(body.len(), 2);
    assert!(matches!(body[0], Instr::Builtin(Builtins::Duplicate)));
    assert!(matches!(body[1], Instr::Builtin(Builtins::Multiply)));
    assert!(words.get(&"missing".to_string()).is_none());
}

#[test]
fn string_contents_are_trimmed() {
    let (ast, _) = parse("\"  a b \"").unwrap();
    match &ast[0] {
        Token::Data(a) => {
            let text: String = a
                .d
                .iter()
                .map(|p| match p {
                    Prim::Char(c) => *c,
                    Prim::Num(_) => panic!("expected characters"),
                })
                .collect();
            assert_eq!(text, "a b");
        },
        _ => panic!("expected a data token"),
    }
}

#[test]
fn nested_definitions_are_parse_errors() {
    assert!(parse(": w : x ;").is_err());
}
