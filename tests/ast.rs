use daru_script::daruscript_v1::typed::TypeVars;
use daru_script::daruscript_v1::untyped::Expr::{Add, Div, Fun, Id, Mul, Num, Sub, Val};
use daru_script::language::gen_ast;
use daru_script::language::parser::{ParseError, Parser};
use daru_script::daruscript_v1::scanner::{Literal, ScanError, Scanner, TokenKind, parse_digits};

#[test]
fn ast_addition_ast() {
    let mut vars = TypeVars::new();
    let mut ast = |s: &str| gen_ast(s, &mut vars).unwrap().type_erase();
    assert_eq!(ast("1+2"), Add(Box::new(Num(1)), Box::new(Num(2))));
    assert_eq!(
        ast("1+2+3"),
        Add(Box::new(Add(Box::new(Num(1)), Box::new(Num(2)))), Box::new(Num(3)))
    );
    assert_eq!(
        ast("1+(2+3)"),
        Add(Box::new(Num(1)), Box::new(Add(Box::new(Num(2)), Box::new(Num(3)))))
    );
    assert_eq!(ast("5-3"), Sub(Box::new(Num(5)), Box::new(Num(3))));
    assert_eq!(
        ast("{val x = 6; 1 + x}"),
        Val(
            String::from("x"),
            Box::new(Num(6)),
            Box::new(Add(Box::new(Num(1)), Box::new(Id(String::from("x")))))
        )
    );
    assert_eq!(ast("4*2"), Mul(Box::new(Num(4)), Box::new(Num(2))));
    assert_eq!(ast("8/4"), Div(Box::new(Num(8)), Box::new(Num(4))));
    assert_eq!(
        ast("6*3+2"),
        Add(Box::new(Mul(Box::new(Num(6)), Box::new(Num(3)))), Box::new(Num(2)))
    );
    assert_eq!(
        ast("10/(5-3)"),
        Div(Box::new(Num(10)), Box::new(Sub(Box::new(Num(5)), Box::new(Num(3)))))
    );
}

#[test]
fn scanner_tokens() {
    let tokens = Scanner::new("val x1 = 42 >= 1.5 != \"hi\"".to_string()).scan().unwrap();
    let kinds: Vec<TokenKind> = tokens.iter().map(|t| t.kind).collect();
    assert_eq!(
        kinds,
        vec![
            TokenKind::Val,
            TokenKind::Ident,
            TokenKind::Equals,
            TokenKind::Literal,
            TokenKind::GreaterOrEquals,
            TokenKind::Literal,
            TokenKind::BangEquals,
            TokenKind::Literal,
            TokenKind::Eof
        ]
    );
    assert_eq!(tokens[1].lexeme, "x1");
    assert_eq!(tokens[3].literal, Some(Literal::Num(42)));
    assert_eq!(tokens[5].literal, Some(Literal::Float("1.5".to_string())));
    assert_eq!(tokens[7].literal, Some(Literal::Str("hi".to_string())));
}

#[test]
fn scanner_errors() {
    assert_eq!(Scanner::new("1\n#".to_string()).scan().err(), Some(ScanError::UnexpectedCharacter(2)));
    assert_eq!(Scanner::new("\"abc".to_string()).scan().err(), Some(ScanError::UnterminatedString(1)));
    assert_eq!(
        Scanner::new("99999999999999999999".to_string()).scan().err(),
        Some(ScanError::NumberTooLarge(1))
    );
}

#[test]
fn digits_parse() {
    assert_eq!(parse_digits("0"), Some(0));
    assert_eq!(parse_digits("9223372036854775807"), Some(9223372036854775807));
    assert_eq!(parse_digits("9223372036854775808"), None);
    assert_eq!(parse_digits("12a"), None);
}

#[test]
fn parser_errors() {
    let mut vars = TypeVars::new();
    let parse = |s: &str, vars: &mut TypeVars| {
        let tokens = Scanner::new(s.to_string()).scan().unwrap();
        Parser::new(tokens).parse(vars)
    };
    assert_eq!(parse("", &mut vars), Ok(None));
    assert_eq!(parse("1 < 2", &mut vars), Err(ParseError::Unsupported(1)));
    assert_eq!(parse("!1", &mut vars), Err(ParseError::Unsupported(1)));
    assert_eq!(parse("1.5", &mut vars), Err(ParseError::Unsupported(1)));
    assert_eq!(parse("1 2", &mut vars), Err(ParseError::ExpectedEof(1)));
    assert_eq!(parse("(1", &mut vars), Err(ParseError::UnexpectedToken(1)));
    assert_eq!(Parser::new(vec![]).parse(&mut vars), Err(ParseError::MissingEof));
}
