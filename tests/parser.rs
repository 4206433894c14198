use smoke::ast::{Ast, Literal, Operation, Operator};
use smoke::lexer::{tokenize, AnalysisMeta};
use smoke::parser::{Error, Expected, Parser};
use smoke::token::Token;

fn parser_of(src: &str) -> Parser {
    Parser::new(tokenize(src.chars().collect(), AnalysisMeta::default()).unwrap())
}

fn num(n: i64) -> Ast {
    Ast::Literal(Literal::Integer(n))
}

fn bin(op: Operator, l: Ast, r: Ast) -> Ast {
    Ast::Operation(Operation::binary(op, (l, r)))
}

fn un(op: Operator, a: Ast) -> Ast {
    Ast::Operation(Operation::unary(op, a))
}

#[test]
fn multiplication_binds_tighter_than_addition() {
    let ast = parser_of("1 + 2 * 3").parse().unwrap();
    assert_eq!(ast, bin(Operator::Add, num(1), bin(Operator::Multiply, num(2), num(3))));
}

#[test]
fn minus_is_negation_or_subtraction_by_position() {
    let ast = parser_of("-1 - -2").parse().unwrap();
    assert_eq!(
        ast,
        bin(Operator::Subtract, un(Operator::Negate, num(1)), un(Operator::Negate, num(2)))
    );
}

#[test]
fn binary_operators_fold_left() {
    let ast = parser_of("1 - 2 - 3").parse().unwrap();
    assert_eq!(
        ast,
        bin(Operator::Subtract, bin(Operator::Subtract, num(1), num(2)), num(3))
    );
    let ast = parser_of("1 < 2 == true").parse().unwrap();
    assert_eq!(
        ast,
        bin(
            Operator::Equal,
            bin(Operator::Less, num(1), num(2)),
            Ast::Literal(Literal::Bool(true))
        )
    );
}

#[test]
fn parentheses_make_a_single_grouping() {
    let ast = parser_of("(1 + 2) * 3").parse().unwrap();
    assert_eq!(
        ast,
        bin(Operator::Multiply, Ast::Grouping(vec![bin(Operator::Add, num(1), num(2))]), num(3))
    );
}

#[test]
fn blocks_hold_their_expressions() {
    let ast = parser_of("{ let x = 1; x }").parse().unwrap();
    assert_eq!(
        ast,
        Ast::Grouping(vec![
            Ast::Declaration { name: "x".to_string(), value: Box::new(num(1)) },
            Ast::Reference("x".to_string()),
        ])
    );
    assert_eq!(parser_of("{}").parse().unwrap(), Ast::Grouping(vec![]));
}

#[test]
fn function_declaration_binds_a_function() {
    let ast = parser_of("fn add(a, b) a + b").parse().unwrap();
    assert_eq!(
        ast,
        Ast::Declaration {
            name: "add".to_string(),
            value: Box::new(Ast::Function {
                arguments: vec!["a".to_string(), "b".to_string()],
                body: Box::new(bin(
                    Operator::Add,
                    Ast::Reference("a".to_string()),
                    Ast::Reference("b".to_string())
                )),
            }),
        }
    );
}

#[test]
fn calls_take_argument_lists() {
    let ast = parser_of("f(1, 2)()").parse().unwrap();
    assert_eq!(
        ast,
        Ast::FunctionApplication {
            function: Box::new(Ast::FunctionApplication {
                function: Box::new(Ast::Reference("f".to_string())),
                arguments: vec![num(1), num(2)],
            }),
            arguments: vec![],
        }
    );
}

#[test]
fn program_splits_on_semicolons() {
    let prog = parser_of("let x = 1; x;").parse_program().unwrap();
    assert_eq!(
        prog,
        vec![
            Ast::Declaration { name: "x".to_string(), value: Box::new(num(1)) },
            Ast::Reference("x".to_string()),
        ]
    );
    assert!(parser_of("").parse_program().unwrap().is_empty());
}

#[test]
fn missing_closing_paren_is_reported() {
    assert_eq!(
        parser_of("(1").parse().unwrap_err(),
        Error::UnexpectedToken { expected: Expected::ClosingParen, found: None }
    );
    assert_eq!(
        parser_of("(1 2").parse().unwrap_err(),
        Error::UnexpectedToken { expected: Expected::ClosingParen, found: Some("2".to_string()) }
    );
}

#[test]
fn reserved_keywords_are_not_expressions() {
    for kw in ["if", "else", "for", "while", "return"] {
        assert_eq!(
            parser_of(kw).parse().unwrap_err(),
            Error::UnexpectedToken { expected: Expected::Expression, found: Some(kw.to_string()) }
        );
    }
    assert_eq!(
        parser_of("").parse().unwrap_err(),
        Error::UnexpectedToken { expected: Expected::Expression, found: None }
    );
}

#[test]
fn declaration_errors_name_what_was_missing() {
    assert_eq!(
        parser_of("let = 1").parse().unwrap_err(),
        Error::UnexpectedToken { expected: Expected::Identifier, found: Some("=".to_string()) }
    );
    assert_eq!(
        parser_of("let x 1").parse().unwrap_err(),
        Error::UnexpectedToken { expected: Expected::Assignment, found: Some("1".to_string()) }
    );
    assert_eq!(
        parser_of("fn (a) a").parse().unwrap_err(),
        Error::UnexpectedToken { expected: Expected::FunctionName, found: Some("(".to_string()) }
    );
    assert_eq!(
        parser_of("fn f a").parse().unwrap_err(),
        Error::UnexpectedToken { expected: Expected::OpeningParen, found: Some("a".to_string()) }
    );
    assert_eq!(
        parser_of("{ 1 2 }").parse().unwrap_err(),
        Error::UnexpectedToken { expected: Expected::ClosingCurly, found: Some("2".to_string()) }
    );
    assert_eq!(
        parser_of("1 2").parse_program().unwrap_err(),
        Error::UnexpectedToken { expected: Expected::Semicolon, found: Some("2".to_string()) }
    );
}

#[test]
fn operator_conversions_resolve_minus_by_context() {
    assert_eq!(Operator::try_from_token_unary(&Token::Minus), Ok(Operator::Negate));
    assert_eq!(Operator::try_from_token_binary(&Token::Minus), Ok(Operator::Subtract));
    assert_eq!(Operator::try_from_token(&Token::Minus), Err(Error::Internal));
    assert_eq!(Operator::try_from_token_binary(&Token::Star), Ok(Operator::Multiply));
    assert_eq!(Operator::try_from_token_unary(&Token::Bang), Ok(Operator::Not));
    assert_eq!(Operator::try_from_token(&Token::Comma), Err(Error::Internal));
}

#[test]
fn deep_nesting_is_refused_by_the_parser() {
    let src = format!("{}1{}", "(".repeat(500), ")".repeat(500));
    assert_eq!(parser_of(&src).parse().unwrap_err(), Error::TooDeep);
    let src = format!("{}1{}", "(".repeat(20), ")".repeat(20));
    assert!(parser_of(&src).parse().is_ok());
}

#[test]
fn long_operator_chains_parse() {
    let src = format!("1{}", " + 1".repeat(5000));
    assert!(parser_of(&src).parse().is_ok());
}

#[test]
fn literal_tokens_convert_to_literals() {
    assert_eq!(Literal::try_from_token(&Token::Integer(4)), Ok(Literal::Integer(4)));
    assert_eq!(
        Literal::try_from_token(&Token::Str("s".to_string())),
        Ok(Literal::Str("s".to_string()))
    );
    assert_eq!(Literal::try_from_token(&Token::Nil), Ok(Literal::Nil));
    assert_eq!(Literal::try_from_token(&Token::Let), Err(Error::Internal));
}
