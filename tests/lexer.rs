use smoke::lexer::{tokenize, AnalysisMeta, Analyzer, Error};
use smoke::token::{LexemeLocation, Position, Token, TokenExt};

fn tokens_of(src: &str) -> Vec<TokenExt> {
    tokenize(src.chars().collect(), AnalysisMeta::default()).unwrap()
}

fn kinds_of(src: &str) -> Vec<Token> {
    tokens_of(src).into_iter().map(|t| t.token).collect()
}

#[test]
fn longest_match_takes_equal_equal() {
    assert_eq!(kinds_of("=="), vec![Token::EqualEqual]);
    assert_eq!(kinds_of("= ="), vec![Token::Equal, Token::Equal]);
    assert_eq!(kinds_of("<=>="), vec![Token::LessEqual, Token::GreaterEqual]);
}

#[test]
fn numeral_longest_match_takes_whole_float() {
    assert_eq!(kinds_of("3.14"), vec![Token::Float("3.14".to_string())]);
    assert_eq!(kinds_of("0.0"), vec![Token::Float("0.0".to_string())]);
    assert_eq!(kinds_of("1e5"), vec![Token::Float("1e5".to_string())]);
}

#[test]
fn keyword_prefix_stays_identifier() {
    assert_eq!(kinds_of("function"), vec![Token::Identifier("function".to_string())]);
    assert_eq!(kinds_of("fn"), vec![Token::Function]);
    assert_eq!(kinds_of("lets"), vec![Token::Identifier("lets".to_string())]);
}

#[test]
fn equal_length_ties_go_to_earlier_recognizer() {
    assert_eq!(kinds_of("nil"), vec![Token::Nil]);
    assert_eq!(kinds_of("true false"), vec![Token::Bool(true), Token::Bool(false)]);
    assert_eq!(kinds_of("0"), vec![Token::Integer(0)]);
    assert_eq!(kinds_of("nan"), vec![Token::Identifier("nan".to_string())]);
}

#[test]
fn integers_that_overflow_become_floats() {
    assert_eq!(kinds_of("9223372036854775807"), vec![Token::Integer(i64::MAX)]);
    assert_eq!(
        kinds_of("9223372036854775808"),
        vec![Token::Float("9223372036854775808".to_string())]
    );
}

#[test]
fn numerals_stop_before_other_characters() {
    assert_eq!(
        kinds_of("(12)"),
        vec![Token::ParenLeft, Token::Integer(12), Token::ParenRight]
    );
    assert_eq!(kinds_of("-7"), vec![Token::Minus, Token::Integer(7)]);
}

#[test]
fn strings_keep_inner_text() {
    let toks = tokens_of("\"hi there\" x");
    assert_eq!(toks[0].token, Token::Str("hi there".to_string()));
    assert_eq!(toks[0].lexeme.content, "\"hi there\"");
    assert_eq!(toks[1].token, Token::Identifier("x".to_string()));
}

#[test]
fn unterminated_string_is_unrecognized() {
    let r = tokenize("\"abc".chars().collect(), AnalysisMeta::default());
    assert_eq!(
        r.unwrap_err(),
        Error::UnrecognizedCharacter { position: Position { line: 0, column: 0 } }
    );
}

#[test]
fn unrecognized_character_is_reported_with_position() {
    let r = tokenize("1 +\n  # 2".chars().collect(), AnalysisMeta::default());
    assert_eq!(
        r.unwrap_err(),
        Error::UnrecognizedCharacter { position: Position { line: 1, column: 2 } }
    );
}

#[test]
fn lexemes_record_line_and_column() {
    let toks = tokens_of("let x\n  = 10");
    let positions: Vec<LexemeLocation> = toks.iter().map(|t| t.lexeme.location.clone()).collect();
    assert_eq!(
        positions,
        vec![
            LexemeLocation::File { path: None, position: Position { line: 0, column: 0 } },
            LexemeLocation::File { path: None, position: Position { line: 0, column: 4 } },
            LexemeLocation::File { path: None, position: Position { line: 1, column: 2 } },
            LexemeLocation::File { path: None, position: Position { line: 1, column: 4 } },
        ]
    );
}

#[test]
fn repl_lexemes_have_repl_location() {
    let meta = AnalysisMeta { repl: true, file: None };
    let toks = tokenize("a".chars().collect(), meta).unwrap();
    assert_eq!(toks[0].lexeme.location, LexemeLocation::Repl);
    let meta = AnalysisMeta { repl: false, file: Some("m.smoke".to_string()) };
    assert_eq!(
        meta.lexeme_location(Position { line: 3, column: 1 }),
        LexemeLocation::File {
            path: Some("m.smoke".to_string()),
            position: Position { line: 3, column: 1 }
        }
    );
}

#[test]
fn analyzer_yields_tokens_then_none() {
    let mut a = Analyzer::new("a ;".chars().collect(), AnalysisMeta::default());
    assert_eq!(a.next().unwrap().unwrap().token, Token::Identifier("a".to_string()));
    assert_eq!(a.next().unwrap().unwrap().token, Token::Semicolon);
    assert!(a.next().is_none());
    assert!(a.next().is_none());
}

#[test]
fn whitespace_only_source_has_no_tokens() {
    assert!(tokens_of(" \t\n ").is_empty());
    assert!(tokens_of("").is_empty());
}

#[test]
fn parses_static_tokens() {
    let cases: Vec<(&str, Vec<Token>)> = vec![
        ("(", vec![Token::ParenLeft]),
        (")", vec![Token::ParenRight]),
        ("{", vec![Token::CurlyLeft]),
        ("}", vec![Token::CurlyRight]),
        ("[", vec![Token::SquareLeft]),
        ("]", vec![Token::SquareRight]),
        (",", vec![Token::Comma]),
        (".", vec![Token::Dot]),
        ("-", vec![Token::Minus]),
        ("+", vec![Token::Plus]),
        ("/", vec![Token::Slash]),
        ("*", vec![Token::Star]),
        ("=", vec![Token::Equal]),
        ("==", vec![Token::Equal, Token::EqualEqual]),
        ("!", vec![Token::Bang]),
        ("!=", vec![Token::Bang, Token::BangEqual]),
        (">", vec![Token::Greater]),
        (">=", vec![Token::Greater, Token::GreaterEqual]),
        ("<", vec![Token::Less]),
        ("<=", vec![Token::Less, Token::LessEqual]),
        ("fn", vec![Token::Function]),
        ("return", vec![Token::Return]),
        ("let", vec![Token::Let]),
        ("if", vec![Token::If]),
        ("else", vec![Token::Else]),
        ("for", vec![Token::For]),
        ("while", vec![Token::While]),
        (";", vec![Token::Semicolon]),
    ];
    for (src, correct) in cases {
        let chars: Vec<char> = src.chars().collect();
        let parses: Vec<Token> = Token::parse_from(&chars)
            .into_iter()
            .map(|(_, tk)| tk)
            .filter(|tk| {
                !matches!(
                    tk,
                    Token::Identifier(_) | Token::Integer(_) | Token::Float(_) | Token::Str(_)
                )
            })
            .collect();
        assert_eq!(
            parses, correct,
            "Parser results were incorrect\nParser Results: {:#?}\nCorrect Results: {:#?}",
            parses, correct
        );
    }
}

#[test]
fn parses_tokens() {
    let id = |s: &str| Token::Identifier(s.to_string());
    let fl = |s: &str| Token::Float(s.to_string());
    let cases: Vec<(&str, Vec<(&str, Token)>)> = vec![
        ("(", vec![("(", Token::ParenLeft)]),
        (")", vec![(")", Token::ParenRight)]),
        ("{", vec![("{", Token::CurlyLeft)]),
        ("}", vec![("}", Token::CurlyRight)]),
        ("[", vec![("[", Token::SquareLeft)]),
        ("]", vec![("]", Token::SquareRight)]),
        (",", vec![(",", Token::Comma)]),
        (".", vec![(".", Token::Dot)]),
        ("-", vec![("-", Token::Minus)]),
        ("+", vec![("+", Token::Plus)]),
        ("/", vec![("/", Token::Slash)]),
        ("*", vec![("*", Token::Star)]),
        ("=", vec![("=", Token::Equal)]),
        ("==", vec![("=", Token::Equal), ("==", Token::EqualEqual)]),
        ("!", vec![("!", Token::Bang)]),
        ("!=", vec![("!", Token::Bang), ("!=", Token::BangEqual)]),
        (">", vec![(">", Token::Greater)]),
        (">=", vec![(">", Token::Greater), (">=", Token::GreaterEqual)]),
        ("<", vec![("<", Token::Less)]),
        ("<=", vec![("<", Token::Less), ("<=", Token::LessEqual)]),
        ("fn", vec![("fn", Token::Function), ("fn", id("fn"))]),
        ("nil", vec![("nil", Token::Nil), ("nil", id("nil"))]),
        ("true", vec![("true", Token::Bool(true)), ("true", id("true"))]),
        ("false", vec![("false", Token::Bool(false)), ("false", id("false"))]),
        ("0", vec![("0", Token::Integer(0)), ("0", fl("0"))]),
        (
            "0.0",
            vec![
                ("0", Token::Integer(0)),
                ("0", fl("0")),
                ("0.", fl("0.")),
                ("0.0", fl("0.0")),
            ],
        ),
        ("\"string\"", vec![("\"string\"", Token::Str("string".to_string()))]),
        (";", vec![(";", Token::Semicolon)]),
    ];

    for (src, correct) in cases {
        let chars: Vec<char> = src.chars().collect();
        let mut parses = Token::parse_from(&chars);
        parses.sort_by_key(|(s, _)| s.chars().count());
        let correct: Vec<(String, Token)> =
            correct.into_iter().map(|(s, t)| (s.to_string(), t)).collect();
        assert_eq!(
            parses, correct,
            "Parser results were incorrect\nParser Results: {:#?}\nCorrect Results: {:#?}",
            parses, correct
        );
    }
}
