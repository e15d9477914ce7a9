use pascal_interpreter::error::LexError;
use pascal_interpreter::lexer::Lexer;
use pascal_interpreter::token::Token;

fn tokens(text: &str) -> Result<Vec<Token>, LexError> {
    let mut lexer = Lexer::new(text.to_string());
    let mut out = Vec::new();
    while let Some(token) = lexer.get_next_token()? {
        out.push(token);
    }
    Ok(out)
}

#[test]
fn scans_every_symbol() {
    assert_eq!(
        tokens("PROGRAM a_1 := (7 + 8) * 9 - 1 / 2; END_PROGRAM").unwrap(),
        vec![
            Token::Program,
            Token::Id("a_1".to_string()),
            Token::Assign,
            Token::Lparen,
            Token::Integer(7),
            Token::Plus,
            Token::Integer(8),
            Token::Rparen,
            Token::Mul,
            Token::Integer(9),
            Token::Minus,
            Token::Integer(1),
            Token::Div,
            Token::Integer(2),
            Token::Semicolon,
            Token::EndProgram,
        ]
    );
}

#[test]
fn whitespace_is_skipped() {
    assert_eq!(
        tokens("  \t12\n\r\n+ x  ").unwrap(),
        vec![Token::Integer(12), Token::Plus, Token::Id("x".to_string())]
    );
    assert_eq!(tokens("   ").unwrap(), Vec::<Token>::new());
    assert_eq!(tokens("").unwrap(), Vec::<Token>::new());
}

#[test]
fn keywords_are_case_sensitive() {
    assert_eq!(
        tokens("program PROGRAMS END_PROGRAM").unwrap(),
        vec![
            Token::Id("program".to_string()),
            Token::Id("PROGRAMS".to_string()),
            Token::EndProgram,
        ]
    );
}

#[test]
fn identifiers_keep_their_characters() {
    assert_eq!(
        tokens("abc9_z").unwrap(),
        vec![Token::Id("abc9_z".to_string())]
    );
    assert_eq!(
        tokens("7abc").unwrap(),
        vec![Token::Integer(7), Token::Id("abc".to_string())]
    );
}

#[test]
fn largest_literal_is_accepted() {
    assert_eq!(tokens("2147483647").unwrap(), vec![Token::Integer(2147483647)]);
    assert_eq!(tokens("007").unwrap(), vec![Token::Integer(7)]);
}

#[test]
fn overflowing_literal_is_rejected() {
    assert_eq!(
        tokens("1 + 2147483648"),
        Err(LexError::IntegerOverflow { pos: 4 })
    );
    assert_eq!(
        tokens("99999999999999999999"),
        Err(LexError::IntegerOverflow { pos: 0 })
    );
}

#[test]
fn colon_needs_equals() {
    assert_eq!(tokens("x : 1"), Err(LexError::IncompleteAssign { pos: 2 }));
    assert_eq!(tokens("x :"), Err(LexError::IncompleteAssign { pos: 2 }));
}

#[test]
fn unknown_character_is_rejected() {
    assert_eq!(
        tokens("1 # 2"),
        Err(LexError::UnexpectedChar { ch: '#', pos: 2 })
    );
}

#[test]
fn end_of_input_repeats() {
    let mut lexer = Lexer::new("5".to_string());
    assert_eq!(lexer.get_next_token().unwrap(), Some(Token::Integer(5)));
    assert_eq!(lexer.get_next_token().unwrap(), None);
    assert_eq!(lexer.get_next_token().unwrap(), None);
}

#[test]
fn kinds_ignore_payloads() {
    assert!(Token::variant_eq(Token::Integer(1), &Token::Integer(2)));
    assert!(Token::variant_eq(Token::Id("a".to_string()), &Token::Id("b".to_string())));
    assert!(!Token::variant_eq(Token::Plus, &Token::Minus));
    assert!(Token::variant_eq(Token::NoOp, &Token::NoOp));
    assert!(!Token::variant_eq(Token::NoOp, &Token::Semicolon));
    assert!(Token::Integer(1) != Token::Integer(2));
    assert!(Token::Id("a".to_string()) == Token::Id("a".to_string()));
}

#[test]
fn failed_call_consumes_nothing() {
    let mut lexer = Lexer::new("1 ?".to_string());
    assert_eq!(lexer.get_next_token().unwrap(), Some(Token::Integer(1)));
    assert_eq!(
        lexer.get_next_token(),
        Err(LexError::UnexpectedChar { ch: '?', pos: 2 })
    );
    assert_eq!(
        lexer.get_next_token(),
        Err(LexError::UnexpectedChar { ch: '?', pos: 2 })
    );
}

#[test]
fn lexers_over_one_text_agree() {
    let text = "x := 12 * (y - 3); 99999999999 ;";
    let mut first = Lexer::new(text.to_string());
    let mut second = Lexer::new(text.to_string());
    for _ in 0..12 {
        assert_eq!(first.get_next_token(), second.get_next_token());
    }
}
