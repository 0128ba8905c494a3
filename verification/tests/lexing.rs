use mathematician::lexer::Lexer;
use mathematician::lexer::Operator;
use mathematician::lexer::Token;

#[test]
fn tokenizes_integers_and_operators_with_whitespace() {
    let mut lexer = Lexer::default();
    assert_eq!(lexer.tokenize("1 + 23 * 4"), Ok(()));
    assert_eq!(
        lexer.tokens().as_slice(),
        &[
            Token::Integer(1),
            Token::Operator(Operator::Add),
            Token::Integer(23),
            Token::Operator(Operator::Times),
            Token::Integer(4),
        ]
    );
}

#[test]
fn tokenizes_without_whitespace() {
    let mut lexer = Lexer::default();
    assert_eq!(lexer.tokenize("12-4/3"), Ok(()));
    assert_eq!(
        lexer.tokens().as_slice(),
        &[
            Token::Integer(12),
            Token::Operator(Operator::Sub),
            Token::Integer(4),
            Token::Operator(Operator::Div),
            Token::Integer(3),
        ]
    );
}

#[test]
fn trailing_whitespace_is_trimmed() {
    let mut lexer = Lexer::default();
    assert_eq!(lexer.tokenize("  7  "), Ok(()));
    assert_eq!(lexer.tokens().as_slice(), &[Token::Integer(7)]);
}

#[test]
fn empty_input_fails() {
    let mut lexer = Lexer::default();
    let err = lexer.tokenize("").unwrap_err();
    assert_eq!(err, "Cannot find digits");
    assert!(lexer.tokens().is_empty());
}

#[test]
fn stray_character_fails_keeping_earlier_tokens() {
    let mut lexer = Lexer::default();
    let err = lexer.tokenize("1 + x").unwrap_err();
    assert_eq!(err, "Cannot find digits");
    assert_eq!(
        lexer.tokens().as_slice(),
        &[Token::Integer(1), Token::Operator(Operator::Add)]
    );
}

#[test]
fn integer_too_large_for_a_token_fails() {
    let mut lexer = Lexer::default();
    let err = lexer.tokenize("99999999999").unwrap_err();
    assert_eq!(err, "Cannot find digits");
}

#[test]
fn consecutive_operators_tokenize() {
    let mut lexer = Lexer::default();
    assert_eq!(lexer.tokenize("1+-2"), Ok(()));
    assert_eq!(
        lexer.tokens().as_slice(),
        &[
            Token::Integer(1),
            Token::Operator(Operator::Add),
            Token::Operator(Operator::Sub),
            Token::Integer(2),
        ]
    );
}

#[test]
fn tokenize_appends_to_tokens_already_collected() {
    let mut lexer = Lexer::default();
    assert_eq!(lexer.tokenize("1"), Ok(()));
    assert_eq!(lexer.tokenize("2"), Ok(()));
    assert_eq!(
        lexer.tokens().as_slice(),
        &[Token::Integer(1), Token::Integer(2)]
    );
}
