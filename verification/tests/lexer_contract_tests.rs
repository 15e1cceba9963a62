use lambda_calculus::lexer::Lexer;
use lambda_calculus::lexer::types::{Token, Keyword, AdditiveOps, BooleanOps};

fn lex(input: &str) -> Vec<Token> {
    Lexer::new(input).tokenize().unwrap().clone()
}

#[test]
fn test_lex_error_message_names_byte_and_position() {
    let mut lexer = Lexer::new("@");
    let err = lexer.tokenize().unwrap_err();
    assert_eq!(err.byte, 64);
    assert_eq!(err.position, 0);
    assert_eq!(err.message(), "Lex Error: Unexpected character 64 @ 0.");
}

#[test]
fn test_lex_error_in_the_middle_of_the_input() {
    let mut lexer = Lexer::new("let x = $ in x");
    let err = lexer.tokenize().unwrap_err();
    assert_eq!(err.byte, b'$');
    assert_eq!(err.position, 8);
    assert_eq!(err.message(), "Lex Error: Unexpected character 36 @ 8.");
}

#[test]
fn test_rejected_byte_is_the_input_byte_at_the_position() {
    let input = "fn x => x   # 1";
    let err = Lexer::new(input).tokenize().unwrap_err();
    assert_eq!(input.as_bytes()[err.position], err.byte);
    assert_eq!(err.position, 12);
}

#[test]
fn test_tokens_before_an_error_are_kept() {
    let mut lexer = Lexer::new("1 + ?");
    assert!(lexer.tokenize().is_err());
    assert_eq!(lexer.tokens.len(), 2);
    assert!(matches!(lexer.tokens[0], Token::IntegerLiteral(1)));
    assert!(matches!(lexer.tokens[1], Token::AdditiveOps(AdditiveOps::Add)));
}

#[test]
fn test_leading_white_space_changes_nothing() {
    let plain = lex("x + 1");
    let padded = lex(" \t\n\r x + 1");
    assert_eq!(plain.len(), padded.len());
    assert!(matches!(&padded[0], Token::Identifier(s) if s == "x"));
    assert!(matches!(padded[1], Token::AdditiveOps(AdditiveOps::Add)));
    assert!(matches!(padded[2], Token::IntegerLiteral(1)));
}

#[test]
fn test_white_space_only_gives_no_tokens() {
    assert_eq!(lex(" \n\t\r ").len(), 0);
}

#[test]
fn test_keyword_followed_by_bracket_is_a_keyword() {
    let tokens = lex("(true)");
    assert_eq!(tokens.len(), 3);
    assert!(matches!(tokens[0], Token::LParen));
    assert!(matches!(tokens[1], Token::BooleanLiteral(true)));
    assert!(matches!(tokens[2], Token::RParen));
}

#[test]
fn test_keyword_followed_by_operator_is_a_keyword() {
    let tokens = lex("if x<1 then-1 else 2");
    assert!(matches!(tokens[0], Token::Keyword(Keyword::If)));
    assert!(matches!(tokens[2], Token::BooleanOps(BooleanOps::LessThan)));
    assert!(matches!(tokens[4], Token::Keyword(Keyword::Then)));
    assert!(matches!(tokens[5], Token::IntegerLiteral(-1)));
    assert!(matches!(tokens[6], Token::Keyword(Keyword::Else)));
}

#[test]
fn test_lone_underscore_yields_no_token() {
    let tokens = lex("_ a_b _c");
    assert_eq!(tokens.len(), 2);
    assert!(matches!(&tokens[0], Token::Identifier(s) if s == "a_b"));
    assert!(matches!(&tokens[1], Token::Identifier(s) if s == "_c"));
}

#[test]
fn test_negative_literal_after_equal_sign_and_keyword() {
    let tokens = lex("let x = -3 in x");
    assert!(matches!(tokens[3], Token::IntegerLiteral(-3)));
    assert!(matches!(tokens[4], Token::Keyword(Keyword::In)));
}

#[test]
fn test_extreme_integer_literals() {
    let tokens = lex("9223372036854775807 (-9223372036854775808)");
    assert!(matches!(tokens[0], Token::IntegerLiteral(i64::MAX)));
    assert!(matches!(tokens[2], Token::IntegerLiteral(i64::MIN)));
}

#[test]
fn test_digits_followed_by_letters_split() {
    let tokens = lex("12ab");
    assert_eq!(tokens.len(), 2);
    assert!(matches!(tokens[0], Token::IntegerLiteral(12)));
    assert!(matches!(&tokens[1], Token::Identifier(s) if s == "ab"));
}

#[test]
fn test_second_tokenize_adds_nothing() {
    let mut lexer = Lexer::new("1 2");
    assert_eq!(lexer.tokenize().unwrap().len(), 2);
    assert_eq!(lexer.tokenize().unwrap().len(), 2);
}

#[test]
fn test_comparison_symbols_without_spaces() {
    let tokens = lex("a<=b==c>=d=>e");
    assert!(matches!(tokens[1], Token::BooleanOps(BooleanOps::LessThanEqualTo)));
    assert!(matches!(tokens[3], Token::BooleanOps(BooleanOps::Equality)));
    assert!(matches!(tokens[5], Token::BooleanOps(BooleanOps::GreaterThanEqualTo)));
    assert!(matches!(tokens[7], Token::Arrow));
}
