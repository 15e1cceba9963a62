use lambda_calculus::ast::parse;
use lambda_calculus::ast::types::{Expr, Atom, ParseError, Expected};
use lambda_calculus::lexer::types::{Token, Keyword, AdditiveOps};

fn ident(s: &str) -> Token {
    Token::Identifier(s.to_string())
}

#[test]
fn test_missing_arrow_reports_the_token_found() {
    let tokens = vec![Token::Keyword(Keyword::Fn), ident("x"), ident("x")];
    let err = parse(&tokens).unwrap_err();
    assert!(matches!(&err, ParseError::UnexpectedToken { expected: Expected::Arrow, received: Token::Identifier(s) } if s == "x"));
    assert_eq!(err.message(), "Expected =>, received: Identifier(\"x\").");
}

#[test]
fn test_missing_identifier_reports_the_token_found() {
    let tokens = vec![Token::Keyword(Keyword::Fn), Token::Arrow, ident("x")];
    let err = parse(&tokens).unwrap_err();
    assert!(matches!(err, ParseError::UnexpectedToken { expected: Expected::Identifier, received: Token::Arrow }));
    assert_eq!(err.message(), "Expected identifier, received: Arrow.");
}

#[test]
fn test_end_of_input_where_then_is_needed() {
    let tokens = vec![Token::Keyword(Keyword::If), Token::BooleanLiteral(true)];
    let err = parse(&tokens).unwrap_err();
    assert!(matches!(err, ParseError::UnexpectedEnd { expected: Expected::Then }));
    assert_eq!(err.message(), "Unexpected end of input, expected =.");
}

#[test]
fn test_missing_closing_bracket() {
    let tokens = vec![Token::LParen, Token::IntegerLiteral(1)];
    let err = parse(&tokens).unwrap_err();
    assert!(matches!(err, ParseError::UnexpectedEnd { expected: Expected::RParen }));
    assert_eq!(err.message(), "Unexpected end of input, expected )");

    let tokens = vec![Token::LParen, Token::IntegerLiteral(1), Token::Keyword(Keyword::In)];
    let err = parse(&tokens).unwrap_err();
    assert_eq!(err.message(), "Expected ), received: Keyword(In)");
}

#[test]
fn test_operand_that_is_not_an_atom() {
    let tokens = vec![Token::IntegerLiteral(1), Token::AdditiveOps(AdditiveOps::Add), Token::RParen];
    let err = parse(&tokens).unwrap_err();
    assert!(matches!(err, ParseError::NotAnAtom { received: Token::RParen }));
    assert_eq!(err.message(), "Failed to build atom, received: RParen");
}

#[test]
fn test_token_that_begins_no_expression() {
    let tokens = vec![Token::EqualSign];
    let err = parse(&tokens).unwrap_err();
    assert!(matches!(err, ParseError::NotAnExpression));
    assert_eq!(err.message(), "Failed to parse expression");
}

#[test]
fn test_tokens_after_the_expression_are_ignored() {
    let tokens = vec![Token::IntegerLiteral(1), Token::RParen, Token::RParen];
    let (expr, next) = Expr::new(&tokens, 0).unwrap();
    assert_eq!(next, 1);
    assert!(matches!(expr, Expr::CompExpr(_)));
    assert!(parse(&tokens).is_ok());
}

#[test]
fn test_parsing_consumes_tokens_and_stays_within_them() {
    let tokens = vec![
        Token::Keyword(Keyword::Let), ident("x"), Token::EqualSign, Token::IntegerLiteral(5),
        Token::Keyword(Keyword::In), ident("x"), Token::AdditiveOps(AdditiveOps::Add), Token::IntegerLiteral(1),
    ];
    let (_, next) = Expr::new(&tokens, 0).unwrap();
    assert_eq!(next, tokens.len());
    let (_, next) = Expr::new(&tokens, 3).unwrap();
    assert_eq!(next, 4);
}

#[test]
fn test_multiplication_binds_tighter_than_addition() {
    // 1 + 2 * 3: the add chain has one link whose operand is a mul chain
    let tokens = vec![
        Token::IntegerLiteral(1), Token::AdditiveOps(AdditiveOps::Add), Token::IntegerLiteral(2),
        Token::MultiplicativeOps(lambda_calculus::lexer::types::MultiplicativeOps::Mul), Token::IntegerLiteral(3),
    ];
    match parse(&tokens).unwrap() {
        Expr::CompExpr(c) => {
            assert!(c.add_expr.mul_expr.chained_expr.is_none());
            let link = c.add_expr.chained_expr.as_ref().unwrap();
            assert!(link.chained_expr.is_none());
            assert!(link.mul_expr.chained_expr.is_some());
            assert!(matches!(link.mul_expr.app_expr.atom, Atom::IntegerLiteral(2)));
        }
        _ => panic!("Expected CompExpr"),
    }
}

#[test]
fn test_let_rec_spelled_in_two_words() {
    let mut lexer = lambda_calculus::lexer::Lexer::new(
        "let rec fact = fn n => if n < 2 then 1 else n * fact (n - 1) in fact 10",
    );
    let tokens = lexer.tokenize().unwrap();
    match parse(tokens).unwrap() {
        Expr::LetRecExpr(l) => {
            assert_eq!(l.identifier, "fact");
            assert!(matches!(&*l.value, Expr::FunctionDeclExpr(f) if f.param == "n"));
            assert!(matches!(*l.body_expr, Expr::CompExpr(_)));
        }
        _ => panic!("Expected LetRecExpr"),
    }
}

#[test]
fn test_let_binding_the_name_rec() {
    let tokens = vec![
        Token::Keyword(Keyword::Let), ident("rec"), Token::EqualSign, Token::IntegerLiteral(5),
        Token::Keyword(Keyword::In), ident("rec"),
    ];
    match parse(&tokens).unwrap() {
        Expr::LetExpr(l) => assert_eq!(l.identifier, "rec"),
        _ => panic!("Expected LetExpr"),
    }
}

#[test]
fn test_missing_name_after_let_reports_equal_sign() {
    let tokens = vec![Token::Keyword(Keyword::Let), Token::IntegerLiteral(5)];
    let err = parse(&tokens).unwrap_err();
    assert_eq!(err.message(), "Expected =, received: IntegerLiteral(5).");
}
