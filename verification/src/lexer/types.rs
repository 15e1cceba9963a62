use vstd::prelude::*;

verus! {

#[derive(Debug, Clone, Copy)]
pub enum Keyword {
    Fn,
    Let,
    LetRec,
    In,
    If,
    Then,
    Else,
}

#[derive(Debug, Clone, Copy)]
pub enum AdditiveOps {
    Add,
    Sub,
}

#[derive(Debug, Clone, Copy)]
pub enum MultiplicativeOps {
    Mul,
    Div,
}

#[derive(Debug, Clone, Copy)]
pub enum BooleanOps {
    Equality,
    LessThan,
    LessThanEqualTo,
    GreaterThan,
    GreaterThanEqualTo,
}

/// A lexical token. Identifiers are held as `S`: the executable lexer builds
/// `Token<String>`, and specifications speak of `Token<Seq<char>>`.
#[derive(Debug, Clone)]
pub enum Token<S = String> {
    IntegerLiteral(i64),
    BooleanLiteral(bool),
    Identifier(S),
    Keyword(Keyword),
    AdditiveOps(AdditiveOps),
    MultiplicativeOps(MultiplicativeOps),
    BooleanOps(BooleanOps),
    EqualSign,
    Arrow,
    LParen,
    RParen,
}

/// The mathematical form of a token.
pub type SpecToken = Token<Seq<char>>;

impl View for Token {
    type V = SpecToken;

    open spec fn view(&self) -> SpecToken {
        match self {
            Token::IntegerLiteral(n) => Token::IntegerLiteral(*n),
            Token::BooleanLiteral(b) => Token::BooleanLiteral(*b),
            Token::Identifier(s) => Token::Identifier(s@),
            Token::Keyword(k) => Token::Keyword(*k),
            Token::AdditiveOps(o) => Token::AdditiveOps(*o),
            Token::MultiplicativeOps(o) => Token::MultiplicativeOps(*o),
            Token::BooleanOps(o) => Token::BooleanOps(*o),
            Token::EqualSign => Token::EqualSign,
            Token::Arrow => Token::Arrow,
            Token::LParen => Token::LParen,
            Token::RParen => Token::RParen,
        }
    }
}

/// The views of a sequence of tokens.
pub open spec fn tokens_view(ts: Seq<Token>) -> Seq<SpecToken> {
    ts.map_values(|t: Token| t@)
}

impl Token {
    /// A copy of the token with the same view.
    pub fn duplicate(&self) -> (r: Token)
        ensures
            r@ == self@,
    {
        match self {
            Token::IntegerLiteral(n) => Token::IntegerLiteral(*n),
            Token::BooleanLiteral(b) => Token::BooleanLiteral(*b),
            Token::Identifier(s) => Token::Identifier(s.clone()),
            Token::Keyword(k) => Token::Keyword(*k),
            Token::AdditiveOps(o) => Token::AdditiveOps(*o),
            Token::MultiplicativeOps(o) => Token::MultiplicativeOps(*o),
            Token::BooleanOps(o) => Token::BooleanOps(*o),
            Token::EqualSign => Token::EqualSign,
            Token::Arrow => Token::Arrow,
            Token::LParen => Token::LParen,
            Token::RParen => Token::RParen,
        }
    }
}

} // verus!
