pub mod types;
pub mod grammar;
pub mod unparse;

use vstd::prelude::*;
use crate::lexer::types::{Token, tokens_view};
use crate::ast::types::{Expr, ParseError};
use crate::ast::grammar::parse_expr;

verus! {

/// Parses the tokens as one expression from the first token on; tokens after
/// the expression are ignored.
pub fn parse(tokens: &[Token]) -> (r: Result<Expr, ParseError>)
    requires
        parse_expr(tokens_view(tokens@), 0) is Some,
    ensures
        match r {
            Ok(e) => parse_expr(tokens_view(tokens@), 0) matches Some(Ok((pe, _))) && pe == e@,
            Err(err) => parse_expr(tokens_view(tokens@), 0) == Some(Err::<(crate::ast::types::SpecExpr, int), _>(err@)),
        },
{
    let (expr, _) = Expr::new(tokens, 0)?;
    Ok(expr)
}

} // verus!
