use vstd::prelude::*;
use crate::lexer::types::{Token, SpecToken, Keyword, BooleanOps};
use crate::ast::types::{
    Expr, LetExpr, LetRecExpr, IfExpr, FunctionDeclExpr, CompExpr, ChainedCompExpr, AddExpr, ChainedAddExpr,
    MulExpr, ChainedMulExpr, AppExpr, ChainedAppExpr, Atom, SpecExpr, SpecLetExpr, SpecLetRecExpr, SpecIfExpr,
    SpecFunctionDeclExpr, SpecCompExpr, SpecChainedCompExpr, SpecAddExpr, SpecChainedAddExpr, SpecMulExpr,
    SpecChainedMulExpr, SpecAppExpr, SpecChainedAppExpr, SpecAtom, ParseError, SpecParseError, Expected,
};

verus! {

// The grammar, read from token position `i`:
//
//   expr       ::= fn IDENT => expr
//               |  let IDENT = expr in expr
//               |  letrec IDENT = expr in expr
//               |  let rec IDENT = expr in expr
//               |  if expr then expr else expr
//               |  comp
//   comp       ::= add (COMPARISON add)?
//   add        ::= mul (ADDITIVE mul)*
//   mul        ::= app (MULTIPLICATIVE app)*
//   app        ::= atom atom*
//   atom       ::= IDENT | INT | BOOL | ( expr )
//
// Each production yields `Some(Ok((tree, next)))`, `Some(Err(e))`, or `None`
// where parsing panics: an expression is required at or past the end of the
// tokens, or a position does not fit in `usize`. The conditions `i < j` on
// positions returned by a sub-production always hold (see
// `lemma_parse_progress`); they make the recursion visibly well-founded.

/// The outcome of a production.
pub type Parsed<T> = Option<Result<(T, int), SpecParseError>>;

/// An error outcome carried over to a production of another type.
pub open spec fn relay<A, B>(p: Parsed<A>) -> Parsed<B> {
    match p {
        Some(Err(e)) => Some(Err(e)),
        _ => None,
    }
}

/// The error for a token that is not the one `expected`, or for the end of input.
pub open spec fn mismatch<T>(t: Seq<SpecToken>, i: int, expected: Expected) -> Parsed<T> {
    if 0 <= i < t.len() {
        Some(Err(ParseError::UnexpectedToken { expected, received: t[i] }))
    } else {
        Some(Err(ParseError::UnexpectedEnd { expected }))
    }
}

/// Whether an expression can begin with this token as a `comp`.
pub open spec fn starts_atom(tok: SpecToken) -> bool {
    tok is Identifier || tok is IntegerLiteral || tok is BooleanLiteral || tok is LParen
}

/// `let rec NAME`: the keyword `let`, the word `rec` and a name, which is
/// read as `letrec NAME`; `let rec = ...` still binds the name `rec`.
pub open spec fn spelled_let_rec(t: Seq<SpecToken>, i: int) -> bool {
    &&& 0 <= i
    &&& i + 2 < t.len()
    &&& t[i + 1] == Token::<Seq<char>>::Identifier("rec"@)
    &&& t[i + 2] is Identifier
}

pub open spec fn parse_expr(t: Seq<SpecToken>, i: int) -> Parsed<SpecExpr>
    decreases t.len() - i, 11nat,
{
    if !(0 <= i < t.len()) {
        None
    } else {
        match t[i] {
            Token::Keyword(Keyword::Fn) => match parse_fn_decl(t, i) {
                Some(Ok((f, j))) => Some(Ok((Expr::FunctionDeclExpr(f), j))),
                other => relay(other),
            },
            Token::Keyword(Keyword::Let) => {
                if spelled_let_rec(t, i) {
                    match parse_let_rec(t, i + 1) {
                        Some(Ok((l, j))) => Some(Ok((Expr::LetRecExpr(l), j))),
                        other => relay(other),
                    }
                } else {
                    match parse_let(t, i) {
                        Some(Ok((l, j))) => Some(Ok((Expr::LetExpr(l), j))),
                        other => relay(other),
                    }
                }
            },
            Token::Keyword(Keyword::LetRec) => match parse_let_rec(t, i) {
                Some(Ok((l, j))) => Some(Ok((Expr::LetRecExpr(l), j))),
                other => relay(other),
            },
            Token::Keyword(Keyword::If) => match parse_if(t, i) {
                Some(Ok((e, j))) => Some(Ok((Expr::IfExpr(e), j))),
                other => relay(other),
            },
            _ => {
                if starts_atom(t[i]) {
                    match parse_comp(t, i) {
                        Some(Ok((c, j))) => Some(Ok((Expr::CompExpr(c), j))),
                        other => relay(other),
                    }
                } else {
                    Some(Err(ParseError::NotAnExpression))
                }
            },
        }
    }
}

/// `IDENT = expr in expr` after the keyword at `i`.
pub open spec fn parse_let_parts(t: Seq<SpecToken>, i: int) -> Parsed<(Seq<char>, SpecExpr, SpecExpr)>
    decreases t.len() - i, 9nat,
{
    if !(0 <= i < usize::MAX) {
        None
    } else if !(i + 1 < t.len() && t[i + 1] is Identifier) {
        mismatch(t, i + 1, Expected::EqualSign)
    } else if !(i + 2 < t.len() && t[i + 2] is EqualSign) {
        mismatch(t, i + 2, Expected::EqualSign)
    } else {
        let name = t[i + 1]->Identifier_0;
        match parse_expr(t, i + 3) {
            Some(Ok((value, j))) => {
                if !(i < j) {
                    None
                } else if !(j < t.len() && t[j] == Token::<Seq<char>>::Keyword(Keyword::In)) {
                    mismatch(t, j, Expected::In)
                } else {
                    match parse_expr(t, j + 1) {
                        Some(Ok((body, k))) => Some(Ok(((name, value, body), k))),
                        other => relay(other),
                    }
                }
            },
            other => relay(other),
        }
    }
}

pub open spec fn parse_let(t: Seq<SpecToken>, i: int) -> Parsed<SpecLetExpr>
    decreases t.len() - i, 10nat,
{
    match parse_let_parts(t, i) {
        Some(Ok(((name, value, body), j))) => Some(Ok((
            LetExpr { identifier: name, value: Box::new(value), body_expr: Box::new(body) },
            j,
        ))),
        other => relay(other),
    }
}

pub open spec fn parse_let_rec(t: Seq<SpecToken>, i: int) -> Parsed<SpecLetRecExpr>
    decreases t.len() - i, 10nat,
{
    match parse_let_parts(t, i) {
        Some(Ok(((name, value, body), j))) => Some(Ok((
            LetRecExpr { identifier: name, value: Box::new(value), body_expr: Box::new(body) },
            j,
        ))),
        other => relay(other),
    }
}

/// `expr then expr else expr` after the keyword at `i`.
pub open spec fn parse_if(t: Seq<SpecToken>, i: int) -> Parsed<SpecIfExpr>
    decreases t.len() - i, 9nat,
{
    if !(0 <= i < usize::MAX) || i + 1 >= t.len() {
        None
    } else {
        match parse_expr(t, i + 1) {
            Some(Ok((cond, j))) => {
                if !(i < j) {
                    None
                } else if !(j < t.len() && t[j] == Token::<Seq<char>>::Keyword(Keyword::Then)) {
                    mismatch(t, j, Expected::Then)
                } else {
                    match parse_expr(t, j + 1) {
                        Some(Ok((then_e, k))) => {
                            if !(j < k) {
                                None
                            } else if !(k < t.len() && t[k] == Token::<Seq<char>>::Keyword(Keyword::Else)) {
                                mismatch(t, k, Expected::Else)
                            } else {
                                match parse_expr(t, k + 1) {
                                    Some(Ok((else_e, m))) => Some(Ok((
                                        IfExpr {
                                            bool_expr: Box::new(cond),
                                            then_expr: Box::new(then_e),
                                            else_expr: Box::new(else_e),
                                        },
                                        m,
                                    ))),
                                    other => relay(other),
                                }
                            }
                        },
                        other => relay(other),
                    }
                }
            },
            other => relay(other),
        }
    }
}

/// `IDENT => expr` after the keyword at `i`.
pub open spec fn parse_fn_decl(t: Seq<SpecToken>, i: int) -> Parsed<SpecFunctionDeclExpr>
    decreases t.len() - i, 9nat,
{
    if !(0 <= i < usize::MAX) {
        None
    } else if !(i + 1 < t.len() && t[i + 1] is Identifier) {
        mismatch(t, i + 1, Expected::Identifier)
    } else if !(i + 2 < t.len() && t[i + 2] is Arrow) {
        mismatch(t, i + 2, Expected::Arrow)
    } else {
        match parse_expr(t, i + 3) {
            Some(Ok((body, j))) => Some(Ok((
                FunctionDeclExpr { param: t[i + 1]->Identifier_0, body_expr: Box::new(body) },
                j,
            ))),
            other => relay(other),
        }
    }
}

pub open spec fn parse_comp(t: Seq<SpecToken>, i: int) -> Parsed<SpecCompExpr>
    decreases t.len() - i, 9nat,
{
    match parse_add(t, i) {
        Some(Ok((a, j))) => {
            if !(i < j <= t.len()) {
                None
            } else {
                match parse_chained_comp(t, j) {
                    Some(Ok((c, k))) => Some(Ok((CompExpr { add_expr: a, chained_expr: c }, k))),
                    other => relay(other),
                }
            }
        },
        other => relay(other),
    }
}

pub open spec fn parse_chained_comp(t: Seq<SpecToken>, i: int) -> Parsed<Option<SpecChainedCompExpr>>
    decreases t.len() - i, 0nat,
{
    if 0 <= i < t.len() && t[i] is BooleanOps {
        match parse_add(t, i + 1) {
            Some(Ok((a, j))) => Some(Ok((Some(ChainedCompExpr { add_expr: a, comp_op: t[i]->BooleanOps_0 }), j))),
            other => relay(other),
        }
    } else {
        Some(Ok((None, i)))
    }
}

pub open spec fn parse_add(t: Seq<SpecToken>, i: int) -> Parsed<SpecAddExpr>
    decreases t.len() - i, 8nat,
{
    match parse_mul(t, i) {
        Some(Ok((m, j))) => {
            if !(i < j <= t.len()) {
                None
            } else {
                match parse_chained_add(t, j) {
                    Some(Ok((c, k))) => Some(Ok((AddExpr { mul_expr: Box::new(m), chained_expr: c }, k))),
                    other => relay(other),
                }
            }
        },
        other => relay(other),
    }
}

pub open spec fn parse_chained_add(t: Seq<SpecToken>, i: int) -> Parsed<Option<Box<SpecChainedAddExpr>>>
    decreases t.len() - i, 0nat,
{
    if 0 <= i < t.len() && t[i] is AdditiveOps {
        match parse_mul(t, i + 1) {
            Some(Ok((m, j))) => {
                if !(i < j <= t.len()) {
                    None
                } else {
                    match parse_chained_add(t, j) {
                        Some(Ok((c, k))) => Some(Ok((
                            Some(Box::new(ChainedAddExpr { mul_expr: m, additive_ops: t[i]->AdditiveOps_0, chained_expr: c })),
                            k,
                        ))),
                        other => relay(other),
                    }
                }
            },
            other => relay(other),
        }
    } else {
        Some(Ok((None, i)))
    }
}

pub open spec fn parse_mul(t: Seq<SpecToken>, i: int) -> Parsed<SpecMulExpr>
    decreases t.len() - i, 7nat,
{
    match parse_app(t, i) {
        Some(Ok((a, j))) => {
            if !(i < j <= t.len()) {
                None
            } else {
                match parse_chained_mul(t, j) {
                    Some(Ok((c, k))) => Some(Ok((MulExpr { app_expr: a, chained_expr: c }, k))),
                    other => relay(other),
                }
            }
        },
        other => relay(other),
    }
}

pub open spec fn parse_chained_mul(t: Seq<SpecToken>, i: int) -> Parsed<Option<Box<SpecChainedMulExpr>>>
    decreases t.len() - i, 0nat,
{
    if 0 <= i < t.len() && t[i] is MultiplicativeOps {
        match parse_app(t, i + 1) {
            Some(Ok((a, j))) => {
                if !(i < j <= t.len()) {
                    None
                } else {
                    match parse_chained_mul(t, j) {
                        Some(Ok((c, k))) => Some(Ok((
                            Some(Box::new(ChainedMulExpr {
                                app_expr: a,
                                multiplicative_ops: t[i]->MultiplicativeOps_0,
                                chained_expr: c,
                            })),
                            k,
                        ))),
                        other => relay(other),
                    }
                }
            },
            other => relay(other),
        }
    } else {
        Some(Ok((None, i)))
    }
}

pub open spec fn parse_app(t: Seq<SpecToken>, i: int) -> Parsed<SpecAppExpr>
    decreases t.len() - i, 6nat,
{
    match parse_atom(t, i) {
        Some(Ok((a, j))) => {
            if !(i < j <= t.len()) {
                None
            } else {
                match parse_chained_app(t, j) {
                    Some(Ok((c, k))) => Some(Ok((AppExpr { atom: a, chained_expr: c }, k))),
                    other => relay(other),
                }
            }
        },
        other => relay(other),
    }
}

pub open spec fn parse_chained_app(t: Seq<SpecToken>, i: int) -> Parsed<Option<Box<SpecChainedAppExpr>>>
    decreases t.len() - i, 5nat,
{
    if 0 <= i < t.len() && starts_atom(t[i]) {
        match parse_atom(t, i) {
            Some(Ok((a, j))) => {
                if !(i < j <= t.len()) {
                    None
                } else {
                    match parse_chained_app(t, j) {
                        Some(Ok((c, k))) => Some(Ok((Some(Box::new(ChainedAppExpr { atom: a, chained_expr: c })), k))),
                        other => relay(other),
                    }
                }
            },
            other => relay(other),
        }
    } else {
        Some(Ok((None, i)))
    }
}

pub open spec fn parse_atom(t: Seq<SpecToken>, i: int) -> Parsed<SpecAtom>
    decreases t.len() - i, 4nat,
{
    if !(0 <= i < t.len()) {
        Some(Err(ParseError::UnexpectedEnd { expected: Expected::Atom }))
    } else {
        match t[i] {
            Token::Identifier(s) => Some(Ok((Atom::Identifier(s), i + 1))),
            Token::IntegerLiteral(n) => Some(Ok((Atom::IntegerLiteral(n), i + 1))),
            Token::BooleanLiteral(b) => Some(Ok((Atom::BooleanLiteral(b), i + 1))),
            Token::LParen => match parse_expr(t, i + 1) {
                Some(Ok((e, j))) => {
                    if j < t.len() && t[j] is RParen {
                        Some(Ok((Atom::PrioritizedExpr(Box::new(e)), j + 1)))
                    } else {
                        mismatch(t, j, Expected::RParen)
                    }
                },
                other => relay(other),
            },
            other => Some(Err(ParseError::NotAnAtom { received: other })),
        }
    }
}

} // verus!
verus! {

/// A production that succeeds consumes at least one token and stops at or
/// before the end of the tokens.
pub open spec fn advances<T>(p: Parsed<T>, i: int, n: int) -> bool {
    p matches Some(Ok((_, j))) ==> i < j <= n
}

/// An optional continuation consumes nothing or stays within the tokens.
pub open spec fn stays_within<T>(p: Parsed<T>, i: int, n: int) -> bool {
    p matches Some(Ok((_, j))) ==> i <= j <= n
}

/// Every production that succeeds from position `i` stops at a later position,
/// at most the end of the tokens; the optional continuations may also consume
/// nothing.
pub proof fn lemma_parse_progress(t: Seq<SpecToken>, i: int)
    requires
        0 <= i <= t.len(),
    ensures
        advances(parse_atom(t, i), i, t.len() as int),
        stays_within(parse_chained_app(t, i), i, t.len() as int),
        advances(parse_app(t, i), i, t.len() as int),
        stays_within(parse_chained_mul(t, i), i, t.len() as int),
        advances(parse_mul(t, i), i, t.len() as int),
        stays_within(parse_chained_add(t, i), i, t.len() as int),
        advances(parse_add(t, i), i, t.len() as int),
        stays_within(parse_chained_comp(t, i), i, t.len() as int),
        advances(parse_comp(t, i), i, t.len() as int),
        advances(parse_fn_decl(t, i), i, t.len() as int),
        advances(parse_if(t, i), i, t.len() as int),
        advances(parse_let_parts(t, i), i, t.len() as int),
        advances(parse_let(t, i), i, t.len() as int),
        advances(parse_let_rec(t, i), i, t.len() as int),
        advances(parse_expr(t, i), i, t.len() as int),
    decreases t.len() - i, 10nat,
{
    lemma_atom_progress(t, i);
    progress_chained_app(t, i);
    lemma_app_progress(t, i);
    progress_chained_mul(t, i);
    lemma_mul_progress(t, i);
    progress_chained_add(t, i);
    lemma_add_progress(t, i);
    progress_chained_comp(t, i);
    progress_comp(t, i);
    progress_fn_decl(t, i);
    progress_if(t, i);
    progress_let_parts(t, i);
    progress_let(t, i);
    lemma_expr_progress(t, i);
}

pub proof fn lemma_atom_progress(t: Seq<SpecToken>, i: int)
    requires
        0 <= i <= t.len(),
    ensures
        advances(parse_atom(t, i), i, t.len() as int),
    decreases t.len() - i, 1nat,
{
    if i < t.len() && t[i] is LParen {
        lemma_expr_progress(t, i + 1);
    }
}

proof fn progress_chained_app(t: Seq<SpecToken>, i: int)
    requires
        0 <= i <= t.len(),
    ensures
        stays_within(parse_chained_app(t, i), i, t.len() as int),
    decreases t.len() - i, 2nat,
{
    lemma_atom_progress(t, i);
    if let Some(Ok((_, j))) = parse_atom(t, i) {
        lemma_parse_progress(t, j);
    }
}

pub proof fn lemma_app_progress(t: Seq<SpecToken>, i: int)
    requires
        0 <= i <= t.len(),
    ensures
        advances(parse_app(t, i), i, t.len() as int),
    decreases t.len() - i, 3nat,
{
    lemma_atom_progress(t, i);
    if let Some(Ok((_, j))) = parse_atom(t, i) {
        lemma_parse_progress(t, j);
    }
}

proof fn progress_chained_mul(t: Seq<SpecToken>, i: int)
    requires
        0 <= i <= t.len(),
    ensures
        stays_within(parse_chained_mul(t, i), i, t.len() as int),
    decreases t.len() - i, 1nat,
{
    if i < t.len() {
        lemma_parse_progress(t, i + 1);
        if let Some(Ok((_, j))) = parse_app(t, i + 1) {
            lemma_parse_progress(t, j);
        }
    }
}

pub proof fn lemma_mul_progress(t: Seq<SpecToken>, i: int)
    requires
        0 <= i <= t.len(),
    ensures
        advances(parse_mul(t, i), i, t.len() as int),
    decreases t.len() - i, 4nat,
{
    lemma_app_progress(t, i);
    if let Some(Ok((_, j))) = parse_app(t, i) {
        lemma_parse_progress(t, j);
    }
}

proof fn progress_chained_add(t: Seq<SpecToken>, i: int)
    requires
        0 <= i <= t.len(),
    ensures
        stays_within(parse_chained_add(t, i), i, t.len() as int),
    decreases t.len() - i, 1nat,
{
    if i < t.len() {
        lemma_parse_progress(t, i + 1);
        if let Some(Ok((_, j))) = parse_mul(t, i + 1) {
            lemma_parse_progress(t, j);
        }
    }
}

pub proof fn lemma_add_progress(t: Seq<SpecToken>, i: int)
    requires
        0 <= i <= t.len(),
    ensures
        advances(parse_add(t, i), i, t.len() as int),
    decreases t.len() - i, 5nat,
{
    lemma_mul_progress(t, i);
    if let Some(Ok((_, j))) = parse_mul(t, i) {
        lemma_parse_progress(t, j);
    }
}

proof fn progress_chained_comp(t: Seq<SpecToken>, i: int)
    requires
        0 <= i <= t.len(),
    ensures
        stays_within(parse_chained_comp(t, i), i, t.len() as int),
    decreases t.len() - i, 1nat,
{
    if i < t.len() {
        lemma_parse_progress(t, i + 1);
    }
}

proof fn progress_comp(t: Seq<SpecToken>, i: int)
    requires
        0 <= i <= t.len(),
    ensures
        advances(parse_comp(t, i), i, t.len() as int),
    decreases t.len() - i, 6nat,
{
    lemma_add_progress(t, i);
    if let Some(Ok((_, j))) = parse_add(t, i) {
        lemma_parse_progress(t, j);
    }
}

proof fn progress_fn_decl(t: Seq<SpecToken>, i: int)
    requires
        0 <= i <= t.len(),
    ensures
        advances(parse_fn_decl(t, i), i, t.len() as int),
    decreases t.len() - i, 1nat,
{
    if i + 3 <= t.len() {
        lemma_expr_progress(t, i + 3);
    }
}

proof fn progress_if(t: Seq<SpecToken>, i: int)
    requires
        0 <= i <= t.len(),
    ensures
        advances(parse_if(t, i), i, t.len() as int),
    decreases t.len() - i, 1nat,
{
    if i + 1 < t.len() {
        lemma_expr_progress(t, i + 1);
        if let Some(Ok((_, j))) = parse_expr(t, i + 1) {
            if j < t.len() {
                lemma_expr_progress(t, j + 1);
                if let Some(Ok((_, k))) = parse_expr(t, j + 1) {
                    if k < t.len() {
                        lemma_expr_progress(t, k + 1);
                    }
                }
            }
        }
    }
}

proof fn progress_let_parts(t: Seq<SpecToken>, i: int)
    requires
        0 <= i <= t.len(),
    ensures
        advances(parse_let_parts(t, i), i, t.len() as int),
    decreases t.len() - i, 1nat,
{
    if i + 3 <= t.len() {
        lemma_expr_progress(t, i + 3);
        if let Some(Ok((_, j))) = parse_expr(t, i + 3) {
            if j < t.len() {
                lemma_expr_progress(t, j + 1);
            }
        }
    }
}

proof fn progress_let(t: Seq<SpecToken>, i: int)
    requires
        0 <= i <= t.len(),
    ensures
        advances(parse_let(t, i), i, t.len() as int),
        advances(parse_let_rec(t, i), i, t.len() as int),
    decreases t.len() - i, 2nat,
{
    progress_let_parts(t, i);
}

pub proof fn lemma_expr_progress(t: Seq<SpecToken>, i: int)
    requires
        0 <= i <= t.len(),
    ensures
        advances(parse_expr(t, i), i, t.len() as int),
    decreases t.len() - i, 7nat,
{
    progress_fn_decl(t, i);
    progress_if(t, i);
    progress_let(t, i);
    progress_comp(t, i);
    if i + 1 <= t.len() {
        progress_let(t, i + 1);
    }
}

/// Each link of an operator chain carries the operator of the token that
/// begins it, and a chain ends exactly where no operator token follows: a
/// comparison link its `BooleanOps`, an additive link its `AdditiveOps`, a
/// multiplicative link its `MultiplicativeOps`.
pub proof fn lemma_chain_operators(t: Seq<SpecToken>, i: int)
    ensures
        parse_chained_comp(t, i) matches Some(Ok((Some(link), _)))
            ==> 0 <= i < t.len() && t[i] == Token::<Seq<char>>::BooleanOps(link.comp_op),
        parse_chained_comp(t, i) matches Some(Ok((None, j)))
            ==> j == i && !(0 <= i < t.len() && t[i] is BooleanOps),
        parse_chained_add(t, i) matches Some(Ok((Some(link), _)))
            ==> 0 <= i < t.len() && t[i] == Token::<Seq<char>>::AdditiveOps(link.additive_ops),
        parse_chained_add(t, i) matches Some(Ok((None, j)))
            ==> j == i && !(0 <= i < t.len() && t[i] is AdditiveOps),
        parse_chained_mul(t, i) matches Some(Ok((Some(link), _)))
            ==> 0 <= i < t.len() && t[i] == Token::<Seq<char>>::MultiplicativeOps(link.multiplicative_ops),
        parse_chained_mul(t, i) matches Some(Ok((None, j)))
            ==> j == i && !(0 <= i < t.len() && t[i] is MultiplicativeOps),
{
}

} // verus!
