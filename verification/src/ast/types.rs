use vstd::prelude::*;
use vstd::string::StringExecFns;
use crate::text::{token_debug, token_debug_text};
use crate::lexer::types::{Token, SpecToken, Keyword, AdditiveOps, MultiplicativeOps, BooleanOps, tokens_view};
use crate::ast::grammar::{
    Parsed, parse_expr, parse_let_parts, parse_let, parse_let_rec, parse_if, parse_fn_decl, parse_comp,
    parse_chained_comp, parse_add, parse_chained_add, parse_mul, parse_chained_mul, parse_app, parse_chained_app,
    parse_atom, spelled_let_rec, lemma_expr_progress, lemma_add_progress, lemma_mul_progress, lemma_app_progress, lemma_atom_progress,
};

verus! {

// The syntax tree is generic over the representation of names: the parser
// builds trees over `String`, specifications speak of trees over `Seq<char>`.

#[derive(Debug)]
pub struct LetExpr<S = String> {
    pub identifier: S,
    pub value: Box<Expr<S>>,
    pub body_expr: Box<Expr<S>>,
}

#[derive(Debug)]
pub struct LetRecExpr<S = String> {
    pub identifier: S,
    pub value: Box<Expr<S>>,
    pub body_expr: Box<Expr<S>>,
}

#[derive(Debug)]
pub struct IfExpr<S = String> {
    pub bool_expr: Box<Expr<S>>,
    pub then_expr: Box<Expr<S>>,
    pub else_expr: Box<Expr<S>>,
}

#[derive(Debug)]
pub struct FunctionDeclExpr<S = String> {
    pub param: S,
    pub body_expr: Box<Expr<S>>,
}

#[derive(Debug)]
pub struct CompExpr<S = String> {
    pub add_expr: AddExpr<S>,
    pub chained_expr: Option<ChainedCompExpr<S>>,
}

#[derive(Debug)]
pub struct ChainedCompExpr<S = String> {
    pub add_expr: AddExpr<S>,
    pub comp_op: BooleanOps,
}

#[derive(Debug)]
pub struct AddExpr<S = String> {
    pub mul_expr: Box<MulExpr<S>>,
    pub chained_expr: Option<Box<ChainedAddExpr<S>>>,
}

#[derive(Debug)]
pub struct ChainedAddExpr<S = String> {
    pub mul_expr: MulExpr<S>,
    pub additive_ops: AdditiveOps,
    pub chained_expr: Option<Box<ChainedAddExpr<S>>>,
}

#[derive(Debug)]
pub struct MulExpr<S = String> {
    pub app_expr: AppExpr<S>,
    pub chained_expr: Option<Box<ChainedMulExpr<S>>>,
}

#[derive(Debug)]
pub struct ChainedMulExpr<S = String> {
    pub app_expr: AppExpr<S>,
    pub multiplicative_ops: MultiplicativeOps,
    pub chained_expr: Option<Box<ChainedMulExpr<S>>>,
}

#[derive(Debug)]
pub struct AppExpr<S = String> {
    pub atom: Atom<S>,
    pub chained_expr: Option<Box<ChainedAppExpr<S>>>,
}

#[derive(Debug)]
pub struct ChainedAppExpr<S = String> {
    pub atom: Atom<S>,
    pub chained_expr: Option<Box<ChainedAppExpr<S>>>,
}

#[derive(Debug)]
pub enum Atom<S = String> {
    Identifier(S),
    IntegerLiteral(i64),
    BooleanLiteral(bool),
    PrioritizedExpr(Box<Expr<S>>),
}

#[derive(Debug)]
pub enum Expr<S = String> {
    LetExpr(LetExpr<S>),
    LetRecExpr(LetRecExpr<S>),
    IfExpr(IfExpr<S>),
    FunctionDeclExpr(FunctionDeclExpr<S>),
    CompExpr(CompExpr<S>),
}

/// What the parser expected where it failed.
#[derive(Debug, Clone, Copy)]
pub enum Expected {
    Identifier,
    EqualSign,
    Arrow,
    In,
    Then,
    Else,
    RParen,
    Atom,
}

/// Why a token sequence does not parse.
#[derive(Debug)]
pub enum ParseError<S = String> {
    /// A token other than the one the grammar requires here.
    UnexpectedToken { expected: Expected, received: Token<S> },
    /// The tokens end where the grammar requires `expected`.
    UnexpectedEnd { expected: Expected },
    /// A token that cannot begin an operand.
    NotAnAtom { received: Token<S> },
    /// A token that cannot begin an expression.
    NotAnExpression,
}

pub type SpecParseError = ParseError<Seq<char>>;

impl View for ParseError {
    type V = SpecParseError;

    open spec fn view(&self) -> SpecParseError {
        match self {
            ParseError::UnexpectedToken { expected, received } =>
                ParseError::UnexpectedToken { expected: *expected, received: received@ },
            ParseError::UnexpectedEnd { expected } => ParseError::UnexpectedEnd { expected: *expected },
            ParseError::NotAnAtom { received } => ParseError::NotAnAtom { received: received@ },
            ParseError::NotAnExpression => ParseError::NotAnExpression,
        }
    }
}

/// The word for what was expected, as parse errors print it.
pub open spec fn expected_text(e: Expected) -> Seq<char> {
    match e {
        Expected::Identifier => "identifier"@,
        Expected::EqualSign => "="@,
        Expected::Arrow => "=>"@,
        Expected::In => "in"@,
        Expected::Then => "then"@,
        Expected::Else => "else"@,
        Expected::RParen => ")"@,
        Expected::Atom => "atom"@,
    }
}

fn expected_word(e: Expected) -> (r: &'static str)
    ensures
        r@ == expected_text(e),
{
    match e {
        Expected::Identifier => "identifier",
        Expected::EqualSign => "=",
        Expected::Arrow => "=>",
        Expected::In => "in",
        Expected::Then => "then",
        Expected::Else => "else",
        Expected::RParen => ")",
        Expected::Atom => "atom",
    }
}

/// The report of a parse error. A missing `)` is reported without a closing
/// period; the end of the input anywhere else is reported as expecting `=`.
pub open spec fn parse_error_text(e: SpecParseError) -> Seq<char> {
    match e {
        ParseError::UnexpectedToken { expected, received } => {
            let head = "Expected "@ + expected_text(expected) + ", received: "@ + token_debug_text(received);
            if expected is RParen { head } else { head + "."@ }
        },
        ParseError::UnexpectedEnd { expected } => {
            if expected is RParen {
                "Unexpected end of input, expected )"@
            } else {
                "Unexpected end of input, expected =."@
            }
        },
        ParseError::NotAnAtom { received } => "Failed to build atom, received: "@ + token_debug_text(received),
        ParseError::NotAnExpression => "Failed to parse expression"@,
    }
}

impl ParseError {
    /// The report of this error.
    pub fn message(&self) -> (r: String)
        ensures
            r@ == parse_error_text(self@),
    {
        match self {
            ParseError::UnexpectedToken { expected, received } => {
                let mut m = String::from_str("Expected ");
                m.append(expected_word(*expected));
                m.append(", received: ");
                let t = token_debug(received);
                m.append(t.as_str());
                match expected {
                    Expected::RParen => {},
                    _ => m.append("."),
                }
                m
            },
            ParseError::UnexpectedEnd { expected } => match expected {
                Expected::RParen => String::from_str("Unexpected end of input, expected )"),
                _ => String::from_str("Unexpected end of input, expected =."),
            },
            ParseError::NotAnAtom { received } => {
                let mut m = String::from_str("Failed to build atom, received: ");
                let t = token_debug(received);
                m.append(t.as_str());
                m
            },
            ParseError::NotAnExpression => String::from_str("Failed to parse expression"),
        }
    }
}

pub type SpecExpr = Expr<Seq<char>>;
pub type SpecLetExpr = LetExpr<Seq<char>>;
pub type SpecLetRecExpr = LetRecExpr<Seq<char>>;
pub type SpecIfExpr = IfExpr<Seq<char>>;
pub type SpecFunctionDeclExpr = FunctionDeclExpr<Seq<char>>;
pub type SpecCompExpr = CompExpr<Seq<char>>;
pub type SpecChainedCompExpr = ChainedCompExpr<Seq<char>>;
pub type SpecAddExpr = AddExpr<Seq<char>>;
pub type SpecChainedAddExpr = ChainedAddExpr<Seq<char>>;
pub type SpecMulExpr = MulExpr<Seq<char>>;
pub type SpecChainedMulExpr = ChainedMulExpr<Seq<char>>;
pub type SpecAppExpr = AppExpr<Seq<char>>;
pub type SpecChainedAppExpr = ChainedAppExpr<Seq<char>>;
pub type SpecAtom = Atom<Seq<char>>;

pub open spec fn expr_view(e: Expr) -> SpecExpr
    decreases e,
{
    match e {
        Expr::LetExpr(l) => Expr::LetExpr(let_view(l)),
        Expr::LetRecExpr(l) => Expr::LetRecExpr(let_rec_view(l)),
        Expr::IfExpr(i) => Expr::IfExpr(if_view(i)),
        Expr::FunctionDeclExpr(f) => Expr::FunctionDeclExpr(fn_decl_view(f)),
        Expr::CompExpr(c) => Expr::CompExpr(comp_view(c)),
    }
}

pub open spec fn let_view(l: LetExpr) -> SpecLetExpr
    decreases l,
{
    LetExpr {
        identifier: l.identifier@,
        value: Box::new(expr_view(*l.value)),
        body_expr: Box::new(expr_view(*l.body_expr)),
    }
}

pub open spec fn let_rec_view(l: LetRecExpr) -> SpecLetRecExpr
    decreases l,
{
    LetRecExpr {
        identifier: l.identifier@,
        value: Box::new(expr_view(*l.value)),
        body_expr: Box::new(expr_view(*l.body_expr)),
    }
}

pub open spec fn if_view(i: IfExpr) -> SpecIfExpr
    decreases i,
{
    IfExpr {
        bool_expr: Box::new(expr_view(*i.bool_expr)),
        then_expr: Box::new(expr_view(*i.then_expr)),
        else_expr: Box::new(expr_view(*i.else_expr)),
    }
}

pub open spec fn fn_decl_view(f: FunctionDeclExpr) -> SpecFunctionDeclExpr
    decreases f,
{
    FunctionDeclExpr { param: f.param@, body_expr: Box::new(expr_view(*f.body_expr)) }
}

pub open spec fn chained_comp_view(c: ChainedCompExpr) -> SpecChainedCompExpr
    decreases c,
{
    ChainedCompExpr { add_expr: add_view(c.add_expr), comp_op: c.comp_op }
}

pub open spec fn comp_view(c: CompExpr) -> SpecCompExpr
    decreases c,
{
    CompExpr {
        add_expr: add_view(c.add_expr),
        chained_expr: match c.chained_expr {
            Some(ch) => Some(chained_comp_view(ch)),
            None => None,
        },
    }
}

pub open spec fn add_view(a: AddExpr) -> SpecAddExpr
    decreases a,
{
    AddExpr { mul_expr: Box::new(mul_view(*a.mul_expr)), chained_expr: add_chain_view(a.chained_expr) }
}

pub open spec fn add_chain_view(c: Option<Box<ChainedAddExpr>>) -> Option<Box<SpecChainedAddExpr>>
    decreases c,
{
    match c {
        Some(b) => Some(Box::new(ChainedAddExpr {
            mul_expr: mul_view(b.mul_expr),
            additive_ops: b.additive_ops,
            chained_expr: add_chain_view(b.chained_expr),
        })),
        None => None,
    }
}

pub open spec fn mul_view(m: MulExpr) -> SpecMulExpr
    decreases m,
{
    MulExpr { app_expr: app_view(m.app_expr), chained_expr: mul_chain_view(m.chained_expr) }
}

pub open spec fn mul_chain_view(c: Option<Box<ChainedMulExpr>>) -> Option<Box<SpecChainedMulExpr>>
    decreases c,
{
    match c {
        Some(b) => Some(Box::new(ChainedMulExpr {
            app_expr: app_view(b.app_expr),
            multiplicative_ops: b.multiplicative_ops,
            chained_expr: mul_chain_view(b.chained_expr),
        })),
        None => None,
    }
}

pub open spec fn app_view(a: AppExpr) -> SpecAppExpr
    decreases a,
{
    AppExpr { atom: atom_view(a.atom), chained_expr: app_chain_view(a.chained_expr) }
}

pub open spec fn app_chain_view(c: Option<Box<ChainedAppExpr>>) -> Option<Box<SpecChainedAppExpr>>
    decreases c,
{
    match c {
        Some(b) => Some(Box::new(ChainedAppExpr {
            atom: atom_view(b.atom),
            chained_expr: app_chain_view(b.chained_expr),
        })),
        None => None,
    }
}

pub open spec fn atom_view(a: Atom) -> SpecAtom
    decreases a,
{
    match a {
        Atom::Identifier(s) => Atom::Identifier(s@),
        Atom::IntegerLiteral(n) => Atom::IntegerLiteral(n),
        Atom::BooleanLiteral(b) => Atom::BooleanLiteral(b),
        Atom::PrioritizedExpr(e) => Atom::PrioritizedExpr(Box::new(expr_view(*e))),
    }
}

impl View for Expr {
    type V = SpecExpr;
    open spec fn view(&self) -> SpecExpr { expr_view(*self) }
}

impl View for LetExpr {
    type V = SpecLetExpr;
    open spec fn view(&self) -> SpecLetExpr { let_view(*self) }
}

impl View for LetRecExpr {
    type V = SpecLetRecExpr;
    open spec fn view(&self) -> SpecLetRecExpr { let_rec_view(*self) }
}

impl View for IfExpr {
    type V = SpecIfExpr;
    open spec fn view(&self) -> SpecIfExpr { if_view(*self) }
}

impl View for FunctionDeclExpr {
    type V = SpecFunctionDeclExpr;
    open spec fn view(&self) -> SpecFunctionDeclExpr { fn_decl_view(*self) }
}

impl View for ChainedCompExpr {
    type V = SpecChainedCompExpr;
    open spec fn view(&self) -> SpecChainedCompExpr { chained_comp_view(*self) }
}

impl View for CompExpr {
    type V = SpecCompExpr;
    open spec fn view(&self) -> SpecCompExpr { comp_view(*self) }
}

impl View for AddExpr {
    type V = SpecAddExpr;
    open spec fn view(&self) -> SpecAddExpr { add_view(*self) }
}

impl View for MulExpr {
    type V = SpecMulExpr;
    open spec fn view(&self) -> SpecMulExpr { mul_view(*self) }
}

impl View for AppExpr {
    type V = SpecAppExpr;
    open spec fn view(&self) -> SpecAppExpr { app_view(*self) }
}

impl View for Atom {
    type V = SpecAtom;
    open spec fn view(&self) -> SpecAtom { atom_view(*self) }
}

type ParseResult<T> = Result<(T, usize), ParseError>;

/// The outcome of a production as the grammar states it: the view of the tree
/// and the next position, or the error.
pub open spec fn outcome<T, V>(r: Result<(T, usize), ParseError>, f: spec_fn(T) -> V) -> Parsed<V> {
    match r {
        Ok((v, j)) => Some(Ok((f(v), j as int))),
        Err(e) => Some(Err(e@)),
    }
}

/// `IDENT = expr in expr` after the `let` or `letrec` at `idx`.
fn parse_let_expr(tokens: &[Token], idx: usize) -> (r: ParseResult<(String, Box<Expr>, Box<Expr>)>)
    requires
        parse_let_parts(tokens_view(tokens@), idx as int) is Some,
    ensures
        parse_let_parts(tokens_view(tokens@), idx as int)
            == outcome(r, |p: (String, Box<Expr>, Box<Expr>)| (p.0@, expr_view(*p.1), expr_view(*p.2))),
    decreases tokens@.len() - idx, 9nat,
{
    let ghost t = tokens_view(tokens@);
    let identifier = match tokens.get(idx + 1) {
        Some(Token::Identifier(identifier)) => identifier,
        Some(other) => return Err(ParseError::UnexpectedToken { expected: Expected::EqualSign, received: other.duplicate() }),
        None => return Err(ParseError::UnexpectedEnd { expected: Expected::EqualSign }),
    };
    match tokens.get(idx + 2) {
        Some(Token::EqualSign) => {},
        Some(other) => return Err(ParseError::UnexpectedToken { expected: Expected::EqualSign, received: other.duplicate() }),
        None => return Err(ParseError::UnexpectedEnd { expected: Expected::EqualSign }),
    }
    let (value, next_idx) = Expr::new(tokens, idx + 3)?;
    proof {
        lemma_expr_progress(t, idx + 3);
    }
    match tokens.get(next_idx) {
        Some(Token::Keyword(Keyword::In)) => {},
        Some(other) => return Err(ParseError::UnexpectedToken { expected: Expected::In, received: other.duplicate() }),
        None => return Err(ParseError::UnexpectedEnd { expected: Expected::In }),
    }
    let (body_expr, next_idx) = Expr::new(tokens, next_idx + 1)?;
    Ok(((identifier.clone(), Box::new(value), Box::new(body_expr)), next_idx))
}

impl LetExpr {
    pub fn new(tokens: &[Token], idx: usize) -> (r: ParseResult<Self>)
        requires
            parse_let(tokens_view(tokens@), idx as int) is Some,
        ensures
            parse_let(tokens_view(tokens@), idx as int) == outcome(r, |l: LetExpr| l@),
        decreases tokens@.len() - idx, 10nat,
    {
        let ((identifier, value, body_expr), next_idx) = parse_let_expr(tokens, idx)?;
        Ok((Self { identifier, value, body_expr }, next_idx))
    }
}

impl LetRecExpr {
    pub fn new(tokens: &[Token], idx: usize) -> (r: ParseResult<Self>)
        requires
            parse_let_rec(tokens_view(tokens@), idx as int) is Some,
        ensures
            parse_let_rec(tokens_view(tokens@), idx as int) == outcome(r, |l: LetRecExpr| l@),
        decreases tokens@.len() - idx, 10nat,
    {
        let ((identifier, value, body_expr), next_idx) = parse_let_expr(tokens, idx)?;
        Ok((Self { identifier, value, body_expr }, next_idx))
    }
}

impl IfExpr {
    pub fn new(tokens: &[Token], idx: usize) -> (r: ParseResult<Self>)
        requires
            parse_if(tokens_view(tokens@), idx as int) is Some,
        ensures
            parse_if(tokens_view(tokens@), idx as int) == outcome(r, |e: IfExpr| e@),
        decreases tokens@.len() - idx, 9nat,
    {
        let ghost t = tokens_view(tokens@);
        let (bool_expr, next_idx) = Expr::new(tokens, idx + 1)?;
        proof {
            lemma_expr_progress(t, idx + 1);
        }
        match tokens.get(next_idx) {
            Some(Token::Keyword(Keyword::Then)) => {},
            Some(other) => return Err(ParseError::UnexpectedToken { expected: Expected::Then, received: other.duplicate() }),
            None => return Err(ParseError::UnexpectedEnd { expected: Expected::Then }),
        }
        let then_idx = next_idx + 1;
        let (then_expr, next_idx) = Expr::new(tokens, then_idx)?;
        proof {
            lemma_expr_progress(t, then_idx as int);
        }
        match tokens.get(next_idx) {
            Some(Token::Keyword(Keyword::Else)) => {},
            Some(other) => return Err(ParseError::UnexpectedToken { expected: Expected::Else, received: other.duplicate() }),
            None => return Err(ParseError::UnexpectedEnd { expected: Expected::Else }),
        }
        let (else_expr, next_idx) = Expr::new(tokens, next_idx + 1)?;
        Ok((Self { bool_expr: Box::new(bool_expr), then_expr: Box::new(then_expr), else_expr: Box::new(else_expr) }, next_idx))
    }
}

impl FunctionDeclExpr {
    pub fn new(tokens: &[Token], idx: usize) -> (r: ParseResult<Self>)
        requires
            parse_fn_decl(tokens_view(tokens@), idx as int) is Some,
        ensures
            parse_fn_decl(tokens_view(tokens@), idx as int) == outcome(r, |f: FunctionDeclExpr| f@),
        decreases tokens@.len() - idx, 9nat,
    {
        let identifier = match tokens.get(idx + 1) {
            Some(Token::Identifier(identifier)) => identifier,
            Some(other) => return Err(ParseError::UnexpectedToken { expected: Expected::Identifier, received: other.duplicate() }),
            None => return Err(ParseError::UnexpectedEnd { expected: Expected::Identifier }),
        };
        match tokens.get(idx + 2) {
            Some(Token::Arrow) => {},
            Some(other) => return Err(ParseError::UnexpectedToken { expected: Expected::Arrow, received: other.duplicate() }),
            None => return Err(ParseError::UnexpectedEnd { expected: Expected::Arrow }),
        }
        let (body_expr, next_idx) = Expr::new(tokens, idx + 3)?;
        Ok((Self { param: identifier.clone(), body_expr: Box::new(body_expr) }, next_idx))
    }
}

impl CompExpr {
    pub fn new(tokens: &[Token], idx: usize) -> (r: ParseResult<Self>)
        requires
            parse_comp(tokens_view(tokens@), idx as int) is Some,
        ensures
            parse_comp(tokens_view(tokens@), idx as int) == outcome(r, |c: CompExpr| c@),
        decreases tokens@.len() - idx, 9nat,
    {
        let ghost t = tokens_view(tokens@);
        let (add_expr, next_idx) = AddExpr::new(tokens, idx)?;
        proof {
            lemma_add_progress(t, idx as int);
        }
        let (chained_expr, next_idx) = ChainedCompExpr::new(tokens, next_idx)?;
        Ok((Self { add_expr, chained_expr }, next_idx))
    }
}

impl ChainedCompExpr {
    pub fn new(tokens: &[Token], idx: usize) -> (r: ParseResult<Option<Self>>)
        requires
            parse_chained_comp(tokens_view(tokens@), idx as int) is Some,
        ensures
            parse_chained_comp(tokens_view(tokens@), idx as int)
                == outcome(r, |c: Option<ChainedCompExpr>| match c { Some(c) => Some(c@), None => None }),
        decreases tokens@.len() - idx, 0nat,
    {
        let comp_op = match tokens.get(idx) {
            Some(Token::BooleanOps(ops)) => *ops,
            Some(_) | None => return Ok((None, idx)),
        };
        let (add_expr, next_idx) = AddExpr::new(tokens, idx + 1)?;
        Ok((Some(Self { add_expr, comp_op }), next_idx))
    }
}

impl AddExpr {
    pub fn new(tokens: &[Token], idx: usize) -> (r: ParseResult<Self>)
        requires
            parse_add(tokens_view(tokens@), idx as int) is Some,
        ensures
            parse_add(tokens_view(tokens@), idx as int) == outcome(r, |a: AddExpr| a@),
        decreases tokens@.len() - idx, 8nat,
    {
        let ghost t = tokens_view(tokens@);
        let (mul_expr, next_idx) = MulExpr::new(tokens, idx)?;
        proof {
            lemma_mul_progress(t, idx as int);
        }
        let (chained_expr, next_idx) = ChainedAddExpr::new(tokens, next_idx)?;
        Ok((Self { mul_expr: Box::new(mul_expr), chained_expr }, next_idx))
    }
}

impl ChainedAddExpr {
    pub fn new(tokens: &[Token], idx: usize) -> (r: ParseResult<Option<Box<Self>>>)
        requires
            parse_chained_add(tokens_view(tokens@), idx as int) is Some,
        ensures
            parse_chained_add(tokens_view(tokens@), idx as int) == outcome(r, |c: Option<Box<ChainedAddExpr>>| add_chain_view(c)),
        decreases tokens@.len() - idx, 0nat,
    {
        let ghost t = tokens_view(tokens@);
        let additive_ops = match tokens.get(idx) {
            Some(Token::AdditiveOps(ops)) => *ops,
            Some(_) | None => return Ok((None, idx)),
        };
        let (mul_expr, next_idx) = MulExpr::new(tokens, idx + 1)?;
        proof {
            lemma_mul_progress(t, idx + 1);
        }
        let (chained_expr, next_idx) = ChainedAddExpr::new(tokens, next_idx)?;
        Ok((Some(Box::new(Self { mul_expr, additive_ops, chained_expr })), next_idx))
    }
}

impl MulExpr {
    pub fn new(tokens: &[Token], idx: usize) -> (r: ParseResult<Self>)
        requires
            parse_mul(tokens_view(tokens@), idx as int) is Some,
        ensures
            parse_mul(tokens_view(tokens@), idx as int) == outcome(r, |m: MulExpr| m@),
        decreases tokens@.len() - idx, 7nat,
    {
        let ghost t = tokens_view(tokens@);
        let (app_expr, next_idx) = AppExpr::new(tokens, idx)?;
        proof {
            lemma_app_progress(t, idx as int);
        }
        let (chained_expr, next_idx) = ChainedMulExpr::new(tokens, next_idx)?;
        Ok((Self { app_expr, chained_expr }, next_idx))
    }
}

impl ChainedMulExpr {
    pub fn new(tokens: &[Token], idx: usize) -> (r: ParseResult<Option<Box<Self>>>)
        requires
            parse_chained_mul(tokens_view(tokens@), idx as int) is Some,
        ensures
            parse_chained_mul(tokens_view(tokens@), idx as int) == outcome(r, |c: Option<Box<ChainedMulExpr>>| mul_chain_view(c)),
        decreases tokens@.len() - idx, 0nat,
    {
        let ghost t = tokens_view(tokens@);
        let multiplicative_ops = match tokens.get(idx) {
            Some(Token::MultiplicativeOps(ops)) => *ops,
            Some(_) | None => return Ok((None, idx)),
        };
        let (app_expr, next_idx) = AppExpr::new(tokens, idx + 1)?;
        proof {
            lemma_app_progress(t, idx + 1);
        }
        let (chained_expr, next_idx) = ChainedMulExpr::new(tokens, next_idx)?;
        Ok((Some(Box::new(Self { app_expr, multiplicative_ops, chained_expr })), next_idx))
    }
}

impl AppExpr {
    pub fn new(tokens: &[Token], idx: usize) -> (r: ParseResult<Self>)
        requires
            parse_app(tokens_view(tokens@), idx as int) is Some,
        ensures
            parse_app(tokens_view(tokens@), idx as int) == outcome(r, |a: AppExpr| a@),
        decreases tokens@.len() - idx, 6nat,
    {
        let ghost t = tokens_view(tokens@);
        let (atom, next_idx) = Atom::new(tokens, idx)?;
        proof {
            lemma_atom_progress(t, idx as int);
        }
        let (chained_expr, next_idx) = ChainedAppExpr::new(tokens, next_idx)?;
        Ok((Self { atom, chained_expr }, next_idx))
    }
}

impl ChainedAppExpr {
    pub fn new(tokens: &[Token], idx: usize) -> (r: ParseResult<Option<Box<Self>>>)
        requires
            parse_chained_app(tokens_view(tokens@), idx as int) is Some,
        ensures
            parse_chained_app(tokens_view(tokens@), idx as int) == outcome(r, |c: Option<Box<ChainedAppExpr>>| app_chain_view(c)),
        decreases tokens@.len() - idx, 5nat,
    {
        let ghost t = tokens_view(tokens@);
        match tokens.get(idx) {
            Some(Token::Identifier(_)) | Some(Token::IntegerLiteral(_)) | Some(Token::BooleanLiteral(_))
            | Some(Token::LParen) => {},
            Some(_) | None => return Ok((None, idx)),
        }
        let (atom, next_idx) = Atom::new(tokens, idx)?;
        proof {
            lemma_atom_progress(t, idx as int);
        }
        let (chained_expr, next_idx) = ChainedAppExpr::new(tokens, next_idx)?;
        Ok((Some(Box::new(Self { atom, chained_expr })), next_idx))
    }
}

impl Atom {
    pub fn new(tokens: &[Token], idx: usize) -> (r: ParseResult<Self>)
        requires
            parse_atom(tokens_view(tokens@), idx as int) is Some,
        ensures
            parse_atom(tokens_view(tokens@), idx as int) == outcome(r, |a: Atom| a@),
        decreases tokens@.len() - idx, 4nat,
    {
        match tokens.get(idx) {
            Some(Token::Identifier(identifier)) => Ok((Atom::Identifier(identifier.clone()), idx + 1)),
            Some(Token::IntegerLiteral(integer_literal)) => Ok((Atom::IntegerLiteral(*integer_literal), idx + 1)),
            Some(Token::BooleanLiteral(boolean_literal)) => Ok((Atom::BooleanLiteral(*boolean_literal), idx + 1)),
            Some(Token::LParen) => {
                let (expr, next_idx) = Expr::new(tokens, idx + 1)?;
                match tokens.get(next_idx) {
                    Some(Token::RParen) => Ok((Atom::PrioritizedExpr(Box::new(expr)), next_idx + 1)),
                    Some(other) => Err(ParseError::UnexpectedToken { expected: Expected::RParen, received: other.duplicate() }),
                    None => Err(ParseError::UnexpectedEnd { expected: Expected::RParen }),
                }
            },
            Some(other) => Err(ParseError::NotAnAtom { received: other.duplicate() }),
            None => Err(ParseError::UnexpectedEnd { expected: Expected::Atom }),
        }
    }
}

/// Whether `let rec NAME` stands at `idx`.
fn spells_let_rec(tokens: &[Token], idx: usize) -> (r: bool)
    requires
        idx < tokens@.len(),
    ensures
        r == spelled_let_rec(tokens_view(tokens@), idx as int),
{
    if tokens.len() - idx <= 2 {
        return false;
    }
    let rec_word = String::from_str("rec");
    let is_rec = match &tokens[idx + 1] {
        Token::Identifier(word) => *word == rec_word,
        _ => false,
    };
    let named = match &tokens[idx + 2] {
        Token::Identifier(_) => true,
        _ => false,
    };
    is_rec && named
}

impl Expr {
    pub fn new(tokens: &[Token], idx: usize) -> (r: Result<(Expr, usize), ParseError>)
        requires
            parse_expr(tokens_view(tokens@), idx as int) is Some,
        ensures
            parse_expr(tokens_view(tokens@), idx as int) == outcome(r, |e: Expr| e@),
        decreases tokens@.len() - idx, 11nat,
    {
        let token = &tokens[idx];
        match token {
            Token::Keyword(Keyword::Fn) => {
                let (func_decl_expr, next_idx) = FunctionDeclExpr::new(tokens, idx)?;
                Ok((Expr::FunctionDeclExpr(func_decl_expr), next_idx))
            },
            Token::Keyword(Keyword::Let) => {
                if spells_let_rec(tokens, idx) {
                    let (let_rec_expr, next_idx) = LetRecExpr::new(tokens, idx + 1)?;
                    Ok((Expr::LetRecExpr(let_rec_expr), next_idx))
                } else {
                    let (let_expr, next_idx) = LetExpr::new(tokens, idx)?;
                    Ok((Expr::LetExpr(let_expr), next_idx))
                }
            },
            Token::Keyword(Keyword::LetRec) => {
                let (let_rec_expr, next_idx) = LetRecExpr::new(tokens, idx)?;
                Ok((Expr::LetRecExpr(let_rec_expr), next_idx))
            },
            Token::Keyword(Keyword::If) => {
                let (if_expr, next_idx) = IfExpr::new(tokens, idx)?;
                Ok((Expr::IfExpr(if_expr), next_idx))
            },
            Token::Identifier(_) | Token::IntegerLiteral(_) | Token::BooleanLiteral(_) | Token::LParen => {
                let (comp_expr, next_idx) = CompExpr::new(tokens, idx)?;
                Ok((Expr::CompExpr(comp_expr), next_idx))
            },
            _ => Err(ParseError::NotAnExpression),
        }
    }
}

} // verus!
