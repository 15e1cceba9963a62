use vstd::prelude::*;
use crate::lexer::types::{Token, SpecToken, Keyword};
use crate::ast::types::{
    Expr, Atom, SpecExpr, SpecCompExpr, SpecAddExpr, SpecChainedAddExpr, SpecMulExpr, SpecChainedMulExpr,
    SpecAppExpr, SpecChainedAppExpr, SpecAtom, SpecChainedCompExpr,
};
use crate::ast::grammar::{
    parse_expr, parse_comp, parse_chained_comp, parse_add, parse_chained_add, parse_mul, parse_chained_mul,
    parse_app, parse_chained_app, parse_atom, parse_fn_decl, parse_let_parts, parse_let, parse_let_rec, parse_if,
    starts_atom, spelled_let_rec,
};

verus! {

// The tokens that spell a syntax tree, with every sub-expression that is not
// an operand written in brackets exactly where the tree holds a bracketed
// expression.

pub open spec fn unparse_expr(e: SpecExpr) -> Seq<SpecToken>
    decreases e,
{
    match e {
        Expr::FunctionDeclExpr(f) => seq![Token::Keyword(Keyword::Fn), Token::Identifier(f.param), Token::Arrow]
            + unparse_expr(*f.body_expr),
        Expr::LetExpr(l) => seq![Token::Keyword(Keyword::Let), Token::Identifier(l.identifier), Token::EqualSign]
            + unparse_expr(*l.value) + seq![Token::Keyword(Keyword::In)] + unparse_expr(*l.body_expr),
        Expr::LetRecExpr(l) => seq![Token::Keyword(Keyword::LetRec), Token::Identifier(l.identifier), Token::EqualSign]
            + unparse_expr(*l.value) + seq![Token::Keyword(Keyword::In)] + unparse_expr(*l.body_expr),
        Expr::IfExpr(x) => seq![Token::Keyword(Keyword::If)] + unparse_expr(*x.bool_expr)
            + seq![Token::Keyword(Keyword::Then)] + unparse_expr(*x.then_expr)
            + seq![Token::Keyword(Keyword::Else)] + unparse_expr(*x.else_expr),
        Expr::CompExpr(c) => unparse_comp(c),
    }
}

pub open spec fn unparse_comp(c: SpecCompExpr) -> Seq<SpecToken>
    decreases c,
{
    unparse_add(c.add_expr) + unparse_comp_chain(c.chained_expr)
}

pub open spec fn unparse_comp_chain(c: Option<SpecChainedCompExpr>) -> Seq<SpecToken>
    decreases c,
{
    match c {
        None => Seq::empty(),
        Some(ch) => seq![Token::BooleanOps(ch.comp_op)] + unparse_add(ch.add_expr),
    }
}

pub open spec fn unparse_add(a: SpecAddExpr) -> Seq<SpecToken>
    decreases a,
{
    unparse_mul(*a.mul_expr) + unparse_add_chain(a.chained_expr)
}

pub open spec fn unparse_add_chain(c: Option<Box<SpecChainedAddExpr>>) -> Seq<SpecToken>
    decreases c,
{
    match c {
        None => Seq::empty(),
        Some(l) => seq![Token::AdditiveOps(l.additive_ops)] + unparse_mul(l.mul_expr) + unparse_add_chain(l.chained_expr),
    }
}

pub open spec fn unparse_mul(m: SpecMulExpr) -> Seq<SpecToken>
    decreases m,
{
    unparse_app(m.app_expr) + unparse_mul_chain(m.chained_expr)
}

pub open spec fn unparse_mul_chain(c: Option<Box<SpecChainedMulExpr>>) -> Seq<SpecToken>
    decreases c,
{
    match c {
        None => Seq::empty(),
        Some(l) => seq![Token::MultiplicativeOps(l.multiplicative_ops)] + unparse_app(l.app_expr)
            + unparse_mul_chain(l.chained_expr),
    }
}

pub open spec fn unparse_app(a: SpecAppExpr) -> Seq<SpecToken>
    decreases a,
{
    unparse_atom(a.atom) + unparse_app_chain(a.chained_expr)
}

pub open spec fn unparse_app_chain(c: Option<Box<SpecChainedAppExpr>>) -> Seq<SpecToken>
    decreases c,
{
    match c {
        None => Seq::empty(),
        Some(l) => unparse_atom(l.atom) + unparse_app_chain(l.chained_expr),
    }
}

pub open spec fn unparse_atom(a: SpecAtom) -> Seq<SpecToken>
    decreases a,
{
    match a {
        Atom::Identifier(s) => seq![Token::Identifier(s)],
        Atom::IntegerLiteral(n) => seq![Token::IntegerLiteral(n)],
        Atom::BooleanLiteral(b) => seq![Token::BooleanLiteral(b)],
        Atom::PrioritizedExpr(e) => seq![Token::LParen] + unparse_expr(*e) + seq![Token::RParen],
    }
}

/// The tokens `u` stand in `t` from position `i` on.
pub open spec fn at(t: Seq<SpecToken>, i: int, u: Seq<SpecToken>) -> bool {
    0 <= i && i + u.len() <= t.len() && t.subrange(i, i + u.len()) == u
}

/// No token continuing an application stands at `k`.
pub open spec fn app_stop(t: Seq<SpecToken>, k: int) -> bool {
    !(0 <= k < t.len() && starts_atom(t[k]))
}

pub open spec fn mul_stop(t: Seq<SpecToken>, k: int) -> bool {
    app_stop(t, k) && !(0 <= k < t.len() && t[k] is MultiplicativeOps)
}

pub open spec fn add_stop(t: Seq<SpecToken>, k: int) -> bool {
    mul_stop(t, k) && !(0 <= k < t.len() && t[k] is AdditiveOps)
}

/// No token continuing an expression stands at `k`: no operand and no operator.
pub open spec fn expr_stop(t: Seq<SpecToken>, k: int) -> bool {
    add_stop(t, k) && !(0 <= k < t.len() && t[k] is BooleanOps)
}

proof fn lemma_at_split(t: Seq<SpecToken>, i: int, a: Seq<SpecToken>, b: Seq<SpecToken>)
    requires
        at(t, i, a + b),
    ensures
        at(t, i, a),
        at(t, i + a.len(), b),
{
    let w = t.subrange(i, i + (a + b).len());
    assert(w == a + b);
    assert forall|k: int| 0 <= k < a.len() implies t.subrange(i, i + a.len())[k] == a[k] by {
        assert(w[k] == (a + b)[k]);
    }
    assert(t.subrange(i, i + a.len()) =~= a);
    assert forall|k: int| 0 <= k < b.len() implies t.subrange(i + a.len(), i + a.len() + b.len())[k] == b[k] by {
        assert(w[a.len() + k] == (a + b)[a.len() + k]);
    }
    assert(t.subrange(i + a.len(), i + a.len() + b.len()) =~= b);
}

proof fn lemma_at_index(t: Seq<SpecToken>, i: int, u: Seq<SpecToken>, k: int)
    requires
        at(t, i, u),
        0 <= k < u.len(),
    ensures
        t[i + k] == u[k],
{
    assert(t.subrange(i, i + u.len())[k] == t[i + k]);
}

proof fn lemma_atom_first(a: SpecAtom)
    ensures
        unparse_atom(a).len() >= 1,
        starts_atom(unparse_atom(a)[0]),
{
}

proof fn lemma_app_first(a: SpecAppExpr)
    ensures
        unparse_app(a).len() >= 1,
        starts_atom(unparse_app(a)[0]),
{
    lemma_atom_first(a.atom);
}

proof fn lemma_mul_first(m: SpecMulExpr)
    ensures
        unparse_mul(m).len() >= 1,
        starts_atom(unparse_mul(m)[0]),
{
    lemma_app_first(m.app_expr);
}

proof fn lemma_add_first(a: SpecAddExpr)
    ensures
        unparse_add(a).len() >= 1,
        starts_atom(unparse_add(a)[0]),
{
    lemma_mul_first(*a.mul_expr);
}

/// Parsing the spelling of an atom gives the atom back.
pub proof fn lemma_roundtrip_atom(a: SpecAtom, t: Seq<SpecToken>, i: int)
    requires
        at(t, i, unparse_atom(a)),
        t.len() < usize::MAX,
    ensures
        parse_atom(t, i) == Some(Ok::<(SpecAtom, int), crate::ast::types::SpecParseError>((a, i + unparse_atom(a).len()))),
    decreases a, 0nat,
{
    let u = unparse_atom(a);
    lemma_at_index(t, i, u, 0);
    if let Atom::PrioritizedExpr(e) = a {
        let ue = unparse_expr(*e);
        assert(u == seq![Token::<Seq<char>>::LParen] + ue + seq![Token::<Seq<char>>::RParen]);
        lemma_at_split(t, i, seq![Token::<Seq<char>>::LParen] + ue, seq![Token::<Seq<char>>::RParen]);
        lemma_at_split(t, i, seq![Token::<Seq<char>>::LParen], ue);
        lemma_at_index(t, i + 1 + ue.len(), seq![Token::<Seq<char>>::RParen], 0);
        lemma_roundtrip_expr(*e, t, i + 1);
    }
}

/// Parsing the spelling of a chain of arguments gives the chain back, when
/// no further operand follows it.
pub proof fn lemma_roundtrip_app_chain(c: Option<Box<SpecChainedAppExpr>>, t: Seq<SpecToken>, i: int)
    requires
        at(t, i, unparse_app_chain(c)),
        app_stop(t, i + unparse_app_chain(c).len()),
        t.len() < usize::MAX,
    ensures
        parse_chained_app(t, i) == Some(Ok::<(Option<Box<SpecChainedAppExpr>>, int), crate::ast::types::SpecParseError>((c, i + unparse_app_chain(c).len()))),
    decreases c, 0nat,
{
    if let Some(l) = c {
        let ua = unparse_atom(l.atom);
        let ur = unparse_app_chain(l.chained_expr);
        lemma_at_split(t, i, ua, ur);
        lemma_atom_first(l.atom);
        lemma_at_index(t, i, ua, 0);
        lemma_roundtrip_atom(l.atom, t, i);
        lemma_roundtrip_app_chain(l.chained_expr, t, i + ua.len());
    }
}

pub proof fn lemma_roundtrip_app(a: SpecAppExpr, t: Seq<SpecToken>, i: int)
    requires
        at(t, i, unparse_app(a)),
        app_stop(t, i + unparse_app(a).len()),
        t.len() < usize::MAX,
    ensures
        parse_app(t, i) == Some(Ok::<(SpecAppExpr, int), crate::ast::types::SpecParseError>((a, i + unparse_app(a).len()))),
    decreases a, 0nat,
{
    let ua = unparse_atom(a.atom);
    let ur = unparse_app_chain(a.chained_expr);
    lemma_at_split(t, i, ua, ur);
    lemma_atom_first(a.atom);
    lemma_roundtrip_atom(a.atom, t, i);
    lemma_roundtrip_app_chain(a.chained_expr, t, i + ua.len());
}

pub proof fn lemma_roundtrip_mul_chain(c: Option<Box<SpecChainedMulExpr>>, t: Seq<SpecToken>, i: int)
    requires
        at(t, i, unparse_mul_chain(c)),
        mul_stop(t, i + unparse_mul_chain(c).len()),
        t.len() < usize::MAX,
    ensures
        parse_chained_mul(t, i) == Some(Ok::<(Option<Box<SpecChainedMulExpr>>, int), crate::ast::types::SpecParseError>((c, i + unparse_mul_chain(c).len()))),
    decreases c, 0nat,
{
    if let Some(l) = c {
        let op = seq![Token::<Seq<char>>::MultiplicativeOps(l.multiplicative_ops)];
        let ua = unparse_app(l.app_expr);
        let ur = unparse_mul_chain(l.chained_expr);
        lemma_at_split(t, i, op + ua, ur);
        lemma_at_split(t, i, op, ua);
        lemma_at_index(t, i, op, 0);
        lemma_app_first(l.app_expr);
        if ur.len() > 0 {
            lemma_at_index(t, i + 1 + ua.len(), ur, 0);
        }
        lemma_roundtrip_app(l.app_expr, t, i + 1);
        lemma_roundtrip_mul_chain(l.chained_expr, t, i + 1 + ua.len());
    }
}

pub proof fn lemma_roundtrip_mul(m: SpecMulExpr, t: Seq<SpecToken>, i: int)
    requires
        at(t, i, unparse_mul(m)),
        mul_stop(t, i + unparse_mul(m).len()),
        t.len() < usize::MAX,
    ensures
        parse_mul(t, i) == Some(Ok::<(SpecMulExpr, int), crate::ast::types::SpecParseError>((m, i + unparse_mul(m).len()))),
    decreases m, 0nat,
{
    let ua = unparse_app(m.app_expr);
    let ur = unparse_mul_chain(m.chained_expr);
    lemma_at_split(t, i, ua, ur);
    lemma_app_first(m.app_expr);
    if ur.len() > 0 {
        lemma_at_index(t, i + ua.len(), ur, 0);
    }
    lemma_roundtrip_app(m.app_expr, t, i);
    lemma_roundtrip_mul_chain(m.chained_expr, t, i + ua.len());
}

pub proof fn lemma_roundtrip_add_chain(c: Option<Box<SpecChainedAddExpr>>, t: Seq<SpecToken>, i: int)
    requires
        at(t, i, unparse_add_chain(c)),
        add_stop(t, i + unparse_add_chain(c).len()),
        t.len() < usize::MAX,
    ensures
        parse_chained_add(t, i) == Some(Ok::<(Option<Box<SpecChainedAddExpr>>, int), crate::ast::types::SpecParseError>((c, i + unparse_add_chain(c).len()))),
    decreases c, 0nat,
{
    if let Some(l) = c {
        let op = seq![Token::<Seq<char>>::AdditiveOps(l.additive_ops)];
        let um = unparse_mul(l.mul_expr);
        let ur = unparse_add_chain(l.chained_expr);
        lemma_at_split(t, i, op + um, ur);
        lemma_at_split(t, i, op, um);
        lemma_at_index(t, i, op, 0);
        lemma_mul_first(l.mul_expr);
        if ur.len() > 0 {
            lemma_at_index(t, i + 1 + um.len(), ur, 0);
        }
        lemma_roundtrip_mul(l.mul_expr, t, i + 1);
        lemma_roundtrip_add_chain(l.chained_expr, t, i + 1 + um.len());
    }
}

pub proof fn lemma_roundtrip_add(a: SpecAddExpr, t: Seq<SpecToken>, i: int)
    requires
        at(t, i, unparse_add(a)),
        add_stop(t, i + unparse_add(a).len()),
        t.len() < usize::MAX,
    ensures
        parse_add(t, i) == Some(Ok::<(SpecAddExpr, int), crate::ast::types::SpecParseError>((a, i + unparse_add(a).len()))),
    decreases a, 0nat,
{
    let um = unparse_mul(*a.mul_expr);
    let ur = unparse_add_chain(a.chained_expr);
    lemma_at_split(t, i, um, ur);
    lemma_mul_first(*a.mul_expr);
    if ur.len() > 0 {
        lemma_at_index(t, i + um.len(), ur, 0);
    }
    lemma_roundtrip_mul(*a.mul_expr, t, i);
    lemma_roundtrip_add_chain(a.chained_expr, t, i + um.len());
}

pub proof fn lemma_roundtrip_comp_chain(c: Option<SpecChainedCompExpr>, t: Seq<SpecToken>, j: int)
    requires
        at(t, j, unparse_comp_chain(c)),
        expr_stop(t, j + unparse_comp_chain(c).len()),
        t.len() < usize::MAX,
    ensures
        parse_chained_comp(t, j) == Some(Ok::<(Option<SpecChainedCompExpr>, int), crate::ast::types::SpecParseError>((c, j + unparse_comp_chain(c).len()))),
    decreases c, 0nat,
{
    if let Some(ch) = c {
        let op = seq![Token::<Seq<char>>::BooleanOps(ch.comp_op)];
        let ub = unparse_add(ch.add_expr);
        lemma_at_split(t, j, op, ub);
        lemma_at_index(t, j, op, 0);
        lemma_roundtrip_add(ch.add_expr, t, j + 1);
    }
}

pub proof fn lemma_roundtrip_comp(c: SpecCompExpr, t: Seq<SpecToken>, i: int)
    requires
        at(t, i, unparse_comp(c)),
        expr_stop(t, i + unparse_comp(c).len()),
        t.len() < usize::MAX,
    ensures
        parse_comp(t, i) == Some(Ok::<(SpecCompExpr, int), crate::ast::types::SpecParseError>((c, i + unparse_comp(c).len()))),
    decreases c, 0nat,
{
    let ua = unparse_add(c.add_expr);
    let ur = unparse_comp_chain(c.chained_expr);
    lemma_at_split(t, i, ua, ur);
    lemma_add_first(c.add_expr);
    if ur.len() > 0 {
        lemma_at_index(t, i + ua.len(), ur, 0);
    }
    lemma_roundtrip_add(c.add_expr, t, i);
    lemma_roundtrip_comp_chain(c.chained_expr, t, i + ua.len());
}

pub proof fn lemma_roundtrip_fn(f: crate::ast::types::SpecFunctionDeclExpr, t: Seq<SpecToken>, i: int)
    requires
        at(t, i, unparse_expr(Expr::FunctionDeclExpr(f))),
        expr_stop(t, i + unparse_expr(Expr::FunctionDeclExpr(f)).len()),
        t.len() < usize::MAX,
    ensures
        parse_fn_decl(t, i) == Some(Ok::<(crate::ast::types::SpecFunctionDeclExpr, int), crate::ast::types::SpecParseError>((f, i + unparse_expr(Expr::FunctionDeclExpr(f)).len()))),
    decreases f, 0nat,
{
    let p = seq![Token::<Seq<char>>::Keyword(Keyword::Fn), Token::Identifier(f.param), Token::Arrow];
    let ub = unparse_expr(*f.body_expr);
    lemma_at_split(t, i, p, ub);
    lemma_at_index(t, i, p, 1);
    lemma_at_index(t, i, p, 2);
    lemma_roundtrip_expr(*f.body_expr, t, i + 3);
}

pub proof fn lemma_roundtrip_let_parts(
    e: SpecExpr,
    kw: Keyword,
    name: Seq<char>,
    value: SpecExpr,
    body: SpecExpr,
    t: Seq<SpecToken>,
    i: int,
)
    requires
        ({
            let u = seq![Token::Keyword(kw), Token::Identifier(name), Token::EqualSign] + unparse_expr(value)
                + seq![Token::Keyword(Keyword::In)] + unparse_expr(body);
            at(t, i, u) && expr_stop(t, i + u.len())
        }),
        t.len() < usize::MAX,
        (e matches Expr::LetExpr(l) && l.identifier == name && *l.value == value && *l.body_expr == body)
            || (e matches Expr::LetRecExpr(l) && l.identifier == name && *l.value == value && *l.body_expr == body),
    ensures
        parse_let_parts(t, i) == Some(Ok::<((Seq<char>, SpecExpr, SpecExpr), int), crate::ast::types::SpecParseError>(((name, value, body),
            i + 4 + unparse_expr(value).len() + unparse_expr(body).len()))),
        t[i] == Token::<Seq<char>>::Keyword(kw),
        t[i + 2] == Token::<Seq<char>>::EqualSign,
    decreases e, 1nat,
{
    let p = seq![Token::<Seq<char>>::Keyword(kw), Token::Identifier(name), Token::EqualSign];
    let uv = unparse_expr(value);
    let kin = seq![Token::<Seq<char>>::Keyword(Keyword::In)];
    let ub = unparse_expr(body);
    lemma_at_split(t, i, p + uv + kin, ub);
    lemma_at_split(t, i, p + uv, kin);
    lemma_at_split(t, i, p, uv);
    lemma_at_index(t, i, p, 0);
    lemma_at_index(t, i, p, 1);
    lemma_at_index(t, i, p, 2);
    lemma_at_index(t, i + 3 + uv.len(), kin, 0);
    lemma_roundtrip_expr(value, t, i + 3);
    lemma_roundtrip_expr(body, t, i + 4 + uv.len());
}

pub proof fn lemma_roundtrip_if(x: crate::ast::types::SpecIfExpr, t: Seq<SpecToken>, i: int)
    requires
        at(t, i, unparse_expr(Expr::IfExpr(x))),
        expr_stop(t, i + unparse_expr(Expr::IfExpr(x)).len()),
        t.len() < usize::MAX,
    ensures
        parse_if(t, i) == Some(Ok::<(crate::ast::types::SpecIfExpr, int), crate::ast::types::SpecParseError>((x, i + unparse_expr(Expr::IfExpr(x)).len()))),
    decreases x, 0nat,
{
    let kif = seq![Token::<Seq<char>>::Keyword(Keyword::If)];
    let kthen = seq![Token::<Seq<char>>::Keyword(Keyword::Then)];
    let kelse = seq![Token::<Seq<char>>::Keyword(Keyword::Else)];
    let uc = unparse_expr(*x.bool_expr);
    let ua = unparse_expr(*x.then_expr);
    let ub = unparse_expr(*x.else_expr);
    lemma_at_split(t, i, kif + uc + kthen + ua + kelse, ub);
    lemma_at_split(t, i, kif + uc + kthen + ua, kelse);
    lemma_at_split(t, i, kif + uc + kthen, ua);
    lemma_at_split(t, i, kif + uc, kthen);
    lemma_at_split(t, i, kif, uc);
    let j = i + 1 + uc.len();
    let k = j + 1 + ua.len();
    lemma_at_index(t, j, kthen, 0);
    lemma_at_index(t, k, kelse, 0);
    lemma_roundtrip_expr(*x.bool_expr, t, i + 1);
    lemma_roundtrip_expr(*x.then_expr, t, j + 1);
    lemma_roundtrip_expr(*x.else_expr, t, k + 1);
}

/// Parsing is the inverse of spelling: the tokens that spell an expression,
/// followed by anything that cannot continue an expression (the end, `in`,
/// `then`, `else`, `)`, ...), parse back to that expression and stop right
/// after it.
pub proof fn lemma_roundtrip_expr(e: SpecExpr, t: Seq<SpecToken>, i: int)
    requires
        at(t, i, unparse_expr(e)),
        expr_stop(t, i + unparse_expr(e).len()),
        t.len() < usize::MAX,
    ensures
        parse_expr(t, i) == Some(Ok::<(SpecExpr, int), crate::ast::types::SpecParseError>((e, i + unparse_expr(e).len()))),
    decreases e, 2nat,
{
    let u = unparse_expr(e);
    match e {
        Expr::CompExpr(c) => {
            lemma_add_first(c.add_expr);
            assert(u == unparse_comp(c));
            assert(unparse_comp(c) == unparse_add(c.add_expr) + unparse_comp_chain(c.chained_expr));
        },
        _ => {},
    }
    assert(u.len() >= 1);
    lemma_at_index(t, i, u, 0);
    match e {
        Expr::FunctionDeclExpr(f) => {
            lemma_roundtrip_fn(f, t, i);
        },
        Expr::LetExpr(l) => {
            lemma_roundtrip_let_parts(e, Keyword::Let, l.identifier, *l.value, *l.body_expr, t, i);
            assert(!spelled_let_rec(t, i));
        },
        Expr::LetRecExpr(l) => {
            lemma_roundtrip_let_parts(e, Keyword::LetRec, l.identifier, *l.value, *l.body_expr, t, i);
        },
        Expr::IfExpr(x) => {
            lemma_roundtrip_if(x, t, i);
        },
        Expr::CompExpr(c) => {
            lemma_add_first(c.add_expr);
            lemma_roundtrip_comp(c, t, i);
        },
    }
}

/// Parsing the spelling of an expression on its own gives the expression back
/// and reads every token.
pub proof fn lemma_parse_spelling(e: SpecExpr)
    requires
        unparse_expr(e).len() < usize::MAX,
    ensures
        parse_expr(unparse_expr(e), 0)
            == Some(Ok::<(SpecExpr, int), crate::ast::types::SpecParseError>((e, unparse_expr(e).len() as int))),
{
    let u = unparse_expr(e);
    assert(u.subrange(0, u.len() as int) =~= u);
    lemma_roundtrip_expr(e, u, 0);
}

} // verus!
