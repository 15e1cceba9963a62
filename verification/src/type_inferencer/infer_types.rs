use vstd::prelude::*;
use crate::ast::types::{
    Expr, LetExpr, LetRecExpr, IfExpr, FunctionDeclExpr, CompExpr, AddExpr, ChainedAddExpr, MulExpr,
    ChainedMulExpr, AppExpr, ChainedAppExpr, Atom, SpecExpr, SpecLetExpr, SpecLetRecExpr, SpecIfExpr,
    SpecFunctionDeclExpr, SpecCompExpr, SpecAddExpr, SpecChainedAddExpr, SpecMulExpr, SpecChainedMulExpr,
    SpecAppExpr, SpecChainedAppExpr, SpecAtom, add_chain_view, mul_chain_view, app_chain_view,
};
use crate::lexer::types::BooleanOps;
use crate::type_inferencer::types::{
    Type, FuncType, TypeVariable, TypeInference, TypeScheme, TypeError, TypeVariableGenerate, SchemeView,
    SpecType, SpecVar, SpecConstraint, SpecTypeError, constraints_view, constraint, fresh_var, occurs,
    occurs_error, type_view,
};
use crate::type_inferencer::substitution::{Substitution, resolve_fuel, resolves, resolve, lemma_resolve_fuel_unbound};
use crate::type_inferencer::unification::{
    unification, unification_result, applied, apply_once, lemma_applied_unbound, lemma_unification_resolves,
};
use crate::type_inferencer::env::{
    TypeEnv, SpecEnv, generalize_under, generalized_under, free_in_env_under, lemma_generalized_under_vars,
};

verus! {

/// The constraints gathered so far and how many variables have been handed out.
pub struct InferState {
    pub constraints: Seq<SpecConstraint>,
    pub fresh: nat,
}

impl InferState {
    /// The state with the constraint `l = r` added last.
    pub open spec fn push(self, l: SpecType, r: SpecType) -> InferState {
        InferState { constraints: self.constraints.push(constraint(l, r)), fresh: self.fresh }
    }
}

/// How a step of inference ends: with a result, with a type error, or with a
/// crash, which happens only when the variable counter would pass `usize::MAX`.
pub enum Step<T> {
    Done(T, InferState),
    Failed(SpecTypeError, InferState),
    Crashed,
}

pub open spec fn infer_state(cs: Seq<TypeInference>, g: TypeVariableGenerate) -> InferState {
    InferState { constraints: constraints_view(cs), fresh: g.counter() }
}

pub open spec fn step_of(r: Result<Box<Type>, TypeError>, st: InferState) -> Step<SpecType> {
    match r {
        Ok(t) => Step::Done(type_view(*t), st),
        Err(e) => Step::Failed(e@, st),
    }
}

pub open spec fn func(p: SpecType, r: SpecType) -> SpecType {
    Type::FuncType(Box::new(FuncType { param_type: Box::new(p), return_type: Box::new(r) }))
}

/// The scheme `forall {}. v`.
pub open spec fn mono(v: SpecVar) -> SchemeView {
    SchemeView { quantified_vars: Seq::empty(), body_type: Type::TypeVariable(v) }
}

/// The occurs check before the constraint `a = b`: a variable on one side
/// must not occur in the other side. A variable against itself is no
/// infinite type and passes.
pub open spec fn check_pair(a: SpecType, b: SpecType) -> Option<SpecTypeError> {
    if a == b {
        None
    } else {
        check_sides(a, b)
    }
}

pub open spec fn check_sides(a: SpecType, b: SpecType) -> Option<SpecTypeError> {
    let first = match a {
        Type::TypeVariable(av) => if occurs(av, b) { Some(occurs_error(av, b)) } else { None },
        _ => None,
    };
    let second = match b {
        Type::TypeVariable(bv) => if occurs(bv, a) { Some(occurs_error(bv, a)) } else { None },
        _ => None,
    };
    if first is Some { first } else { second }
}

/// The substitution that sends the `i`-th quantified variable to the fresh
/// variable number `start + i`.
pub open spec fn instantiation(qs: Seq<SpecVar>, start: nat) -> Map<SpecVar, SpecType>
    decreases qs.len(),
{
    if qs.len() == 0 {
        Map::empty()
    } else {
        instantiation(qs.drop_last(), start).insert(
            qs.last(),
            Type::TypeVariable(fresh_var((start + qs.len() - 1) as nat)),
        )
    }
}

/// The instance of a scheme whose quantified variables are replaced, all at
/// once, by fresh variables from number `fresh` on; `None` where the variable
/// counter would pass `usize::MAX`.
pub open spec fn instance(s: SchemeView, fresh: nat) -> Option<SpecType> {
    if fresh + s.quantified_vars.len() > usize::MAX {
        None
    } else {
        Some(applied(s.body_type, instantiation(s.quantified_vars, fresh)))
    }
}

/// The instantiation binds exactly the quantified variables, the `i`-th to
/// the fresh variable number `start + i`.
pub proof fn lemma_instantiation_binds(qs: Seq<SpecVar>, start: nat, x: SpecVar)
    requires
        qs.no_duplicates(),
    ensures
        instantiation(qs, start).dom().contains(x) <==> qs.contains(x),
        forall|i: int| 0 <= i < qs.len() ==> #[trigger] instantiation(qs, start)[qs[i]]
            == Type::<Seq<char>>::TypeVariable(fresh_var((start + i) as nat)),
    decreases qs.len(),
{
    if qs.len() > 0 {
        let rest = qs.drop_last();
        assert(rest.no_duplicates());
        lemma_instantiation_binds(rest, start, x);
        if rest.contains(x) {
            let j = choose|j: int| 0 <= j < rest.len() && rest[j] == x;
            assert(qs[j] == x);
        }
        if qs.contains(x) && x != qs.last() {
            let j = choose|j: int| 0 <= j < qs.len() && qs[j] == x;
            assert(rest[j] == x);
        }
        assert forall|i: int| 0 <= i < qs.len() implies #[trigger] instantiation(qs, start)[qs[i]]
            == Type::<Seq<char>>::TypeVariable(fresh_var((start + i) as nat)) by {
            if i < qs.len() - 1 {
                assert(rest[i] == qs[i]);
                assert(qs[i] != qs.last());
            }
        }
    }
}

/// A scheme that quantifies nothing is used at its own type.
pub proof fn lemma_monomorphic_instance(s: SchemeView, fresh: nat)
    requires
        s.quantified_vars.len() == 0,
        fresh <= usize::MAX,
    ensures
        instance(s, fresh) == Some(s.body_type),
{
    let m = instantiation(s.quantified_vars, fresh);
    assert(m == Map::<SpecVar, SpecType>::empty());
    lemma_applied_unbound(s.body_type, m);
}

/// Each use of a quantified variable gets the fresh variable reserved for it:
/// the `i`-th quantified variable becomes variable number `fresh + i`.
pub proof fn lemma_instance_is_fresh(qs: Seq<SpecVar>, i: int, fresh: nat)
    requires
        qs.no_duplicates(),
        0 <= i < qs.len(),
        fresh + qs.len() <= usize::MAX,
    ensures
        instance(SchemeView { quantified_vars: qs, body_type: Type::TypeVariable(qs[i]) }, fresh)
            == Some(Type::<Seq<char>>::TypeVariable(fresh_var((fresh + i) as nat))),
{
    let m = instantiation(qs, fresh);
    lemma_instantiation_binds(qs, fresh, qs[i]);
    assert(qs.contains(qs[i]));
    assert(m[qs[i]] == Type::<Seq<char>>::TypeVariable(fresh_var((fresh + i) as nat)));
}

/// A fresh instance of a scheme.
pub open spec fn instantiated(s: SchemeView, st: InferState) -> Step<SpecType> {
    match instance(s, st.fresh) {
        None => Step::Crashed,
        Some(t) => Step::Done(t, InferState { constraints: st.constraints, fresh: st.fresh + s.quantified_vars.len() }),
    }
}

/// The type of an expression, the constraints it adds and the variables it uses.
pub open spec fn infer_expr(e: SpecExpr, env: SpecEnv, st: InferState) -> Step<SpecType>
    decreases e, 0nat,
{
    match e {
        Expr::FunctionDeclExpr(f) => infer_func_decl(f, env, st),
        Expr::LetExpr(l) => infer_let(l, env, st),
        Expr::LetRecExpr(l) => infer_let_rec(l, env, st),
        Expr::IfExpr(i) => infer_if(i, env, st),
        Expr::CompExpr(c) => infer_comp(c, env, st),
    }
}

/// `fn x => body`: `x` gets a fresh variable; the type is `'x -> body`.
pub open spec fn infer_func_decl(f: SpecFunctionDeclExpr, env: SpecEnv, st: InferState) -> Step<SpecType>
    decreases f, 0nat,
{
    if st.fresh >= usize::MAX {
        Step::Crashed
    } else {
        let v = fresh_var(st.fresh);
        let st1 = InferState { constraints: st.constraints, fresh: st.fresh + 1 };
        match infer_expr(*f.body_expr, env.insert(f.param, mono(v)), st1) {
            Step::Done(b, st2) => Step::Done(func(Type::TypeVariable(v), b), st2),
            other => other,
        }
    }
}

/// Solving every constraint gathered so far, keeping them all, and
/// generalising `t` under the solution over the variables that are not free
/// in `env` under it; then inferring `body` with `name` bound to the resulting
/// scheme in `body_env`.
pub open spec fn let_body(
    t: SpecType,
    st1: InferState,
    name: Seq<char>,
    env: SpecEnv,
    body_env: SpecEnv,
    body: SpecExpr,
) -> Step<SpecType>
    decreases body, 1nat,
{
    let (err, us) = unification_result(st1.constraints);
    match err {
        Some(e) => Step::Failed(e, st1),
        None => {
            let m = us.substitutions;
            infer_expr(body, body_env.insert(name, generalized_under(resolve(t, m), env, m)), st1)
        },
    }
}

/// `let x = value in body`: every constraint so far is solved, and `x` is
/// generalised over the variables not free in the environment under the
/// solution; the constraints are all kept.
pub open spec fn infer_let(l: SpecLetExpr, env: SpecEnv, st: InferState) -> Step<SpecType>
    decreases l, 0nat,
{
    match infer_expr(*l.value, env, st) {
        Step::Done(t, st1) => let_body(t, st1, l.identifier, env, env, *l.body_expr),
        other => other,
    }
}

/// `letrec f = value in body`: as `let`, with `f` bound to a fresh variable
/// `'f` inside `value` and the constraint `'f = value` added.
pub open spec fn infer_let_rec(l: SpecLetRecExpr, env: SpecEnv, st: InferState) -> Step<SpecType>
    decreases l, 0nat,
{
    if st.fresh >= usize::MAX {
        Step::Crashed
    } else {
        let v = fresh_var(st.fresh);
        let st1 = InferState { constraints: st.constraints, fresh: st.fresh + 1 };
        let env1 = env.insert(l.identifier, mono(v));
        match infer_expr(*l.value, env1, st1) {
            Step::Done(t, st2) => let_body(
                t,
                st2.push(Type::TypeVariable(v), t),
                l.identifier,
                env,
                env1,
                *l.body_expr,
            ),
            other => other,
        }
    }
}

/// `if c then a else b`: `c = Bool` and `a = b`; the type is that of `a`.
pub open spec fn infer_if(i: SpecIfExpr, env: SpecEnv, st: InferState) -> Step<SpecType>
    decreases i, 0nat,
{
    match infer_expr(*i.bool_expr, env, st) {
        Step::Done(b, st1) => match infer_expr(*i.then_expr, env, st1) {
            Step::Done(t, st2) => match infer_expr(*i.else_expr, env, st2) {
                Step::Done(e, st3) => {
                    let st4 = st3.push(b, Type::BoolType);
                    match check_pair(t, e) {
                        Some(err) => Step::Failed(err, st4),
                        None => Step::Done(t, st4.push(t, e)),
                    }
                },
                other => other,
            },
            other => other,
        },
        other => other,
    }
}

/// A comparison: `==` equates its sides, the others require `Int` on both;
/// the type is `Bool`. Without an operator, the type of the sum.
pub open spec fn infer_comp(c: SpecCompExpr, env: SpecEnv, st: InferState) -> Step<SpecType>
    decreases c, 0nat,
{
    match infer_add(c.add_expr, env, st) {
        Step::Done(l, st1) => match c.chained_expr {
            None => Step::Done(l, st1),
            Some(ch) => match infer_add(ch.add_expr, env, st1) {
                Step::Done(r, st2) => match ch.comp_op {
                    BooleanOps::Equality => match check_pair(l, r) {
                        Some(err) => Step::Failed(err, st2),
                        None => Step::Done(Type::BoolType, st2.push(l, r)),
                    },
                    _ => Step::Done(Type::BoolType, st2.push(l, Type::IntType).push(r, Type::IntType)),
                },
                other => other,
            },
        },
        other => other,
    }
}

/// A sum: with at least one operator, every operand is `Int` and so is the sum.
pub open spec fn infer_add(a: SpecAddExpr, env: SpecEnv, st: InferState) -> Step<SpecType>
    decreases a, 0nat,
{
    match infer_mul(*a.mul_expr, env, st) {
        Step::Done(l, st1) => add_chain(a.chained_expr, l, false, env, st1),
        other => other,
    }
}

pub open spec fn add_chain(
    c: Option<Box<SpecChainedAddExpr>>,
    l: SpecType,
    has_chain: bool,
    env: SpecEnv,
    st: InferState,
) -> Step<SpecType>
    decreases c, 0nat,
{
    match c {
        None => Step::Done(if has_chain { Type::IntType } else { l }, st),
        Some(link) => match infer_mul(link.mul_expr, env, st) {
            Step::Done(r, st1) => {
                let st2 = if has_chain { st1 } else { st1.push(l, Type::IntType) };
                add_chain(link.chained_expr, l, true, env, st2.push(r, Type::IntType))
            },
            other => other,
        },
    }
}

/// A product: with at least one operator, every operand is `Int` and so is the product.
pub open spec fn infer_mul(m: SpecMulExpr, env: SpecEnv, st: InferState) -> Step<SpecType>
    decreases m, 0nat,
{
    match infer_app(m.app_expr, env, st) {
        Step::Done(l, st1) => mul_chain(m.chained_expr, l, false, env, st1),
        other => other,
    }
}

pub open spec fn mul_chain(
    c: Option<Box<SpecChainedMulExpr>>,
    l: SpecType,
    has_chain: bool,
    env: SpecEnv,
    st: InferState,
) -> Step<SpecType>
    decreases c, 0nat,
{
    match c {
        None => Step::Done(if has_chain { Type::IntType } else { l }, st),
        Some(link) => match infer_app(link.app_expr, env, st) {
            Step::Done(r, st1) => {
                let st2 = if has_chain { st1 } else { st1.push(l, Type::IntType) };
                mul_chain(link.chained_expr, l, true, env, st2.push(r, Type::IntType))
            },
            other => other,
        },
    }
}

/// An application `f a1 a2 ...`, one argument at a time.
pub open spec fn infer_app(a: SpecAppExpr, env: SpecEnv, st: InferState) -> Step<SpecType>
    decreases a, 0nat,
{
    match infer_atom(a.atom, env, st) {
        Step::Done(l, st1) => app_chain(a.chained_expr, l, a.atom is Identifier, env, st1),
        other => other,
    }
}

/// Applying a value of type `l` to the remaining arguments. A function type
/// equates its parameter with the argument and yields its result; a variable
/// is equated with `argument -> 'fresh` and yields `'fresh`; `Int` and `Bool`
/// cannot be applied.
pub open spec fn app_chain(
    c: Option<Box<SpecChainedAppExpr>>,
    l: SpecType,
    head_is_identifier: bool,
    env: SpecEnv,
    st: InferState,
) -> Step<SpecType>
    decreases c, 0nat,
{
    match c {
        None => Step::Done(l, st),
        Some(link) => match infer_atom(link.atom, env, st) {
            Step::Done(r, st1) => match l {
                Type::FuncType(f) => match check_pair(*f.param_type, r) {
                    Some(err) => Step::Failed(err, st1),
                    None => app_chain(
                        link.chained_expr,
                        *f.return_type,
                        head_is_identifier,
                        env,
                        st1.push(*f.param_type, r),
                    ),
                },
                Type::TypeVariable(tv) => {
                    if head_is_identifier && occurs(tv, r) {
                        Step::Failed(occurs_error(tv, r), st1)
                    } else if st1.fresh >= usize::MAX {
                        Step::Crashed
                    } else {
                        let nv = Type::TypeVariable(fresh_var(st1.fresh));
                        let st2 = InferState {
                            constraints: st1.constraints.push(constraint(l, func(r, nv))),
                            fresh: st1.fresh + 1,
                        };
                        app_chain(link.chained_expr, nv, head_is_identifier, env, st2)
                    }
                },
                _ => Step::Failed(TypeError::NotCallable { callee: l, argument: r }, st1),
            },
            other => other,
        },
    }
}

/// A name gets a fresh instance of its scheme; literals their type.
pub open spec fn infer_atom(a: SpecAtom, env: SpecEnv, st: InferState) -> Step<SpecType>
    decreases a, 0nat,
{
    match a {
        Atom::Identifier(id) => {
            if env.dom().contains(id) {
                instantiated(env[id], st)
            } else {
                Step::Failed(TypeError::UnboundVariable(id), st)
            }
        },
        Atom::IntegerLiteral(_) => Step::Done(Type::IntType, st),
        Atom::BooleanLiteral(_) => Step::Done(Type::BoolType, st),
        Atom::PrioritizedExpr(e) => infer_expr(*e, env, st),
    }
}

/// `st2` continues `st`: the constraints of `st` stand unchanged at the start
/// of those of `st2`, and the variable counter has not gone back.
pub open spec fn continues(st: InferState, st2: InferState) -> bool {
    &&& st.constraints.len() <= st2.constraints.len()
    &&& st2.constraints.subrange(0, st.constraints.len() as int) == st.constraints
    &&& st.fresh <= st2.fresh
}

/// A step that ends in a state continues `st`.
pub open spec fn step_continues<T>(st: InferState, s: Step<T>) -> bool {
    match s {
        Step::Done(_, st2) => continues(st, st2),
        Step::Failed(_, st2) => continues(st, st2),
        Step::Crashed => true,
    }
}

proof fn lemma_continues_push(st: InferState, st1: InferState, l: SpecType, r: SpecType)
    requires
        continues(st, st1),
    ensures
        continues(st, st1.push(l, r)),
{
    assert(st1.push(l, r).constraints.subrange(0, st.constraints.len() as int)
        =~= st1.constraints.subrange(0, st.constraints.len() as int));
}

/// A step taken from a state that continues `st` continues `st`.
proof fn lemma_step_after<T>(st: InferState, st1: InferState, s: Step<T>)
    requires
        continues(st, st1),
        step_continues(st1, s),
    ensures
        step_continues(st, s),
{
    match s {
        Step::Done(_, st2) => {
            assert(st2.constraints.subrange(0, st.constraints.len() as int)
                =~= st1.constraints.subrange(0, st.constraints.len() as int));
        },
        Step::Failed(_, st2) => {
            assert(st2.constraints.subrange(0, st.constraints.len() as int)
                =~= st1.constraints.subrange(0, st.constraints.len() as int));
        },
        Step::Crashed => {},
    }
}

proof fn lemma_continues_refl(st: InferState)
    ensures
        continues(st, st),
{
    assert(st.constraints.subrange(0, st.constraints.len() as int) =~= st.constraints);
}

/// Inference keeps the constraints gathered before it, unchanged and in
/// place, and never moves the variable counter back, so that no variable
/// number is handed out twice.
pub proof fn lemma_infer_expr_continues(e: SpecExpr, env: SpecEnv, st: InferState)
    ensures
        step_continues(st, infer_expr(e, env, st)),
    decreases e, 0nat,
{
    match e {
        Expr::FunctionDeclExpr(f) => lemma_infer_func_decl_continues(f, env, st),
        Expr::LetExpr(l) => lemma_infer_let_continues(l, env, st),
        Expr::LetRecExpr(l) => lemma_infer_let_rec_continues(l, env, st),
        Expr::IfExpr(i) => lemma_infer_if_continues(i, env, st),
        Expr::CompExpr(c) => lemma_infer_comp_continues(c, env, st),
    }
}

proof fn lemma_infer_func_decl_continues(f: SpecFunctionDeclExpr, env: SpecEnv, st: InferState)
    ensures
        step_continues(st, infer_func_decl(f, env, st)),
    decreases f, 0nat,
{
    if st.fresh < usize::MAX {
        let v = fresh_var(st.fresh);
        let st1 = InferState { constraints: st.constraints, fresh: st.fresh + 1 };
        lemma_continues_refl(st);
        lemma_infer_expr_continues(*f.body_expr, env.insert(f.param, mono(v)), st1);
        lemma_step_after(st, st1, infer_expr(*f.body_expr, env.insert(f.param, mono(v)), st1));
    }
}

proof fn lemma_let_body_continues(
    st: InferState,
    t: SpecType,
    st1: InferState,
    name: Seq<char>,
    env: SpecEnv,
    body_env: SpecEnv,
    body: SpecExpr,
)
    requires
        continues(st, st1),
    ensures
        step_continues(st, let_body(t, st1, name, env, body_env, body)),
    decreases body, 1nat,
{
    let (err, us) = unification_result(st1.constraints);
    if err is None {
        let m = us.substitutions;
        let benv = body_env.insert(name, generalized_under(resolve(t, m), env, m));
        lemma_infer_expr_continues(body, benv, st1);
        lemma_step_after(st, st1, infer_expr(body, benv, st1));
    }
}

proof fn lemma_infer_let_continues(l: SpecLetExpr, env: SpecEnv, st: InferState)
    ensures
        step_continues(st, infer_let(l, env, st)),
    decreases l, 0nat,
{
    lemma_infer_expr_continues(*l.value, env, st);
    match infer_expr(*l.value, env, st) {
        Step::Done(t, st1) => {
            lemma_let_body_continues(st, t, st1, l.identifier, env, env, *l.body_expr);
        },
        _ => {},
    }
}

proof fn lemma_infer_let_rec_continues(l: SpecLetRecExpr, env: SpecEnv, st: InferState)
    ensures
        step_continues(st, infer_let_rec(l, env, st)),
    decreases l, 0nat,
{
    if st.fresh < usize::MAX {
        let v = fresh_var(st.fresh);
        let st1 = InferState { constraints: st.constraints, fresh: st.fresh + 1 };
        let env1 = env.insert(l.identifier, mono(v));
        lemma_continues_refl(st);
        lemma_infer_expr_continues(*l.value, env1, st1);
        lemma_step_after(st, st1, infer_expr(*l.value, env1, st1));
        match infer_expr(*l.value, env1, st1) {
            Step::Done(t, st2) => {
                lemma_continues_push(st, st2, Type::TypeVariable(v), t);
                lemma_let_body_continues(st, t, st2.push(Type::TypeVariable(v), t), l.identifier, env, env1, *l.body_expr);
            },
            _ => {},
        }
    }
}

proof fn lemma_infer_if_continues(i: SpecIfExpr, env: SpecEnv, st: InferState)
    ensures
        step_continues(st, infer_if(i, env, st)),
    decreases i, 0nat,
{
    lemma_infer_expr_continues(*i.bool_expr, env, st);
    match infer_expr(*i.bool_expr, env, st) {
        Step::Done(b, st1) => {
            lemma_infer_expr_continues(*i.then_expr, env, st1);
            lemma_step_after(st, st1, infer_expr(*i.then_expr, env, st1));
            match infer_expr(*i.then_expr, env, st1) {
                Step::Done(t, st2) => {
                    lemma_infer_expr_continues(*i.else_expr, env, st2);
                    lemma_step_after(st, st2, infer_expr(*i.else_expr, env, st2));
                    match infer_expr(*i.else_expr, env, st2) {
                        Step::Done(e, st3) => {
                            lemma_continues_push(st, st3, b, Type::BoolType);
                            lemma_continues_push(st, st3.push(b, Type::BoolType), t, e);
                        },
                        _ => {},
                    }
                },
                _ => {},
            }
        },
        _ => {},
    }
}

proof fn lemma_infer_comp_continues(c: SpecCompExpr, env: SpecEnv, st: InferState)
    ensures
        step_continues(st, infer_comp(c, env, st)),
    decreases c, 0nat,
{
    lemma_infer_add_continues(c.add_expr, env, st);
    match infer_add(c.add_expr, env, st) {
        Step::Done(l, st1) => match c.chained_expr {
            None => {},
            Some(ch) => {
                lemma_infer_add_continues(ch.add_expr, env, st1);
                lemma_step_after(st, st1, infer_add(ch.add_expr, env, st1));
                match infer_add(ch.add_expr, env, st1) {
                    Step::Done(r, st2) => {
                        lemma_continues_push(st, st2, l, r);
                        lemma_continues_push(st, st2, l, Type::IntType);
                        lemma_continues_push(st, st2.push(l, Type::IntType), r, Type::IntType);
                    },
                    _ => {},
                }
            },
        },
        _ => {},
    }
}

proof fn lemma_infer_add_continues(a: SpecAddExpr, env: SpecEnv, st: InferState)
    ensures
        step_continues(st, infer_add(a, env, st)),
    decreases a, 0nat,
{
    lemma_infer_mul_continues(*a.mul_expr, env, st);
    match infer_mul(*a.mul_expr, env, st) {
        Step::Done(l, st1) => {
            lemma_add_chain_continues(a.chained_expr, l, false, env, st1);
            lemma_step_after(st, st1, add_chain(a.chained_expr, l, false, env, st1));
        },
        _ => {},
    }
}

proof fn lemma_add_chain_continues(
    c: Option<Box<SpecChainedAddExpr>>,
    l: SpecType,
    has_chain: bool,
    env: SpecEnv,
    st: InferState,
)
    ensures
        step_continues(st, add_chain(c, l, has_chain, env, st)),
    decreases c, 0nat,
{
    match c {
        None => lemma_continues_refl(st),
        Some(link) => {
            lemma_infer_mul_continues(link.mul_expr, env, st);
            match infer_mul(link.mul_expr, env, st) {
                Step::Done(r, st1) => {
                    let st2 = if has_chain { st1 } else { st1.push(l, Type::IntType) };
                    lemma_continues_push(st, st1, l, Type::IntType);
                    lemma_continues_push(st, st2, r, Type::IntType);
                    lemma_add_chain_continues(link.chained_expr, l, true, env, st2.push(r, Type::IntType));
                    lemma_step_after(
                        st,
                        st2.push(r, Type::IntType),
                        add_chain(link.chained_expr, l, true, env, st2.push(r, Type::IntType)),
                    );
                },
                _ => {},
            }
        },
    }
}

proof fn lemma_infer_mul_continues(m: SpecMulExpr, env: SpecEnv, st: InferState)
    ensures
        step_continues(st, infer_mul(m, env, st)),
    decreases m, 0nat,
{
    lemma_infer_app_continues(m.app_expr, env, st);
    match infer_app(m.app_expr, env, st) {
        Step::Done(l, st1) => {
            lemma_mul_chain_continues(m.chained_expr, l, false, env, st1);
            lemma_step_after(st, st1, mul_chain(m.chained_expr, l, false, env, st1));
        },
        _ => {},
    }
}

proof fn lemma_mul_chain_continues(
    c: Option<Box<SpecChainedMulExpr>>,
    l: SpecType,
    has_chain: bool,
    env: SpecEnv,
    st: InferState,
)
    ensures
        step_continues(st, mul_chain(c, l, has_chain, env, st)),
    decreases c, 0nat,
{
    match c {
        None => lemma_continues_refl(st),
        Some(link) => {
            lemma_infer_app_continues(link.app_expr, env, st);
            match infer_app(link.app_expr, env, st) {
                Step::Done(r, st1) => {
                    let st2 = if has_chain { st1 } else { st1.push(l, Type::IntType) };
                    lemma_continues_push(st, st1, l, Type::IntType);
                    lemma_continues_push(st, st2, r, Type::IntType);
                    lemma_mul_chain_continues(link.chained_expr, l, true, env, st2.push(r, Type::IntType));
                    lemma_step_after(
                        st,
                        st2.push(r, Type::IntType),
                        mul_chain(link.chained_expr, l, true, env, st2.push(r, Type::IntType)),
                    );
                },
                _ => {},
            }
        },
    }
}

proof fn lemma_infer_app_continues(a: SpecAppExpr, env: SpecEnv, st: InferState)
    ensures
        step_continues(st, infer_app(a, env, st)),
    decreases a, 0nat,
{
    lemma_infer_atom_continues(a.atom, env, st);
    match infer_atom(a.atom, env, st) {
        Step::Done(l, st1) => {
            lemma_app_chain_continues(a.chained_expr, l, a.atom is Identifier, env, st1);
            lemma_step_after(st, st1, app_chain(a.chained_expr, l, a.atom is Identifier, env, st1));
        },
        _ => {},
    }
}

proof fn lemma_app_chain_continues(
    c: Option<Box<SpecChainedAppExpr>>,
    l: SpecType,
    head_is_identifier: bool,
    env: SpecEnv,
    st: InferState,
)
    ensures
        step_continues(st, app_chain(c, l, head_is_identifier, env, st)),
    decreases c, 0nat,
{
    match c {
        None => lemma_continues_refl(st),
        Some(link) => {
            lemma_infer_atom_continues(link.atom, env, st);
            match infer_atom(link.atom, env, st) {
                Step::Done(r, st1) => match l {
                    Type::FuncType(f) => {
                        let st2 = st1.push(*f.param_type, r);
                        lemma_continues_push(st, st1, *f.param_type, r);
                        lemma_app_chain_continues(link.chained_expr, *f.return_type, head_is_identifier, env, st2);
                        lemma_step_after(
                            st,
                            st2,
                            app_chain(link.chained_expr, *f.return_type, head_is_identifier, env, st2),
                        );
                    },
                    Type::TypeVariable(tv) => {
                        if st1.fresh < usize::MAX {
                            let nv = Type::TypeVariable(fresh_var(st1.fresh));
                            let st2 = InferState {
                                constraints: st1.constraints.push(constraint(l, func(r, nv))),
                                fresh: st1.fresh + 1,
                            };
                            lemma_continues_push(st, st1, l, func(r, nv));
                            lemma_app_chain_continues(link.chained_expr, nv, head_is_identifier, env, st2);
                            lemma_step_after(st, st2, app_chain(link.chained_expr, nv, head_is_identifier, env, st2));
                        }
                    },
                    _ => {},
                },
                _ => {},
            }
        },
    }
}

proof fn lemma_infer_atom_continues(a: SpecAtom, env: SpecEnv, st: InferState)
    ensures
        step_continues(st, infer_atom(a, env, st)),
    decreases a, 0nat,
{
    lemma_continues_refl(st);
    match a {
        Atom::Identifier(id) => {
            if env.dom().contains(id) {
                assert(st.constraints.subrange(0, st.constraints.len() as int) =~= st.constraints);
            }
        },
        Atom::PrioritizedExpr(e) => lemma_infer_expr_continues(*e, env, st),
        _ => {},
    }
}

/// `theta` makes the two sides of every constraint the same type.
pub open spec fn solved_by(cs: Seq<SpecConstraint>, theta: Map<SpecVar, SpecType>) -> bool {
    forall|k: int| 0 <= k < cs.len() ==> applied(*cs[k].left, theta) == #[trigger] applied(*cs[k].right, theta)
}

/// A conditional requires a `Bool` condition and gives both branches one
/// type: under any substitution that solves the constraints it leaves, the
/// condition's type is `Bool` and the two branch types are equal; the
/// conditional has the type of its `then` branch.
pub proof fn lemma_if_typing(i: SpecIfExpr, env: SpecEnv, st: InferState, theta: Map<SpecVar, SpecType>)
    requires
        infer_if(i, env, st) is Done,
        solved_by(infer_if(i, env, st)->Done_1.constraints, theta),
    ensures
        infer_expr(*i.bool_expr, env, st) matches Step::Done(b, st1)
            && infer_expr(*i.then_expr, env, st1) matches Step::Done(a, st2)
            && infer_expr(*i.else_expr, env, st2) matches Step::Done(e, st3)
            && infer_if(i, env, st)->Done_0 == a
            && applied(b, theta) == applied(Type::<Seq<char>>::BoolType, theta)
            && applied(a, theta) == applied(e, theta),
{
    let b = infer_expr(*i.bool_expr, env, st)->Done_0;
    let st1 = infer_expr(*i.bool_expr, env, st)->Done_1;
    let a = infer_expr(*i.then_expr, env, st1)->Done_0;
    let st2 = infer_expr(*i.then_expr, env, st1)->Done_1;
    let e = infer_expr(*i.else_expr, env, st2)->Done_0;
    let st3 = infer_expr(*i.else_expr, env, st2)->Done_1;
    let cs = infer_if(i, env, st)->Done_1.constraints;
    let n: int = st3.constraints.len() as int;
    assert(cs == st3.constraints.push(constraint(b, Type::BoolType)).push(constraint(a, e)));
    assert(cs[n] == constraint(b, Type::<Seq<char>>::BoolType));
    assert(cs[n + 1] == constraint(a, e));
    assert(applied(*cs[n].left, theta) == applied(*cs[n].right, theta));
    assert(applied(*cs[n + 1].left, theta) == applied(*cs[n + 1].right, theta));
}

/// A comparison gives `Bool`. With `<`, `<=`, `>` or `>=` both operands are
/// `Int`, and with `==` the two operands have one type, under any
/// substitution that solves the constraints it leaves.
pub proof fn lemma_comparison_typing(c: SpecCompExpr, env: SpecEnv, st: InferState, theta: Map<SpecVar, SpecType>)
    requires
        infer_comp(c, env, st) is Done,
        c.chained_expr is Some,
        solved_by(infer_comp(c, env, st)->Done_1.constraints, theta),
    ensures
        infer_add(c.add_expr, env, st) matches Step::Done(l, st1)
            && infer_add(c.chained_expr->Some_0.add_expr, env, st1) matches Step::Done(r, st2)
            && infer_comp(c, env, st)->Done_0 == Type::<Seq<char>>::BoolType
            && (c.chained_expr->Some_0.comp_op is Equality ==> applied(l, theta) == applied(r, theta))
            && (!(c.chained_expr->Some_0.comp_op is Equality) ==>
                applied(l, theta) == Type::<Seq<char>>::IntType && applied(r, theta) == Type::<Seq<char>>::IntType),
{
    let ch = c.chained_expr->Some_0;
    let l = infer_add(c.add_expr, env, st)->Done_0;
    let st1 = infer_add(c.add_expr, env, st)->Done_1;
    let r = infer_add(ch.add_expr, env, st1)->Done_0;
    let st2 = infer_add(ch.add_expr, env, st1)->Done_1;
    let cs = infer_comp(c, env, st)->Done_1.constraints;
    let n: int = st2.constraints.len() as int;
    if ch.comp_op is Equality {
        assert(cs[n] == constraint(l, r));
        assert(applied(*cs[n].left, theta) == applied(*cs[n].right, theta));
    } else {
        assert(cs[n] == constraint(l, Type::<Seq<char>>::IntType));
        assert(cs[n + 1] == constraint(r, Type::<Seq<char>>::IntType));
        assert(applied(*cs[n].left, theta) == applied(*cs[n].right, theta));
        assert(applied(*cs[n + 1].left, theta) == applied(*cs[n + 1].right, theta));
    }
}

/// In `letrec f = v in b` the recursive name's fresh variable is equated with
/// the type of `v`, and the constraint stays among those gathered: under any
/// substitution solving them, `'f` and the type of `v` are the same type, so
/// every use of `f` inside `v` agrees with `v`'s own type.
pub proof fn lemma_let_rec_typing(l: SpecLetRecExpr, env: SpecEnv, st: InferState, theta: Map<SpecVar, SpecType>)
    requires
        infer_let_rec(l, env, st) is Done,
        solved_by(infer_let_rec(l, env, st)->Done_1.constraints, theta),
    ensures
        ({
            let f = fresh_var(st.fresh);
            let st1 = InferState { constraints: st.constraints, fresh: st.fresh + 1 };
            infer_expr(*l.value, env.insert(l.identifier, mono(f)), st1) matches Step::Done(t, _)
                && applied(Type::TypeVariable(f), theta) == applied(t, theta)
        }),
{
    let f = fresh_var(st.fresh);
    let st1 = InferState { constraints: st.constraints, fresh: st.fresh + 1 };
    let env1 = env.insert(l.identifier, mono(f));
    let t = infer_expr(*l.value, env1, st1)->Done_0;
    let st2 = infer_expr(*l.value, env1, st1)->Done_1;
    let st3 = st2.push(Type::TypeVariable(f), t);
    let (err, us) = unification_result(st3.constraints);
    let m = us.substitutions;
    let benv = env1.insert(l.identifier, generalized_under(resolve(t, m), env, m));
    lemma_infer_expr_continues(*l.body_expr, benv, st3);
    let stf = infer_let_rec(l, env, st)->Done_1;
    let k = st2.constraints.len() as int;
    assert(st3.constraints[k] == constraint(Type::TypeVariable(f), t));
    assert(stf.constraints.subrange(0, st3.constraints.len() as int)[k] == stf.constraints[k]);
    assert(stf.constraints[k] == constraint(Type::TypeVariable(f), t));
    assert(applied(*stf.constraints[k].left, theta) == applied(*stf.constraints[k].right, theta));
}

/// A constraint gathered before a later state stays solved with that state.
proof fn lemma_solved_earlier(s: InferState, f: InferState, theta: Map<SpecVar, SpecType>, k: int)
    requires
        continues(s, f),
        solved_by(f.constraints, theta),
        0 <= k < s.constraints.len(),
    ensures
        applied(*s.constraints[k].left, theta) == applied(*s.constraints[k].right, theta),
{
    assert(f.constraints.subrange(0, s.constraints.len() as int)[k] == f.constraints[k]);
    assert(applied(*f.constraints[k].left, theta) == applied(*f.constraints[k].right, theta));
}

proof fn lemma_add_chain_int(c: Option<Box<SpecChainedAddExpr>>, l: SpecType, env: SpecEnv, st: InferState)
    ensures
        add_chain(c, l, true, env, st) is Done ==> add_chain(c, l, true, env, st)->Done_0 == Type::<Seq<char>>::IntType,
    decreases c,
{
    if let Some(link) = c {
        if let Step::Done(r, st1) = infer_mul(link.mul_expr, env, st) {
            lemma_add_chain_int(link.chained_expr, l, env, st1.push(r, Type::IntType));
        }
    }
}

proof fn lemma_mul_chain_int(c: Option<Box<SpecChainedMulExpr>>, l: SpecType, env: SpecEnv, st: InferState)
    ensures
        mul_chain(c, l, true, env, st) is Done ==> mul_chain(c, l, true, env, st)->Done_0 == Type::<Seq<char>>::IntType,
    decreases c,
{
    if let Some(link) = c {
        if let Step::Done(r, st1) = infer_app(link.app_expr, env, st) {
            lemma_mul_chain_int(link.chained_expr, l, env, st1.push(r, Type::IntType));
        }
    }
}

/// Every operand of a sum with an operator is `Int`, and so is the sum: for
/// each link of an additive chain, under any substitution that solves the
/// constraints left, the link's operand is `Int`, and so is the first operand.
pub proof fn lemma_add_chain_typing(
    link: Box<SpecChainedAddExpr>,
    l: SpecType,
    has_chain: bool,
    env: SpecEnv,
    st: InferState,
    theta: Map<SpecVar, SpecType>,
)
    requires
        add_chain(Some(link), l, has_chain, env, st) is Done,
        solved_by(add_chain(Some(link), l, has_chain, env, st)->Done_1.constraints, theta),
    ensures
        infer_mul(link.mul_expr, env, st) matches Step::Done(r, _)
            && applied(r, theta) == Type::<Seq<char>>::IntType,
        !has_chain ==> applied(l, theta) == Type::<Seq<char>>::IntType,
        add_chain(Some(link), l, has_chain, env, st)->Done_0 == Type::<Seq<char>>::IntType,
{
    let r = infer_mul(link.mul_expr, env, st)->Done_0;
    let st1 = infer_mul(link.mul_expr, env, st)->Done_1;
    let st2 = if has_chain { st1 } else { st1.push(l, Type::IntType) };
    let s3 = st2.push(r, Type::IntType);
    let fin = add_chain(Some(link), l, has_chain, env, st)->Done_1;
    lemma_add_chain_continues(link.chained_expr, l, true, env, s3);
    lemma_add_chain_int(link.chained_expr, l, env, s3);
    lemma_solved_earlier(s3, fin, theta, st2.constraints.len() as int);
    if !has_chain {
        lemma_solved_earlier(s3, fin, theta, st1.constraints.len() as int);
    }
}

/// Every operand of a product with an operator is `Int`, and so is the product.
pub proof fn lemma_mul_chain_typing(
    link: Box<SpecChainedMulExpr>,
    l: SpecType,
    has_chain: bool,
    env: SpecEnv,
    st: InferState,
    theta: Map<SpecVar, SpecType>,
)
    requires
        mul_chain(Some(link), l, has_chain, env, st) is Done,
        solved_by(mul_chain(Some(link), l, has_chain, env, st)->Done_1.constraints, theta),
    ensures
        infer_app(link.app_expr, env, st) matches Step::Done(r, _)
            && applied(r, theta) == Type::<Seq<char>>::IntType,
        !has_chain ==> applied(l, theta) == Type::<Seq<char>>::IntType,
        mul_chain(Some(link), l, has_chain, env, st)->Done_0 == Type::<Seq<char>>::IntType,
{
    let r = infer_app(link.app_expr, env, st)->Done_0;
    let st1 = infer_app(link.app_expr, env, st)->Done_1;
    let st2 = if has_chain { st1 } else { st1.push(l, Type::IntType) };
    let s3 = st2.push(r, Type::IntType);
    let fin = mul_chain(Some(link), l, has_chain, env, st)->Done_1;
    lemma_mul_chain_continues(link.chained_expr, l, true, env, s3);
    lemma_mul_chain_int(link.chained_expr, l, env, s3);
    lemma_solved_earlier(s3, fin, theta, st2.constraints.len() as int);
    if !has_chain {
        lemma_solved_earlier(s3, fin, theta, st1.constraints.len() as int);
    }
}

/// A sum with an operator starts its chain with the first operand: that
/// operand is `Int` too, and the sum is `Int`.
pub proof fn lemma_add_typing(a: SpecAddExpr, env: SpecEnv, st: InferState, theta: Map<SpecVar, SpecType>)
    requires
        infer_add(a, env, st) is Done,
        a.chained_expr is Some,
        solved_by(infer_add(a, env, st)->Done_1.constraints, theta),
    ensures
        infer_mul(*a.mul_expr, env, st) matches Step::Done(l, st1)
            && applied(l, theta) == Type::<Seq<char>>::IntType
            && add_chain(a.chained_expr, l, false, env, st1) == infer_add(a, env, st),
        infer_add(a, env, st)->Done_0 == Type::<Seq<char>>::IntType,
{
    let l = infer_mul(*a.mul_expr, env, st)->Done_0;
    let st1 = infer_mul(*a.mul_expr, env, st)->Done_1;
    lemma_add_chain_typing(a.chained_expr->Some_0, l, false, env, st1, theta);
}

/// A product with an operator: the first operand is `Int`, and so is the product.
pub proof fn lemma_mul_typing(m: SpecMulExpr, env: SpecEnv, st: InferState, theta: Map<SpecVar, SpecType>)
    requires
        infer_mul(m, env, st) is Done,
        m.chained_expr is Some,
        solved_by(infer_mul(m, env, st)->Done_1.constraints, theta),
    ensures
        infer_app(m.app_expr, env, st) matches Step::Done(l, st1)
            && applied(l, theta) == Type::<Seq<char>>::IntType
            && mul_chain(m.chained_expr, l, false, env, st1) == infer_mul(m, env, st),
        infer_mul(m, env, st)->Done_0 == Type::<Seq<char>>::IntType,
{
    let l = infer_app(m.app_expr, env, st)->Done_0;
    let st1 = infer_app(m.app_expr, env, st)->Done_1;
    lemma_mul_chain_typing(m.chained_expr->Some_0, l, false, env, st1, theta);
}

/// Applying a value to an argument: a function's parameter type is made equal
/// to the argument's type; a value of unknown type `'v` is made a function
/// `argument -> 'fresh`; `Int` and `Bool` cannot be applied.
pub proof fn lemma_app_chain_typing(
    link: Box<SpecChainedAppExpr>,
    l: SpecType,
    head_is_identifier: bool,
    env: SpecEnv,
    st: InferState,
    theta: Map<SpecVar, SpecType>,
)
    requires
        app_chain(Some(link), l, head_is_identifier, env, st) is Done,
        solved_by(app_chain(Some(link), l, head_is_identifier, env, st)->Done_1.constraints, theta),
    ensures
        infer_atom(link.atom, env, st) matches Step::Done(r, st1)
            && (l is FuncType || l is TypeVariable)
            && (l matches Type::FuncType(f) ==> applied(*f.param_type, theta) == applied(r, theta))
            && (l is TypeVariable ==> applied(l, theta)
                == applied(func(r, Type::TypeVariable(fresh_var(st1.fresh))), theta)),
{
    let r = infer_atom(link.atom, env, st)->Done_0;
    let st1 = infer_atom(link.atom, env, st)->Done_1;
    let fin = app_chain(Some(link), l, head_is_identifier, env, st)->Done_1;
    match l {
        Type::FuncType(f) => {
            let s2 = st1.push(*f.param_type, r);
            lemma_app_chain_continues(link.chained_expr, *f.return_type, head_is_identifier, env, s2);
            lemma_solved_earlier(s2, fin, theta, st1.constraints.len() as int);
        },
        Type::TypeVariable(_) => {
            let nv = Type::<Seq<char>>::TypeVariable(fresh_var(st1.fresh));
            let s2 = InferState { constraints: st1.constraints.push(constraint(l, func(r, nv))), fresh: st1.fresh + 1 };
            lemma_app_chain_continues(link.chained_expr, nv, head_is_identifier, env, s2);
            lemma_solved_earlier(s2, fin, theta, st1.constraints.len() as int);
        },
        _ => {},
    }
}

/// `fn x => body` has type `'x -> body` for a fresh variable `'x` that `x`
/// stands for, monomorphically, in the body.
pub proof fn lemma_func_decl_typing(f: SpecFunctionDeclExpr, env: SpecEnv, st: InferState)
    requires
        infer_func_decl(f, env, st) is Done,
    ensures
        infer_expr(
            *f.body_expr,
            env.insert(f.param, mono(fresh_var(st.fresh))),
            InferState { constraints: st.constraints, fresh: st.fresh + 1 },
        ) matches Step::Done(b, _)
            && infer_func_decl(f, env, st)->Done_0 == func(Type::TypeVariable(fresh_var(st.fresh)), b),
{
}

/// Literals have their own types, and add no constraint and no variable.
pub proof fn lemma_literal_typing(n: i64, b: bool, env: SpecEnv, st: InferState)
    ensures
        infer_atom(Atom::IntegerLiteral(n), env, st) == Step::Done(Type::<Seq<char>>::IntType, st),
        infer_atom(Atom::BooleanLiteral(b), env, st) == Step::Done(Type::<Seq<char>>::BoolType, st),
{
}

/// `let x = v in b`: every constraint gathered so far, those of `v` included,
/// is solved and kept; if that fails, so does the `let`. Otherwise `b` is
/// inferred, from the state after `v`, with `x` bound to `v`'s resolved type
/// quantified over exactly its variables that are not free in the
/// environment once the solution is applied to it.
pub proof fn lemma_let_typing(l: SpecLetExpr, env: SpecEnv, st: InferState)
    requires
        infer_expr(*l.value, env, st) is Done,
    ensures
        ({
            let t = infer_expr(*l.value, env, st)->Done_0;
            let st1 = infer_expr(*l.value, env, st)->Done_1;
            let (err, us) = unification_result(st1.constraints);
            let m = us.substitutions;
            &&& err matches Some(e) ==> infer_let(l, env, st) == Step::<SpecType>::Failed(e, st1)
            &&& err is None ==> exists|sch: SchemeView| {
                &&& sch.body_type == resolve(t, m)
                &&& forall|v: SpecVar| #[trigger] sch.quantified_vars.contains(v)
                    <==> (occurs(v, resolve(t, m)) && !free_in_env_under(env, m, v))
                &&& infer_let(l, env, st) == infer_expr(*l.body_expr, env.insert(l.identifier, sch), st1)
            }
        }),
{
    let t = infer_expr(*l.value, env, st)->Done_0;
    let st1 = infer_expr(*l.value, env, st)->Done_1;
    let (err, us) = unification_result(st1.constraints);
    let m = us.substitutions;
    if err is None {
        let sch = generalized_under(resolve(t, m), env, m);
        assert forall|v: SpecVar| #[trigger] sch.quantified_vars.contains(v)
            <==> (occurs(v, resolve(t, m)) && !free_in_env_under(env, m, v)) by {
            lemma_generalized_under_vars(resolve(t, m), env, m, v);
        }
    }
}

/// The occurs check before `a = b` fails exactly when the two sides differ and
/// one of them is a variable that occurs in the other.
pub proof fn lemma_check_pair_fails_on_infinite_types(a: SpecType, b: SpecType)
    ensures
        check_pair(a, b) is Some <==> (a != b && ((a matches Type::TypeVariable(v) && occurs(v, b))
            || (b matches Type::TypeVariable(w) && occurs(w, a)))),
{
}

/// A name not in scope is an error that names it; a name bound without
/// quantified variables is used at its bound type, with no new variable.
pub proof fn lemma_identifier_typing(id: Seq<char>, env: SpecEnv, st: InferState)
    requires
        st.fresh <= usize::MAX,
    ensures
        !env.dom().contains(id) ==> infer_atom(Atom::Identifier(id), env, st)
            == Step::<SpecType>::Failed(TypeError::UnboundVariable(id), st),
        env.dom().contains(id) && env[id].quantified_vars.len() == 0
            ==> infer_atom(Atom::Identifier(id), env, st) == Step::Done(env[id].body_type, st),
{
    if env.dom().contains(id) && env[id].quantified_vars.len() == 0 {
        lemma_monomorphic_instance(env[id], st.fresh);
        assert(InferState { constraints: st.constraints, fresh: st.fresh + 0 } == st);
    }
}

fn resolve_with_fuel(t: &Type, subs: &Substitution, Ghost(fuel): Ghost<nat>) -> (r: Type)
    requires
        resolve_fuel(t@, subs@, fuel) is Some,
    ensures
        r@ == resolve_fuel(t@, subs@, fuel).unwrap(),
    decreases fuel, t,
{
    match t {
        Type::IntType => Type::IntType,
        Type::BoolType => Type::BoolType,
        Type::FuncType(f) => {
            let p = resolve_with_fuel(&f.param_type, subs, Ghost(fuel));
            let r = resolve_with_fuel(&f.return_type, subs, Ghost(fuel));
            Type::FuncType(Box::new(FuncType { param_type: Box::new(p), return_type: Box::new(r) }))
        },
        Type::TypeVariable(v) => {
            match subs.get(v) {
                Some(bound) => resolve_with_fuel(bound, subs, Ghost((fuel - 1) as nat)),
                None => Type::TypeVariable(v.duplicate()),
            }
        },
    }
}

/// `return_type` with every bound variable replaced, repeatedly, until none is left.
pub fn apply_simple_substitutions(return_type: Type, substitutions: Substitution) -> (r: Result<Type, TypeError>)
    requires
        resolves(return_type@, substitutions@),
    ensures
        r matches Ok(t) && t@ == resolve(return_type@, substitutions@),
{
    let ghost fuel = choose|fuel: nat| (#[trigger] resolve_fuel(return_type@, substitutions@, fuel)) is Some;
    Ok(resolve_with_fuel(&return_type, &substitutions, Ghost(fuel)))
}

/// The occurs check: `Err` exactly when `left_type` occurs in `right_type`.
pub(crate) fn occurs_in(left_type: &TypeVariable, right_type: &Type) -> (r: Result<(), TypeError>)
    ensures
        r is Err <==> occurs(left_type@, right_type@),
        r matches Err(e) ==> e@ == occurs_error(left_type@, right_type@),
    decreases right_type,
{
    match right_type {
        Type::IntType | Type::BoolType => Ok(()),
        Type::FuncType(func_type) => {
            if occurs_in(left_type, &func_type.param_type).is_err()
                || occurs_in(left_type, &func_type.return_type).is_err() {
                return Err(TypeError::InfiniteType { variable: left_type.duplicate(), in_type: right_type.duplicate() });
            }
            Ok(())
        },
        Type::TypeVariable(right_type_var) => {
            if left_type.same_as(right_type_var) {
                return Err(TypeError::InfiniteTypeVariable);
            }
            Ok(())
        },
    }
}

/// The occurs check on both sides before the constraint `a = b`.
fn occurs_check(a: &Type, b: &Type) -> (r: Result<(), TypeError>)
    ensures
        match r {
            Ok(()) => check_pair(a@, b@) is None,
            Err(e) => check_pair(a@, b@) == Some(e@),
        },
{
    if let (Type::TypeVariable(av), Type::TypeVariable(bv)) = (a, b) {
        if av.same_as(bv) {
            return Ok(());
        }
    }
    match a {
        Type::TypeVariable(av) => occurs_in(av, b)?,
        _ => {},
    }
    match b {
        Type::TypeVariable(bv) => occurs_in(bv, a)?,
        _ => {},
    }
    Ok(())
}

/// A copy of the constraints.
fn copy_constraints(cs: &Vec<TypeInference>) -> (r: Vec<TypeInference>)
    ensures
        constraints_view(r@) == constraints_view(cs@),
{
    let mut r: Vec<TypeInference> = Vec::new();
    let n = cs.len();
    for i in 0..n
        invariant
            n == cs@.len(),
            r@.len() == i,
            forall|k: int| 0 <= k < i ==> #[trigger] r@[k]@ == cs@[k]@,
    {
        r.push(TypeInference { left: Box::new(cs[i].left.duplicate()), right: Box::new(cs[i].right.duplicate()) });
    }
    assert(constraints_view(r@) =~= constraints_view(cs@));
    r
}

/// Adds the constraint `left = right` at the end.
fn push_constraint(inferred_types: &mut Vec<TypeInference>, left: Box<Type>, right: Box<Type>)
    ensures
        constraints_view(final(inferred_types)@)
            == constraints_view(old(inferred_types)@).push(constraint(type_view(*left), type_view(*right))),
{
    let ghost before = constraints_view(inferred_types@);
    inferred_types.push(TypeInference { left, right });
    assert(constraints_view(inferred_types@) =~= before.push(constraint(type_view(*left), type_view(*right))));
}

/// A fresh instance of `scheme`.
fn instantiate(scheme: TypeScheme, type_var_generator: &mut TypeVariableGenerate) -> (r: Result<Box<Type>, TypeError>)
    requires
        instance(scheme@, old(type_var_generator).counter()) is Some,
    ensures
        r matches Ok(t) && Some(type_view(*t)) == instance(scheme@, old(type_var_generator).counter()),
        final(type_var_generator).counter() == old(type_var_generator).counter() + scheme@.quantified_vars.len(),
{
    let ghost start = type_var_generator.counter();
    let ghost qs = scheme@.quantified_vars;
    let mut type_substitutions = Substitution::new();
    let n = scheme.quantified_vars.len();
    let mut i: usize = 0;
    assert(qs.take(0) =~= Seq::<SpecVar>::empty());
    while i < n
        invariant
            i <= n,
            n == qs.len(),
            qs == scheme@.quantified_vars,
            start + n <= usize::MAX,
            type_var_generator.counter() == start + i,
            type_substitutions@ == instantiation(qs.take(i as int), start),
        decreases n - i,
    {
        let fresh = type_var_generator.next();
        type_substitutions.insert(scheme.quantified_vars[i].duplicate(), Type::TypeVariable(fresh));
        assert(qs.take(i + 1).drop_last() =~= qs.take(i as int));
        i += 1;
    }
    assert(qs.take(n as int) =~= qs);
    let substituted_var = apply_once(&scheme.body_type, &type_substitutions);
    Ok(Box::new(substituted_var))
}

/// The type of `ast` under `env`: adds the constraints the expression gives
/// rise to and uses fresh variables from `type_var_generator`.
pub fn infer_expr_type(
    ast: &Expr,
    env: &TypeEnv,
    inferred_types: &mut Vec<TypeInference>,
    type_var_generator: &mut TypeVariableGenerate,
) -> (r: Result<Box<Type>, TypeError>)
    requires
        !(infer_expr(ast@, env@, infer_state(old(inferred_types)@, *old(type_var_generator))) is Crashed),
    ensures
        infer_expr(ast@, env@, infer_state(old(inferred_types)@, *old(type_var_generator)))
            == step_of(r, infer_state(final(inferred_types)@, *final(type_var_generator))),
    decreases ast,
{
    match ast {
        Expr::FunctionDeclExpr(func_expr) => infer_func_decl_type(func_expr, env, inferred_types, type_var_generator),
        Expr::LetExpr(let_expr) => infer_let_type(let_expr, env, inferred_types, type_var_generator),
        Expr::LetRecExpr(let_rec_expr) => infer_let_rec_type(let_rec_expr, env, inferred_types, type_var_generator),
        Expr::IfExpr(if_expr) => infer_if_type(if_expr, env, inferred_types, type_var_generator),
        Expr::CompExpr(comp_expr) => infer_comp_type(comp_expr, env, inferred_types, type_var_generator),
    }
}

fn infer_func_decl_type(
    ast: &FunctionDeclExpr,
    env: &TypeEnv,
    inferred_types: &mut Vec<TypeInference>,
    type_var_generator: &mut TypeVariableGenerate,
) -> (r: Result<Box<Type>, TypeError>)
    requires
        !(infer_func_decl(ast@, env@, infer_state(old(inferred_types)@, *old(type_var_generator))) is Crashed),
    ensures
        infer_func_decl(ast@, env@, infer_state(old(inferred_types)@, *old(type_var_generator)))
            == step_of(r, infer_state(final(inferred_types)@, *final(type_var_generator))),
    decreases ast,
{
    let new_param_type_variable = type_var_generator.next();
    let mut local_env = env.duplicate();
    local_env.insert(ast.param.clone(), TypeScheme::from_type_var(new_param_type_variable.duplicate()));
    let body_type = infer_expr_type(&ast.body_expr, &local_env, inferred_types, type_var_generator)?;
    let ghost v = new_param_type_variable@;
    let r = Type::FuncType(Box::new(FuncType {
        param_type: Box::new(Type::TypeVariable(new_param_type_variable)),
        return_type: body_type,
    }));
    assert(type_view(Type::TypeVariable(new_param_type_variable)) == Type::<Seq<char>>::TypeVariable(v));
    assert(r@ == func(Type::TypeVariable(v), type_view(*body_type)));
    Ok(Box::new(r))
}

fn infer_let_type(
    ast: &LetExpr,
    env: &TypeEnv,
    inferred_types: &mut Vec<TypeInference>,
    type_var_generator: &mut TypeVariableGenerate,
) -> (r: Result<Box<Type>, TypeError>)
    requires
        !(infer_let(ast@, env@, infer_state(old(inferred_types)@, *old(type_var_generator))) is Crashed),
    ensures
        infer_let(ast@, env@, infer_state(old(inferred_types)@, *old(type_var_generator)))
            == step_of(r, infer_state(final(inferred_types)@, *final(type_var_generator))),
    decreases ast,
{
    let mut local_env = env.duplicate();
    let identifier_type = infer_expr_type(&ast.value, env, inferred_types, type_var_generator)?;
    let mut working = copy_constraints(inferred_types);
    let ghost cs1 = constraints_view(working@);
    let substitutions = unification(&mut working)?;
    proof {
        lemma_unification_resolves(cs1, identifier_type@);
    }
    let final_func_type = apply_simple_substitutions(identifier_type.duplicate(), substitutions.duplicate())?;
    let type_scheme = generalize_under(final_func_type, env, &substitutions);
    local_env.insert(ast.identifier.clone(), type_scheme);
    infer_expr_type(&ast.body_expr, &local_env, inferred_types, type_var_generator)
}

fn infer_let_rec_type(
    ast: &LetRecExpr,
    env: &TypeEnv,
    inferred_types: &mut Vec<TypeInference>,
    type_var_generator: &mut TypeVariableGenerate,
) -> (r: Result<Box<Type>, TypeError>)
    requires
        !(infer_let_rec(ast@, env@, infer_state(old(inferred_types)@, *old(type_var_generator))) is Crashed),
    ensures
        infer_let_rec(ast@, env@, infer_state(old(inferred_types)@, *old(type_var_generator)))
            == step_of(r, infer_state(final(inferred_types)@, *final(type_var_generator))),
    decreases ast,
{
    let rec_type_var = type_var_generator.next();
    let mut local_env = env.duplicate();
    local_env.insert(ast.identifier.clone(), TypeScheme::from_type_var(rec_type_var.duplicate()));
    let identifier_type = infer_expr_type(&ast.value, &local_env, inferred_types, type_var_generator)?;
    push_constraint(inferred_types, Box::new(Type::TypeVariable(rec_type_var.duplicate())), Box::new(identifier_type.duplicate()));
    let mut working = copy_constraints(inferred_types);
    let ghost cs1 = constraints_view(working@);
    let substitutions = unification(&mut working)?;
    proof {
        lemma_unification_resolves(cs1, identifier_type@);
    }
    let final_type = apply_simple_substitutions(identifier_type.duplicate(), substitutions.duplicate())?;
    let type_scheme = generalize_under(final_type, env, &substitutions);
    local_env.insert(ast.identifier.clone(), type_scheme);
    infer_expr_type(&ast.body_expr, &local_env, inferred_types, type_var_generator)
}

fn infer_if_type(
    ast: &IfExpr,
    env: &TypeEnv,
    inferred_types: &mut Vec<TypeInference>,
    type_var_generator: &mut TypeVariableGenerate,
) -> (r: Result<Box<Type>, TypeError>)
    requires
        !(infer_if(ast@, env@, infer_state(old(inferred_types)@, *old(type_var_generator))) is Crashed),
    ensures
        infer_if(ast@, env@, infer_state(old(inferred_types)@, *old(type_var_generator)))
            == step_of(r, infer_state(final(inferred_types)@, *final(type_var_generator))),
    decreases ast,
{
    let bool_type = infer_expr_type(&ast.bool_expr, env, inferred_types, type_var_generator)?;
    let then_type = infer_expr_type(&ast.then_expr, env, inferred_types, type_var_generator)?;
    let else_type = infer_expr_type(&ast.else_expr, env, inferred_types, type_var_generator)?;
    push_constraint(inferred_types, bool_type, Box::new(Type::BoolType));
    occurs_check(&then_type, &else_type)?;
    push_constraint(inferred_types, Box::new(then_type.duplicate()), else_type);
    Ok(then_type)
}

fn infer_comp_type(
    ast: &CompExpr,
    env: &TypeEnv,
    inferred_types: &mut Vec<TypeInference>,
    type_var_generator: &mut TypeVariableGenerate,
) -> (r: Result<Box<Type>, TypeError>)
    requires
        !(infer_comp(ast@, env@, infer_state(old(inferred_types)@, *old(type_var_generator))) is Crashed),
    ensures
        infer_comp(ast@, env@, infer_state(old(inferred_types)@, *old(type_var_generator)))
            == step_of(r, infer_state(final(inferred_types)@, *final(type_var_generator))),
    decreases ast,
{
    let left_hand_type = infer_add_expr_type(&ast.add_expr, env, inferred_types, type_var_generator)?;
    match &ast.chained_expr {
        Some(chained_expr) => {
            let right_hand_type = infer_add_expr_type(&chained_expr.add_expr, env, inferred_types, type_var_generator)?;
            match chained_expr.comp_op {
                BooleanOps::Equality => {
                    occurs_check(&left_hand_type, &right_hand_type)?;
                    push_constraint(inferred_types, left_hand_type, right_hand_type);
                },
                _ => {
                    push_constraint(inferred_types, left_hand_type, Box::new(Type::IntType));
                    push_constraint(inferred_types, right_hand_type, Box::new(Type::IntType));
                },
            }
            Ok(Box::new(Type::BoolType))
        },
        None => Ok(left_hand_type),
    }
}

fn infer_add_expr_type(
    ast: &AddExpr,
    env: &TypeEnv,
    inferred_types: &mut Vec<TypeInference>,
    type_var_generator: &mut TypeVariableGenerate,
) -> (r: Result<Box<Type>, TypeError>)
    requires
        !(infer_add(ast@, env@, infer_state(old(inferred_types)@, *old(type_var_generator))) is Crashed),
    ensures
        infer_add(ast@, env@, infer_state(old(inferred_types)@, *old(type_var_generator)))
            == step_of(r, infer_state(final(inferred_types)@, *final(type_var_generator))),
    decreases ast,
{
    let left_hand_mul_expr_type = infer_mul_expr_type(&ast.mul_expr, env, inferred_types, type_var_generator)?;
    infer_add_chain(&ast.chained_expr, left_hand_mul_expr_type, false, env, inferred_types, type_var_generator)
}

/// The rest of a sum, given the type of its first operand.
fn infer_add_chain(
    current: &Option<Box<ChainedAddExpr>>,
    left_hand_type: Box<Type>,
    has_chain: bool,
    env: &TypeEnv,
    inferred_types: &mut Vec<TypeInference>,
    type_var_generator: &mut TypeVariableGenerate,
) -> (r: Result<Box<Type>, TypeError>)
    requires
        !(add_chain(add_chain_view(*current), type_view(*left_hand_type), has_chain, env@, infer_state(old(inferred_types)@, *old(type_var_generator))) is Crashed),
    ensures
        add_chain(add_chain_view(*current), type_view(*left_hand_type), has_chain, env@, infer_state(old(inferred_types)@, *old(type_var_generator)))
            == step_of(r, infer_state(final(inferred_types)@, *final(type_var_generator))),
    decreases current,
{
    match current {
        Some(chained_expr) => {
            let right_hand_type = infer_mul_expr_type(&chained_expr.mul_expr, env, inferred_types, type_var_generator)?;
            if !has_chain {
                push_constraint(inferred_types, Box::new(left_hand_type.duplicate()), Box::new(Type::IntType));
            }
            push_constraint(inferred_types, right_hand_type, Box::new(Type::IntType));
            infer_add_chain(&chained_expr.chained_expr, left_hand_type, true, env, inferred_types, type_var_generator)
        },
        None => Ok(if has_chain { Box::new(Type::IntType) } else { left_hand_type }),
    }
}

fn infer_mul_expr_type(
    ast: &MulExpr,
    env: &TypeEnv,
    inferred_types: &mut Vec<TypeInference>,
    type_var_generator: &mut TypeVariableGenerate,
) -> (r: Result<Box<Type>, TypeError>)
    requires
        !(infer_mul(ast@, env@, infer_state(old(inferred_types)@, *old(type_var_generator))) is Crashed),
    ensures
        infer_mul(ast@, env@, infer_state(old(inferred_types)@, *old(type_var_generator)))
            == step_of(r, infer_state(final(inferred_types)@, *final(type_var_generator))),
    decreases ast,
{
    let left_hand_app_expr_type = infer_app_expr_type(&ast.app_expr, env, inferred_types, type_var_generator)?;
    infer_mul_chain(&ast.chained_expr, left_hand_app_expr_type, false, env, inferred_types, type_var_generator)
}

/// The rest of a product, given the type of its first operand.
fn infer_mul_chain(
    current: &Option<Box<ChainedMulExpr>>,
    left_hand_type: Box<Type>,
    has_chain: bool,
    env: &TypeEnv,
    inferred_types: &mut Vec<TypeInference>,
    type_var_generator: &mut TypeVariableGenerate,
) -> (r: Result<Box<Type>, TypeError>)
    requires
        !(mul_chain(mul_chain_view(*current), type_view(*left_hand_type), has_chain, env@, infer_state(old(inferred_types)@, *old(type_var_generator))) is Crashed),
    ensures
        mul_chain(mul_chain_view(*current), type_view(*left_hand_type), has_chain, env@, infer_state(old(inferred_types)@, *old(type_var_generator)))
            == step_of(r, infer_state(final(inferred_types)@, *final(type_var_generator))),
    decreases current,
{
    match current {
        Some(chained_mul_expr) => {
            let right_hand_type = infer_app_expr_type(&chained_mul_expr.app_expr, env, inferred_types, type_var_generator)?;
            if !has_chain {
                push_constraint(inferred_types, Box::new(left_hand_type.duplicate()), Box::new(Type::IntType));
            }
            push_constraint(inferred_types, right_hand_type, Box::new(Type::IntType));
            infer_mul_chain(&chained_mul_expr.chained_expr, left_hand_type, true, env, inferred_types, type_var_generator)
        },
        None => Ok(if has_chain { Box::new(Type::IntType) } else { left_hand_type }),
    }
}

fn infer_app_expr_type(
    ast: &AppExpr,
    env: &TypeEnv,
    inferred_types: &mut Vec<TypeInference>,
    type_var_generator: &mut TypeVariableGenerate,
) -> (r: Result<Box<Type>, TypeError>)
    requires
        !(infer_app(ast@, env@, infer_state(old(inferred_types)@, *old(type_var_generator))) is Crashed),
    ensures
        infer_app(ast@, env@, infer_state(old(inferred_types)@, *old(type_var_generator)))
            == step_of(r, infer_state(final(inferred_types)@, *final(type_var_generator))),
    decreases ast,
{
    let left_hand_atom_type = infer_atom_type(&ast.atom, env, inferred_types, type_var_generator)?;
    let head_is_identifier = match &ast.atom {
        Atom::Identifier(_) => true,
        _ => false,
    };
    infer_app_chain(&ast.chained_expr, left_hand_atom_type, head_is_identifier, env, inferred_types, type_var_generator)
}

/// Applies a value of type `left_hand_type` to the remaining arguments.
fn infer_app_chain(
    current: &Option<Box<ChainedAppExpr>>,
    left_hand_type: Box<Type>,
    head_is_identifier: bool,
    env: &TypeEnv,
    inferred_types: &mut Vec<TypeInference>,
    type_var_generator: &mut TypeVariableGenerate,
) -> (r: Result<Box<Type>, TypeError>)
    requires
        !(app_chain(app_chain_view(*current), type_view(*left_hand_type), head_is_identifier, env@, infer_state(old(inferred_types)@, *old(type_var_generator))) is Crashed),
    ensures
        app_chain(app_chain_view(*current), type_view(*left_hand_type), head_is_identifier, env@, infer_state(old(inferred_types)@, *old(type_var_generator)))
            == step_of(r, infer_state(final(inferred_types)@, *final(type_var_generator))),
    decreases current,
{
    match current {
        Some(chained_app_expr) => {
            let right_hand_type = infer_atom_type(&chained_app_expr.atom, env, inferred_types, type_var_generator)?;
            match *left_hand_type {
                Type::FuncType(func_type) => {
                    occurs_check(&func_type.param_type, &right_hand_type)?;
                    let FuncType { param_type, return_type } = *func_type;
                    push_constraint(inferred_types, param_type, right_hand_type);
                    infer_app_chain(&chained_app_expr.chained_expr, return_type, head_is_identifier, env, inferred_types, type_var_generator)
                },
                Type::TypeVariable(type_var) => {
                    if head_is_identifier {
                        occurs_in(&type_var, &right_hand_type)?;
                    }
                    let new_type_var = Box::new(Type::TypeVariable(type_var_generator.next()));
                    let new_func_type = Type::FuncType(Box::new(FuncType {
                        param_type: right_hand_type,
                        return_type: Box::new(new_type_var.duplicate()),
                    }));
                    push_constraint(inferred_types, Box::new(Type::TypeVariable(type_var)), Box::new(new_func_type));
                    infer_app_chain(&chained_app_expr.chained_expr, new_type_var, head_is_identifier, env, inferred_types, type_var_generator)
                },
                other => Err(TypeError::NotCallable { callee: other, argument: *right_hand_type }),
            }
        },
        None => Ok(left_hand_type),
    }
}

fn infer_atom_type(
    ast: &Atom,
    env: &TypeEnv,
    inferred_types: &mut Vec<TypeInference>,
    type_var_generator: &mut TypeVariableGenerate,
) -> (r: Result<Box<Type>, TypeError>)
    requires
        !(infer_atom(ast@, env@, infer_state(old(inferred_types)@, *old(type_var_generator))) is Crashed),
    ensures
        infer_atom(ast@, env@, infer_state(old(inferred_types)@, *old(type_var_generator)))
            == step_of(r, infer_state(final(inferred_types)@, *final(type_var_generator))),
    decreases ast,
{
    match ast {
        Atom::Identifier(identifier) => {
            match env.get(identifier) {
                Some(type_scheme) => instantiate(type_scheme.duplicate(), type_var_generator),
                None => Err(TypeError::UnboundVariable(identifier.clone())),
            }
        },
        Atom::IntegerLiteral(_) => Ok(Box::new(Type::IntType)),
        Atom::BooleanLiteral(_) => Ok(Box::new(Type::BoolType)),
        Atom::PrioritizedExpr(prio_expr) => infer_expr_type(prio_expr, env, inferred_types, type_var_generator),
    }
}

} // verus!
