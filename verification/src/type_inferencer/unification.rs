use vstd::prelude::*;
use vstd::set_lib::lemma_len_subset;
use crate::type_inferencer::types::{
    Type, FuncType, TypeVariable, TypeInference, TypeError, SpecType, SpecVar, SpecConstraint,
    SpecTypeError, constraints_view, constraint, type_view, occurs, occurs_error,
};
use crate::type_inferencer::substitution::{
    Substitution, resolve_fuel, resolves, resolve, finalize_fuel, finalizes, unbound_in, lemma_resolve_fuel_unbound,
    lemma_finalize_unbound, lemma_finalize_fuel_unbound_any,
};
use crate::type_inferencer::infer_types::{occurs_in, func};

verus! {

/// `t` with every occurrence of `v`, at any depth, replaced by `s`.
pub open spec fn substituted(t: SpecType, v: SpecVar, s: SpecType) -> SpecType
    decreases t,
{
    match t {
        Type::FuncType(f) => func(substituted(*f.param_type, v, s), substituted(*f.return_type, v, s)),
        Type::TypeVariable(w) => if w == v { s } else { t },
        _ => t,
    }
}

/// The variables of a type.
pub open spec fn tvars(t: SpecType) -> Set<SpecVar>
    decreases t,
{
    match t {
        Type::TypeVariable(w) => set![w],
        Type::FuncType(f) => tvars(*f.param_type).union(tvars(*f.return_type)),
        _ => Set::empty(),
    }
}

/// The number of nodes of a type.
pub open spec fn tsize(t: SpecType) -> nat
    decreases t,
{
    match t {
        Type::FuncType(f) => 1 + tsize(*f.param_type) + tsize(*f.return_type),
        _ => 1,
    }
}

/// The variables of a list of constraints.
pub open spec fn cvars(cs: Seq<SpecConstraint>) -> Set<SpecVar>
    decreases cs.len(),
{
    if cs.len() == 0 {
        Set::empty()
    } else {
        tvars(*cs[0].left).union(tvars(*cs[0].right)).union(cvars(cs.drop_first()))
    }
}

/// The number of type nodes in a list of constraints.
pub open spec fn csize(cs: Seq<SpecConstraint>) -> nat
    decreases cs.len(),
{
    if cs.len() == 0 {
        0
    } else {
        tsize(*cs[0].left) + tsize(*cs[0].right) + csize(cs.drop_first())
    }
}

pub proof fn lemma_tvars(t: SpecType, v: SpecVar)
    ensures
        tvars(t).finite(),
        tvars(t).contains(v) <==> occurs(v, t),
    decreases t,
{
    match t {
        Type::FuncType(f) => {
            lemma_tvars(*f.param_type, v);
            lemma_tvars(*f.return_type, v);
        },
        _ => {},
    }
}

pub proof fn lemma_cvars_finite(cs: Seq<SpecConstraint>)
    ensures
        cvars(cs).finite(),
    decreases cs.len(),
{
    if cs.len() > 0 {
        lemma_tvars(*cs[0].left, arbitrary());
        lemma_tvars(*cs[0].right, arbitrary());
        lemma_cvars_finite(cs.drop_first());
    }
}

/// What substituting `s` for `v` does to the variables of a type.
pub proof fn lemma_substituted_vars(t: SpecType, v: SpecVar, s: SpecType, w: SpecVar)
    requires
        !occurs(v, s),
    ensures
        occurs(w, substituted(t, v, s)) <==> ((occurs(w, t) && w != v) || (occurs(v, t) && occurs(w, s))),
    decreases t,
{
    match t {
        Type::FuncType(f) => {
            lemma_substituted_vars(*f.param_type, v, s, w);
            lemma_substituted_vars(*f.return_type, v, s, w);
        },
        _ => {},
    }
}

/// Every constraint with `v := s` applied to both sides.
pub open spec fn substituted_constraints(cs: Seq<SpecConstraint>, v: SpecVar, s: SpecType) -> Seq<SpecConstraint> {
    cs.map_values(|c: SpecConstraint| constraint(substituted(*c.left, v, s), substituted(*c.right, v, s)))
}

pub proof fn lemma_cvars_contains(cs: Seq<SpecConstraint>, w: SpecVar)
    ensures
        cvars(cs).contains(w) <==> exists|k: int| 0 <= k < cs.len()
            && (#[trigger] occurs(w, *cs[k].left) || occurs(w, *cs[k].right)),
    decreases cs.len(),
{
    if cs.len() > 0 {
        lemma_tvars(*cs[0].left, w);
        lemma_tvars(*cs[0].right, w);
        lemma_cvars_contains(cs.drop_first(), w);
        if cvars(cs.drop_first()).contains(w) {
            let k = choose|k: int| 0 <= k < cs.drop_first().len()
                && (#[trigger] occurs(w, *cs.drop_first()[k].left) || occurs(w, *cs.drop_first()[k].right));
            assert(cs[k + 1] == cs.drop_first()[k]);
            assert(occurs(w, *cs[k + 1].left) || occurs(w, *cs[k + 1].right));
        }
        if exists|k: int| 0 <= k < cs.len() && (#[trigger] occurs(w, *cs[k].left) || occurs(w, *cs[k].right)) {
            let k = choose|k: int| 0 <= k < cs.len() && (#[trigger] occurs(w, *cs[k].left) || occurs(w, *cs[k].right));
            if k > 0 {
                assert(cs.drop_first()[k - 1] == cs[k]);
                assert(occurs(w, *cs.drop_first()[k - 1].left) || occurs(w, *cs.drop_first()[k - 1].right));
            }
        }
    }
}

proof fn lemma_bind_var_source(cs: Seq<SpecConstraint>, idx: int, v: SpecVar, s: SpecType, w: SpecVar)
    requires
        0 <= idx < cs.len(),
        (*cs[idx].left == Type::<Seq<char>>::TypeVariable(v) && *cs[idx].right == s)
            || (*cs[idx].right == Type::<Seq<char>>::TypeVariable(v) && *cs[idx].left == s),
        !occurs(v, s),
        cvars(substituted_constraints(cs, v, s).skip(idx + 1)).contains(w),
    ensures
        cvars(cs.skip(idx)).contains(w),
        w != v,
{
    let ns = substituted_constraints(cs, v, s).skip(idx + 1);
    let os = cs.skip(idx);
    lemma_cvars_contains(ns, w);
    lemma_cvars_contains(os, w);
    let k = choose|k: int| 0 <= k < ns.len() && (#[trigger] occurs(w, *ns[k].left) || occurs(w, *ns[k].right));
    let c = cs[idx + 1 + k];
    assert(ns[k] == constraint(substituted(*c.left, v, s), substituted(*c.right, v, s)));
    lemma_substituted_vars(*c.left, v, s, w);
    lemma_substituted_vars(*c.right, v, s, w);
    assert(os[k + 1] == c);
    assert(os[0] == cs[idx]);
    if occurs(w, *c.left) || occurs(w, *c.right) {
        lemma_cvars_member(os, k + 1, w);
    } else {
        assert(occurs(w, s));
        lemma_cvars_member(os, 0, w);
    }
}

/// A variable of one of the constraints is a variable of the list.
pub proof fn lemma_cvars_member(cs: Seq<SpecConstraint>, k: int, w: SpecVar)
    requires
        0 <= k < cs.len(),
        occurs(w, *cs[k].left) || occurs(w, *cs[k].right),
    ensures
        cvars(cs).contains(w),
    decreases k,
{
    if k == 0 {
        lemma_tvars(*cs[0].left, w);
        lemma_tvars(*cs[0].right, w);
    } else {
        assert(cs.drop_first()[k - 1] == cs[k]);
        lemma_cvars_member(cs.drop_first(), k - 1, w);
    }
}

/// Binding a variable that occurs in the constraints from `idx` on, to a type
/// drawn from them that does not contain it, leaves fewer variables after `idx`.
pub proof fn lemma_bind_shrinks(cs: Seq<SpecConstraint>, idx: int, v: SpecVar, s: SpecType)
    requires
        0 <= idx < cs.len(),
        (*cs[idx].left == Type::<Seq<char>>::TypeVariable(v) && *cs[idx].right == s)
            || (*cs[idx].right == Type::<Seq<char>>::TypeVariable(v) && *cs[idx].left == s),
        !occurs(v, s),
    ensures
        cvars(substituted_constraints(cs, v, s).skip(idx + 1)).len() < cvars(cs.skip(idx)).len(),
{
    let old_vs = cvars(cs.skip(idx));
    let new_vs = cvars(substituted_constraints(cs, v, s).skip(idx + 1));
    lemma_cvars_finite(cs.skip(idx));
    lemma_cvars_finite(substituted_constraints(cs, v, s).skip(idx + 1));
    assert(cs.skip(idx)[0] == cs[idx]);
    assert forall|w: SpecVar| new_vs.contains(w) implies old_vs.remove(v).contains(w) by {
        lemma_bind_var_source(cs, idx, v, s, w);
    }
    lemma_cvars_contains(cs.skip(idx), v);
    assert(occurs(v, *cs.skip(idx)[0].left) || occurs(v, *cs.skip(idx)[0].right));
    assert(old_vs.contains(v));
    lemma_len_subset(new_vs, old_vs.remove(v));
}

/// Dropping the first constraint does not add variables and removes nodes.
pub proof fn lemma_drop_shrinks(cs: Seq<SpecConstraint>, idx: int)
    requires
        0 <= idx < cs.len(),
    ensures
        cvars(cs.skip(idx + 1)).len() <= cvars(cs.skip(idx)).len(),
        csize(cs.skip(idx + 1)) < csize(cs.skip(idx)),
{
    assert(cs.skip(idx).drop_first() =~= cs.skip(idx + 1));
    lemma_cvars_finite(cs.skip(idx));
    lemma_cvars_finite(cs.skip(idx + 1));
    lemma_len_subset(cvars(cs.skip(idx + 1)), cvars(cs.skip(idx)));
}

/// The constraints with the one at `idx`, between two function types, split
/// into the constraint between the parameters and that between the results.
pub open spec fn split_constraints(cs: Seq<SpecConstraint>, idx: int, lf: FuncType<Seq<char>>, rf: FuncType<Seq<char>>) -> Seq<SpecConstraint> {
    cs.take(idx) + seq![
        constraint(*lf.param_type, *rf.param_type),
        constraint(*lf.return_type, *rf.return_type),
    ] + cs.skip(idx + 1)
}

pub proof fn lemma_split_shrinks(cs: Seq<SpecConstraint>, idx: int, lf: FuncType<Seq<char>>, rf: FuncType<Seq<char>>)
    requires
        0 <= idx < cs.len(),
        *cs[idx].left == Type::<Seq<char>>::FuncType(Box::new(lf)),
        *cs[idx].right == Type::<Seq<char>>::FuncType(Box::new(rf)),
    ensures
        cvars(split_constraints(cs, idx, lf, rf).skip(idx)) == cvars(cs.skip(idx)),
        csize(split_constraints(cs, idx, lf, rf).skip(idx)) < csize(cs.skip(idx)),
{
    let n = split_constraints(cs, idx, lf, rf).skip(idx);
    assert(n[0] == constraint(*lf.param_type, *rf.param_type));
    assert(n[1] == constraint(*lf.return_type, *rf.return_type));
    assert(n.drop_first()[0] == n[1]);
    assert(n.drop_first().drop_first() =~= cs.skip(idx + 1));
    assert(cs.skip(idx).drop_first() =~= cs.skip(idx + 1));
    assert(cs.skip(idx)[0] == cs[idx]);
    assert(tsize(*cs[idx].left) == 1 + tsize(*lf.param_type) + tsize(*lf.return_type));
    assert(tsize(*cs[idx].right) == 1 + tsize(*rf.param_type) + tsize(*rf.return_type));
    assert(tvars(*cs[idx].left) == tvars(*lf.param_type).union(tvars(*lf.return_type)));
    assert(tvars(*cs[idx].right) == tvars(*rf.param_type).union(tvars(*rf.return_type)));
    assert(csize(n) == tsize(*n[0].left) + tsize(*n[0].right) + csize(n.drop_first()));
    assert(csize(n.drop_first()) == tsize(*n[1].left) + tsize(*n[1].right) + csize(n.drop_first().drop_first()));
    assert(csize(cs.skip(idx)) == tsize(*cs[idx].left) + tsize(*cs[idx].right) + csize(cs.skip(idx + 1)));
    assert(cvars(n) == tvars(*n[0].left).union(tvars(*n[0].right)).union(cvars(n.drop_first())));
    assert(cvars(n.drop_first()) == tvars(*n[1].left).union(tvars(*n[1].right)).union(cvars(n.drop_first().drop_first())));
    assert(cvars(cs.skip(idx)) == tvars(*cs[idx].left).union(tvars(*cs[idx].right)).union(cvars(cs.skip(idx + 1))));
    assert(cvars(n) =~= cvars(cs.skip(idx)));
}

/// The constraints and the bindings found so far while solving them.
pub struct UnifyState {
    pub constraints: Seq<SpecConstraint>,
    pub substitutions: Map<SpecVar, SpecType>,
}

pub open spec fn unify_state(cs: Seq<TypeInference>, subs: Map<SpecVar, SpecType>) -> UnifyState {
    UnifyState { constraints: constraints_view(cs), substitutions: subs }
}

/// Records `v := s`: the step is applied to every constraint and to every
/// type already bound, and `v` is bound to `s`.
pub open spec fn bind_state(v: SpecVar, s: SpecType, st: UnifyState) -> UnifyState {
    UnifyState {
        constraints: substituted_constraints(st.constraints, v, s),
        substitutions: st.substitutions.map_values(|t: SpecType| substituted(t, v, s)).insert(v, s),
    }
}

/// Robinson's unification, solving the constraints from position `idx` on in
/// order, each as it stands when its turn comes: equal primitives and a
/// variable against itself are dropped; a variable against another type is
/// bound to it unless it occurs in it; two function types are split into
/// their parameters and their results; anything else is a clash.
pub open spec fn unify_from(idx: int, st: UnifyState) -> (Option<SpecTypeError>, UnifyState)
    decreases cvars(st.constraints.skip(idx)).len(), csize(st.constraints.skip(idx)),
{
    if !(0 <= idx < st.constraints.len()) {
        (None, st)
    } else {
        let l = *st.constraints[idx].left;
        let r = *st.constraints[idx].right;
        proof {
            lemma_drop_shrinks(st.constraints, idx);
        }
        match (l, r) {
            (Type::IntType, Type::IntType) | (Type::BoolType, Type::BoolType) => unify_from(idx + 1, st),
            (Type::TypeVariable(lv), _) => {
                if r == Type::<Seq<char>>::TypeVariable(lv) {
                    unify_from(idx + 1, st)
                } else if occurs(lv, r) {
                    (Some(occurs_error(lv, r)), st)
                } else {
                    proof {
                        lemma_bind_shrinks(st.constraints, idx, lv, r);
                    }
                    unify_from(idx + 1, bind_state(lv, r, st))
                }
            },
            (_, Type::TypeVariable(rv)) => {
                if occurs(rv, l) {
                    (Some(occurs_error(rv, l)), st)
                } else {
                    proof {
                        lemma_bind_shrinks(st.constraints, idx, rv, l);
                    }
                    unify_from(idx + 1, bind_state(rv, l, st))
                }
            },
            (Type::FuncType(lf), Type::FuncType(rf)) => {
                proof {
                    lemma_split_shrinks(st.constraints, idx, *lf, *rf);
                }
                unify_from(
                    idx,
                    UnifyState { constraints: split_constraints(st.constraints, idx, *lf, *rf), ..st },
                )
            },
            _ => (Some(TypeError::UnifyFailed { left: l, right: r }), st),
        }
    }
}

/// Solving a list of constraints from the empty substitution.
pub open spec fn unification_result(cs: Seq<SpecConstraint>) -> (Option<SpecTypeError>, UnifyState) {
    unify_from(0, UnifyState { constraints: cs, substitutions: Map::empty() })
}

/// The bindings are in solved form: no bound variable occurs in a bound type
/// or in a constraint, so applying the bindings once leaves no bound variable.
pub open spec fn solved_form(st: UnifyState) -> bool {
    &&& forall|v: SpecVar, w: SpecVar| st.substitutions.dom().contains(v) && st.substitutions.dom().contains(w)
        ==> !(#[trigger] occurs(w, st.substitutions[v]))
    &&& forall|k: int, w: SpecVar| 0 <= k < st.constraints.len() && st.substitutions.dom().contains(w)
        ==> !(#[trigger] occurs(w, *st.constraints[k].left)) && !occurs(w, *st.constraints[k].right)
}

proof fn lemma_bind_solved_form(st: UnifyState, idx: int, v: SpecVar, t: SpecType)
    requires
        solved_form(st),
        0 <= idx < st.constraints.len(),
        (*st.constraints[idx].left == Type::<Seq<char>>::TypeVariable(v) && *st.constraints[idx].right == t)
            || (*st.constraints[idx].right == Type::<Seq<char>>::TypeVariable(v) && *st.constraints[idx].left == t),
        !occurs(v, t),
    ensures
        solved_form(bind_state(v, t, st)),
{
    assert(bind_state(v, t, st).constraints.len() == st.constraints.len());
    let m = st.substitutions;
    let cs = st.constraints;
    let n = bind_state(v, t, st);
    assert(!m.dom().contains(v)) by {
        if m.dom().contains(v) {
            assert(!occurs(v, *cs[idx].left) && !occurs(v, *cs[idx].right));
        }
    }
    assert forall|w: SpecVar| m.dom().contains(w) implies !occurs(w, t) by {
        assert(!occurs(w, *cs[idx].left) && !occurs(w, *cs[idx].right));
    }
    assert forall|u: SpecVar, w: SpecVar| n.substitutions.dom().contains(u) && n.substitutions.dom().contains(w)
        implies !(#[trigger] occurs(w, n.substitutions[u])) by {
        if u != v {
            assert(n.substitutions[u] == substituted(m[u], v, t));
            lemma_substituted_vars(m[u], v, t, w);
            if w != v {
                assert(!occurs(w, m[u]));
            }
        }
    }
    assert forall|k: int, w: SpecVar| 0 <= k < n.constraints.len() && n.substitutions.dom().contains(w)
        implies !(#[trigger] occurs(w, *n.constraints[k].left)) && !occurs(w, *n.constraints[k].right) by {
        assert(n.constraints[k] == constraint(substituted(*cs[k].left, v, t), substituted(*cs[k].right, v, t)));
        lemma_substituted_vars(*cs[k].left, v, t, w);
        lemma_substituted_vars(*cs[k].right, v, t, w);
        if w != v {
            assert(!occurs(w, *cs[k].left) && !occurs(w, *cs[k].right));
        }
    }
    assert(forall|u: SpecVar, w: SpecVar| n.substitutions.dom().contains(u) && n.substitutions.dom().contains(w)
        ==> !(#[trigger] occurs(w, n.substitutions[u])));
    assert(forall|k: int, w: SpecVar| 0 <= k < n.constraints.len() && n.substitutions.dom().contains(w)
        ==> !(#[trigger] occurs(w, *n.constraints[k].left)) && !occurs(w, *n.constraints[k].right));
    assert(solved_form(n));
}

proof fn lemma_split_solved_form(st: UnifyState, idx: int, lf: FuncType<Seq<char>>, rf: FuncType<Seq<char>>)
    requires
        solved_form(st),
        0 <= idx < st.constraints.len(),
        *st.constraints[idx].left == Type::<Seq<char>>::FuncType(Box::new(lf)),
        *st.constraints[idx].right == Type::<Seq<char>>::FuncType(Box::new(rf)),
    ensures
        solved_form(UnifyState { constraints: split_constraints(st.constraints, idx, lf, rf), ..st }),
{
    let cs = st.constraints;
    let ns = split_constraints(cs, idx, lf, rf);
    assert forall|k: int, w: SpecVar| 0 <= k < ns.len() && st.substitutions.dom().contains(w)
        implies !(#[trigger] occurs(w, *ns[k].left)) && !occurs(w, *ns[k].right) by {
        if k < idx {
            assert(ns[k] == cs[k]);
            assert(!occurs(w, *cs[k].left));
        } else if k == idx || k == idx + 1 {
            assert(!occurs(w, *cs[idx].left) && !occurs(w, *cs[idx].right));
        } else {
            assert(ns[k] == cs[k - 1]);
            assert(!occurs(w, *cs[k - 1].left));
        }
    }
}

/// Solving keeps the bindings in solved form.
pub proof fn lemma_unify_solved_form(idx: int, st: UnifyState)
    requires
        solved_form(st),
    ensures
        solved_form(unify_from(idx, st).1),
    decreases cvars(st.constraints.skip(idx)).len(), csize(st.constraints.skip(idx)),
{
    if 0 <= idx < st.constraints.len() {
        let l = *st.constraints[idx].left;
        let r = *st.constraints[idx].right;
        lemma_drop_shrinks(st.constraints, idx);
        match (l, r) {
            (Type::IntType, Type::IntType) | (Type::BoolType, Type::BoolType) => lemma_unify_solved_form(idx + 1, st),
            (Type::TypeVariable(lv), _) => {
                if r == Type::<Seq<char>>::TypeVariable(lv) {
                    lemma_unify_solved_form(idx + 1, st);
                } else if !occurs(lv, r) {
                    lemma_bind_shrinks(st.constraints, idx, lv, r);
                    lemma_bind_solved_form(st, idx, lv, r);
                    lemma_unify_solved_form(idx + 1, bind_state(lv, r, st));
                }
            },
            (_, Type::TypeVariable(rv)) => {
                if !occurs(rv, l) {
                    lemma_bind_shrinks(st.constraints, idx, rv, l);
                    lemma_bind_solved_form(st, idx, rv, l);
                    lemma_unify_solved_form(idx + 1, bind_state(rv, l, st));
                }
            },
            (Type::FuncType(lf), Type::FuncType(rf)) => {
                lemma_split_shrinks(st.constraints, idx, *lf, *rf);
                lemma_split_solved_form(st, idx, *lf, *rf);
                lemma_unify_solved_form(
                    idx,
                    UnifyState { constraints: split_constraints(st.constraints, idx, *lf, *rf), ..st },
                );
            },
            _ => {},
        }
    }
}

/// The bindings that unification returns are in solved form, so every type
/// resolves under them, and in one step: no bound variable is left.
pub proof fn lemma_unification_resolves(cs: Seq<SpecConstraint>, t: SpecType)
    ensures
        solved_form(unification_result(cs).1),
        resolves(t, unification_result(cs).1.substitutions),
        finalizes(t, unification_result(cs).1.substitutions),
        unbound_in(resolve(t, unification_result(cs).1.substitutions), unification_result(cs).1.substitutions),
{
    let st0 = UnifyState { constraints: cs, substitutions: Map::empty() };
    lemma_unify_solved_form(0, st0);
    let m = unification_result(cs).1.substitutions;
    lemma_resolve_solved(t, m);
    lemma_finalize_solved(t, m, 1);
}

/// Under bindings in solved form, one step of resolution suffices.
proof fn lemma_resolve_solved(t: SpecType, m: Map<SpecVar, SpecType>)
    requires
        forall|v: SpecVar, w: SpecVar| m.dom().contains(v) && m.dom().contains(w) ==> !(#[trigger] occurs(w, m[v])),
    ensures
        resolves(t, m),
        unbound_in(resolve(t, m), m),
{
    lemma_resolve_fuel_solved(t, m, 1);
    let fuel = choose|fuel: nat| (#[trigger] resolve_fuel(t, m, fuel)) is Some;
    lemma_resolve_fuel_solved(t, m, fuel);
}

proof fn lemma_resolve_fuel_solved(t: SpecType, m: Map<SpecVar, SpecType>, fuel: nat)
    requires
        forall|v: SpecVar, w: SpecVar| m.dom().contains(v) && m.dom().contains(w) ==> !(#[trigger] occurs(w, m[v])),
    ensures
        fuel >= 1 ==> resolve_fuel(t, m, fuel) is Some,
        resolve_fuel(t, m, fuel) matches Some(r) ==> unbound_in(r, m),
    decreases t,
{
    match t {
        Type::FuncType(f) => {
            lemma_resolve_fuel_solved(*f.param_type, m, fuel);
            lemma_resolve_fuel_solved(*f.return_type, m, fuel);
            if let Some(r) = resolve_fuel(t, m, fuel) {
                assert forall|w: SpecVar| occurs(w, r) implies !m.dom().contains(w) by {
                    let p = resolve_fuel(*f.param_type, m, fuel).unwrap();
                    let q = resolve_fuel(*f.return_type, m, fuel).unwrap();
                    assert(occurs(w, p) || occurs(w, q));
                }
            }
        },
        Type::TypeVariable(v) => {
            if m.dom().contains(v) && fuel >= 1 {
                assert forall|w: SpecVar| occurs(w, m[v]) implies !m.dom().contains(w) by {}
                lemma_resolve_fuel_unbound(m[v], m, (fuel - 1) as nat);
            }
        },
        _ => {},
    }
}

proof fn lemma_finalize_solved(t: SpecType, m: Map<SpecVar, SpecType>, fuel: nat)
    requires
        forall|v: SpecVar, w: SpecVar| m.dom().contains(v) && m.dom().contains(w) ==> !(#[trigger] occurs(w, m[v])),
        fuel >= 1,
    ensures
        finalizes(t, m),
    decreases t,
{
    assert(finalize_fuel(t, m, 1) is Some) by {
        lemma_finalize_fuel_solved(t, m);
    }
}

proof fn lemma_finalize_fuel_solved(t: SpecType, m: Map<SpecVar, SpecType>)
    requires
        forall|v: SpecVar, w: SpecVar| m.dom().contains(v) && m.dom().contains(w) ==> !(#[trigger] occurs(w, m[v])),
    ensures
        finalize_fuel(t, m, 1) is Some,
    decreases t,
{
    match t {
        Type::FuncType(f) => {
            lemma_finalize_fuel_solved(*f.param_type, m);
            lemma_finalize_fuel_solved(*f.return_type, m);
        },
        Type::TypeVariable(v) => {
            if m.dom().contains(v) {
                assert forall|w: SpecVar| occurs(w, m[v]) implies !m.dom().contains(w) by {}
                lemma_finalize_unbound(m[v], m);
                lemma_finalize_fuel_unbound_any(m[v], m, 0);
            }
        },
        _ => {},
    }
}

/// `t` with each bound variable replaced, once, by what it is bound to.
pub open spec fn applied(t: SpecType, m: Map<SpecVar, SpecType>) -> SpecType
    decreases t,
{
    match t {
        Type::FuncType(f) => func(applied(*f.param_type, m), applied(*f.return_type, m)),
        Type::TypeVariable(w) => if m.dom().contains(w) { m[w] } else { t },
        _ => t,
    }
}

pub proof fn lemma_applied_unbound(t: SpecType, m: Map<SpecVar, SpecType>)
    requires
        unbound_in(t, m),
    ensures
        applied(t, m) == t,
    decreases t,
{
    if let Type::TypeVariable(w) = t {
        assert(occurs(w, t));
    }
    if let Type::FuncType(f) = t {
        assert forall|w: SpecVar| occurs(w, *f.param_type) implies !m.dom().contains(w) by {
            assert(occurs(w, t));
        }
        assert forall|w: SpecVar| occurs(w, *f.return_type) implies !m.dom().contains(w) by {
            assert(occurs(w, t));
        }
        lemma_applied_unbound(*f.param_type, m);
        lemma_applied_unbound(*f.return_type, m);
    }
}

/// Where `m` makes `v` and `s` equal, it makes `x` and `x` with `v := s` equal.
proof fn lemma_applied_substituted(x: SpecType, v: SpecVar, s: SpecType, m: Map<SpecVar, SpecType>)
    requires
        applied(Type::TypeVariable(v), m) == applied(s, m),
    ensures
        applied(substituted(x, v, s), m) == applied(x, m),
    decreases x,
{
    if let Type::FuncType(f) = x {
        lemma_applied_substituted(*f.param_type, v, s, m);
        lemma_applied_substituted(*f.return_type, v, s, m);
    }
}

/// Under bindings in solved form, resolving a type is applying them once.
pub proof fn lemma_resolve_is_applied(t: SpecType, m: Map<SpecVar, SpecType>)
    requires
        forall|v: SpecVar, w: SpecVar| m.dom().contains(v) && m.dom().contains(w) ==> !(#[trigger] occurs(w, m[v])),
    ensures
        resolve(t, m) == applied(t, m),
{
    lemma_resolve_fuel_solved(t, m, 1);
    let fuel = choose|fuel: nat| (#[trigger] resolve_fuel(t, m, fuel)) is Some;
    lemma_resolve_fuel_applied(t, m, fuel);
}

proof fn lemma_resolve_fuel_applied(t: SpecType, m: Map<SpecVar, SpecType>, fuel: nat)
    requires
        forall|v: SpecVar, w: SpecVar| m.dom().contains(v) && m.dom().contains(w) ==> !(#[trigger] occurs(w, m[v])),
    ensures
        resolve_fuel(t, m, fuel) is Some ==> resolve_fuel(t, m, fuel) == Some(applied(t, m)),
    decreases t,
{
    match t {
        Type::FuncType(f) => {
            lemma_resolve_fuel_applied(*f.param_type, m, fuel);
            lemma_resolve_fuel_applied(*f.return_type, m, fuel);
        },
        Type::TypeVariable(v) => {
            if m.dom().contains(v) && fuel >= 1 {
                assert forall|w: SpecVar| occurs(w, m[v]) implies !m.dom().contains(w) by {}
                lemma_resolve_fuel_unbound(m[v], m, (fuel - 1) as nat);
            }
        },
        _ => {},
    }
}

/// What a successful run of solving from `idx` guarantees of the bindings it
/// ends with: they make both sides of every remaining constraint equal, and
/// each variable bound on entry equal to the type it was bound to.
pub open spec fn solves_from(idx: int, st: UnifyState, mf: Map<SpecVar, SpecType>) -> bool {
    &&& forall|k: int| idx <= k < st.constraints.len()
        ==> applied(*st.constraints[k].left, mf) == #[trigger] applied(*st.constraints[k].right, mf)
    &&& forall|v: SpecVar| #[trigger] st.substitutions.dom().contains(v)
        ==> applied(Type::TypeVariable(v), mf) == applied(st.substitutions[v], mf)
}

pub proof fn lemma_unify_sound(idx: int, st: UnifyState)
    requires
        solved_form(st),
        0 <= idx,
    ensures
        unify_from(idx, st).0 is None ==> solves_from(idx, st, unify_from(idx, st).1.substitutions),
    decreases cvars(st.constraints.skip(idx)).len(), csize(st.constraints.skip(idx)),
{
    let mf = unify_from(idx, st).1.substitutions;
    if idx >= st.constraints.len() {
        assert forall|v: SpecVar| #[trigger] st.substitutions.dom().contains(v)
            implies applied(Type::TypeVariable(v), mf) == applied(st.substitutions[v], mf) by {
            assert forall|w: SpecVar| occurs(w, st.substitutions[v]) implies !st.substitutions.dom().contains(w) by {}
            lemma_applied_unbound(st.substitutions[v], st.substitutions);
        }
        return;
    }
    let cs = st.constraints;
    let l = *cs[idx].left;
    let r = *cs[idx].right;
    lemma_drop_shrinks(cs, idx);
    match (l, r) {
        (Type::IntType, Type::IntType) | (Type::BoolType, Type::BoolType) => {
            lemma_unify_sound(idx + 1, st);
        },
        (Type::TypeVariable(lv), _) => {
            if r == Type::<Seq<char>>::TypeVariable(lv) {
                lemma_unify_sound(idx + 1, st);
            } else if !occurs(lv, r) {
                lemma_bind_shrinks(cs, idx, lv, r);
                lemma_bind_solved_form(st, idx, lv, r);
                lemma_unify_sound(idx + 1, bind_state(lv, r, st));
                if unify_from(idx, st).0 is None {
                    lemma_bind_sound(idx, st, lv, r, mf);
                }
            }
        },
        (_, Type::TypeVariable(rv)) => {
            if !occurs(rv, l) {
                lemma_bind_shrinks(cs, idx, rv, l);
                lemma_bind_solved_form(st, idx, rv, l);
                lemma_unify_sound(idx + 1, bind_state(rv, l, st));
                if unify_from(idx, st).0 is None {
                    lemma_bind_sound(idx, st, rv, l, mf);
                }
            }
        },
        (Type::FuncType(lf), Type::FuncType(rf)) => {
            let ns = UnifyState { constraints: split_constraints(cs, idx, *lf, *rf), ..st };
            lemma_split_shrinks(cs, idx, *lf, *rf);
            lemma_split_solved_form(st, idx, *lf, *rf);
            lemma_unify_sound(idx, ns);
            assert(unify_from(idx, st) == unify_from(idx, ns));
            if unify_from(idx, st).0 is None {
                assert(applied(l, mf) == func(applied(*lf.param_type, mf), applied(*lf.return_type, mf)));
                assert(applied(r, mf) == func(applied(*rf.param_type, mf), applied(*rf.return_type, mf)));
                assert(ns.constraints[idx] == constraint(*lf.param_type, *rf.param_type));
                assert(ns.constraints[idx + 1] == constraint(*lf.return_type, *rf.return_type));
                assert(applied(*ns.constraints[idx].right, mf) == applied(*ns.constraints[idx].right, mf));
                assert(applied(*ns.constraints[idx + 1].right, mf) == applied(*ns.constraints[idx + 1].right, mf));
                assert forall|k: int| idx <= k < cs.len()
                    implies applied(*cs[k].left, mf) == #[trigger] applied(*cs[k].right, mf) by {
                    if k == idx {
                        assert(applied(*ns.constraints[idx].left, mf) == applied(*ns.constraints[idx].right, mf));
                        assert(applied(*ns.constraints[idx + 1].left, mf) == applied(*ns.constraints[idx + 1].right, mf));
                        assert(applied(*lf.param_type, mf) == applied(*rf.param_type, mf));
                        assert(applied(*lf.return_type, mf) == applied(*rf.return_type, mf));
                        assert(applied(l, mf) == applied(r, mf));
                    } else {
                        assert(ns.constraints[k + 1] == cs[k]);
                        assert(applied(*ns.constraints[k + 1].right, mf) == applied(*ns.constraints[k + 1].right, mf));
                    }
                }
            }
        },
        _ => {},
    }
}

/// A variable of a constraint is not bound, in solved form.
proof fn lemma_bound_not_in_constraints(st: UnifyState, idx: int, v: SpecVar)
    requires
        solved_form(st),
        0 <= idx < st.constraints.len(),
        occurs(v, *st.constraints[idx].left) || occurs(v, *st.constraints[idx].right),
    ensures
        !st.substitutions.dom().contains(v),
{
    if st.substitutions.dom().contains(v) {
        assert(!occurs(v, *st.constraints[idx].left) && !occurs(v, *st.constraints[idx].right));
    }
}

proof fn lemma_bind_sound(idx: int, st: UnifyState, v: SpecVar, t: SpecType, mf: Map<SpecVar, SpecType>)
    requires
        0 <= idx < st.constraints.len(),
        (*st.constraints[idx].left == Type::<Seq<char>>::TypeVariable(v) && *st.constraints[idx].right == t)
            || (*st.constraints[idx].right == Type::<Seq<char>>::TypeVariable(v) && *st.constraints[idx].left == t),
        solves_from(idx + 1, bind_state(v, t, st), mf),
        solved_form(st),
    ensures
        solves_from(idx, st, mf),
{
    let n = bind_state(v, t, st);
    let cs = st.constraints;
    assert(n.constraints.len() == cs.len());
    assert(occurs(v, Type::<Seq<char>>::TypeVariable(v)));
    lemma_bound_not_in_constraints(st, idx, v);
    assert(n.substitutions.dom().contains(v));
    assert(applied(Type::TypeVariable(v), mf) == applied(t, mf));
    assert forall|k: int| idx <= k < cs.len()
        implies applied(*cs[k].left, mf) == #[trigger] applied(*cs[k].right, mf) by {
        if k == idx {
            assert(applied(*cs[idx].left, mf) == applied(*cs[idx].right, mf));
        } else {
            assert(n.constraints[k] == constraint(substituted(*cs[k].left, v, t), substituted(*cs[k].right, v, t)));
            assert(applied(*n.constraints[k].left, mf) == applied(*n.constraints[k].right, mf));
            lemma_applied_substituted(*cs[k].left, v, t, mf);
            lemma_applied_substituted(*cs[k].right, v, t, mf);
            assert(applied(substituted(*cs[k].left, v, t), mf) == applied(substituted(*cs[k].right, v, t), mf));
        }
    }
    assert forall|u: SpecVar| #[trigger] st.substitutions.dom().contains(u)
        implies applied(Type::TypeVariable(u), mf) == applied(st.substitutions[u], mf) by {
        assert(n.substitutions.dom().contains(u));
        assert(n.substitutions[u] == substituted(st.substitutions[u], v, t));
        lemma_applied_substituted(st.substitutions[u], v, t, mf);
    }
}

/// Unification is sound: when it succeeds, the bindings it returns make the
/// two sides of every constraint it was given the same type.
pub proof fn lemma_unification_solves(cs: Seq<SpecConstraint>, k: int)
    requires
        unification_result(cs).0 is None,
        0 <= k < cs.len(),
    ensures
        resolve(*cs[k].left, unification_result(cs).1.substitutions)
            == resolve(*cs[k].right, unification_result(cs).1.substitutions),
{
    let st0 = UnifyState { constraints: cs, substitutions: Map::empty() };
    assert(solved_form(st0));
    lemma_unify_sound(0, st0);
    lemma_unify_solved_form(0, st0);
    let m = unification_result(cs).1.substitutions;
    assert(applied(*cs[k].left, m) == applied(*cs[k].right, m));
    lemma_resolve_is_applied(*cs[k].left, m);
    lemma_resolve_is_applied(*cs[k].right, m);
}

/// `theta` makes both sides of every constraint from `idx` on the same type,
/// and each variable bound in `st` the same type as what it is bound to.
pub open spec fn agrees_from(idx: int, st: UnifyState, theta: Map<SpecVar, SpecType>) -> bool {
    &&& forall|k: int| idx <= k < st.constraints.len()
        ==> applied(*st.constraints[k].left, theta) == #[trigger] applied(*st.constraints[k].right, theta)
    &&& forall|v: SpecVar| #[trigger] st.substitutions.dom().contains(v)
        ==> applied(Type::TypeVariable(v), theta) == applied(st.substitutions[v], theta)
}

/// A variable inside a function type is a proper part of it, under any substitution.
proof fn lemma_applied_proper_part(v: SpecVar, t: SpecType, theta: Map<SpecVar, SpecType>)
    requires
        occurs(v, t),
        t is FuncType,
    ensures
        tsize(applied(Type::TypeVariable(v), theta)) < tsize(applied(t, theta)),
    decreases t,
{
    if let Type::FuncType(f) = t {
        if occurs(v, *f.param_type) {
            if *f.param_type is FuncType {
                lemma_applied_proper_part(v, *f.param_type, theta);
            }
        } else {
            if *f.return_type is FuncType {
                lemma_applied_proper_part(v, *f.return_type, theta);
            }
        }
    }
}

proof fn lemma_unify_complete(idx: int, st: UnifyState, theta: Map<SpecVar, SpecType>)
    requires
        agrees_from(idx, st, theta),
        0 <= idx,
    ensures
        unify_from(idx, st).0 is None,
        forall|v: SpecVar| #[trigger] unify_from(idx, st).1.substitutions.dom().contains(v)
            ==> applied(Type::TypeVariable(v), theta) == applied(unify_from(idx, st).1.substitutions[v], theta),
    decreases cvars(st.constraints.skip(idx)).len(), csize(st.constraints.skip(idx)),
{
    if idx >= st.constraints.len() {
        return;
    }
    let cs = st.constraints;
    let l = *cs[idx].left;
    let r = *cs[idx].right;
    assert(applied(l, theta) == applied(r, theta));
    lemma_drop_shrinks(cs, idx);
    match (l, r) {
        (Type::IntType, Type::IntType) | (Type::BoolType, Type::BoolType) => {
            lemma_unify_complete(idx + 1, st, theta);
        },
        (Type::TypeVariable(lv), _) => {
            if r == Type::<Seq<char>>::TypeVariable(lv) {
                lemma_unify_complete(idx + 1, st, theta);
            } else {
                if occurs(lv, r) {
                    lemma_applied_proper_part(lv, r, theta);
                }
                lemma_bind_shrinks(cs, idx, lv, r);
                lemma_bind_agrees(idx, st, lv, r, theta);
                lemma_unify_complete(idx + 1, bind_state(lv, r, st), theta);
            }
        },
        (_, Type::TypeVariable(rv)) => {
            if occurs(rv, l) {
                lemma_applied_proper_part(rv, l, theta);
            }
            lemma_bind_shrinks(cs, idx, rv, l);
            lemma_bind_agrees(idx, st, rv, l, theta);
            lemma_unify_complete(idx + 1, bind_state(rv, l, st), theta);
        },
        (Type::FuncType(lf), Type::FuncType(rf)) => {
            let ns = UnifyState { constraints: split_constraints(cs, idx, *lf, *rf), ..st };
            lemma_split_shrinks(cs, idx, *lf, *rf);
            assert forall|k: int| idx <= k < ns.constraints.len()
                implies applied(*ns.constraints[k].left, theta) == #[trigger] applied(*ns.constraints[k].right, theta) by {
                if k > idx + 1 {
                    assert(ns.constraints[k] == cs[k - 1]);
                    assert(applied(*cs[k - 1].left, theta) == applied(*cs[k - 1].right, theta));
                }
            }
            lemma_unify_complete(idx, ns, theta);
        },
        _ => {},
    }
}

proof fn lemma_bind_agrees(idx: int, st: UnifyState, v: SpecVar, t: SpecType, theta: Map<SpecVar, SpecType>)
    requires
        agrees_from(idx, st, theta),
        0 <= idx < st.constraints.len(),
        (*st.constraints[idx].left == Type::<Seq<char>>::TypeVariable(v) && *st.constraints[idx].right == t)
            || (*st.constraints[idx].right == Type::<Seq<char>>::TypeVariable(v) && *st.constraints[idx].left == t),
    ensures
        agrees_from(idx + 1, bind_state(v, t, st), theta),
{
    let cs = st.constraints;
    let n = bind_state(v, t, st);
    assert(applied(*cs[idx].left, theta) == applied(*cs[idx].right, theta));
    assert(applied(Type::TypeVariable(v), theta) == applied(t, theta));
    assert forall|k: int| idx + 1 <= k < n.constraints.len()
        implies applied(*n.constraints[k].left, theta) == #[trigger] applied(*n.constraints[k].right, theta) by {
        assert(n.constraints[k] == constraint(substituted(*cs[k].left, v, t), substituted(*cs[k].right, v, t)));
        assert(applied(*cs[k].left, theta) == applied(*cs[k].right, theta));
        lemma_applied_substituted(*cs[k].left, v, t, theta);
        lemma_applied_substituted(*cs[k].right, v, t, theta);
    }
    assert forall|u: SpecVar| #[trigger] n.substitutions.dom().contains(u)
        implies applied(Type::TypeVariable(u), theta) == applied(n.substitutions[u], theta) by {
        if u != v {
            assert(st.substitutions.dom().contains(u));
            assert(n.substitutions[u] == substituted(st.substitutions[u], v, t));
            lemma_applied_substituted(st.substitutions[u], v, t, theta);
        }
    }
}

/// Where every bound variable means under `theta` what it is bound to means,
/// applying the bindings first changes nothing under `theta`.
proof fn lemma_applied_compose(x: SpecType, m: Map<SpecVar, SpecType>, theta: Map<SpecVar, SpecType>)
    requires
        forall|v: SpecVar| #[trigger] m.dom().contains(v)
            ==> applied(Type::TypeVariable(v), theta) == applied(m[v], theta),
    ensures
        applied(applied(x, m), theta) == applied(x, theta),
    decreases x,
{
    if let Type::FuncType(f) = x {
        lemma_applied_compose(*f.param_type, m, theta);
        lemma_applied_compose(*f.return_type, m, theta);
    }
}

/// Unification is complete and finds a most general unifier: whenever some
/// substitution `theta` makes both sides of every constraint the same type,
/// unification succeeds, and `theta` is an instance of the bindings it
/// returns (applying them first and then `theta` is the same as `theta`).
pub proof fn lemma_unification_most_general(cs: Seq<SpecConstraint>, theta: Map<SpecVar, SpecType>, x: SpecType)
    requires
        forall|k: int| 0 <= k < cs.len() ==> applied(*cs[k].left, theta) == #[trigger] applied(*cs[k].right, theta),
    ensures
        unification_result(cs).0 is None,
        applied(resolve(x, unification_result(cs).1.substitutions), theta) == applied(x, theta),
{
    let st0 = UnifyState { constraints: cs, substitutions: Map::empty() };
    lemma_unify_complete(0, st0, theta);
    lemma_unify_solved_form(0, st0);
    let m = unification_result(cs).1.substitutions;
    lemma_resolve_is_applied(x, m);
    lemma_applied_compose(x, m, theta);
}

/// `t` with each bound variable replaced, once, by what it is bound to.
pub(crate) fn apply_once(t: &Type, subs: &Substitution) -> (r: Type)
    ensures
        r@ == applied(t@, subs@),
    decreases t,
{
    match t {
        Type::FuncType(f) => {
            let p = apply_once(&f.param_type, subs);
            let q = apply_once(&f.return_type, subs);
            Type::FuncType(Box::new(FuncType { param_type: Box::new(p), return_type: Box::new(q) }))
        },
        Type::TypeVariable(v) => match subs.get(v) {
            Some(bound) => bound.duplicate(),
            None => Type::TypeVariable(v.duplicate()),
        },
        Type::IntType => Type::IntType,
        Type::BoolType => Type::BoolType,
    }
}

/// Solves the constraints in order (Robinson's unification with the occurs
/// check), rewriting them as variables get bound. Returns the bindings, or the
/// first pair that cannot be made equal; the constraints are left as they
/// stood when solving stopped.
pub fn unification(inferred_types: &mut Vec<TypeInference>) -> (r: Result<Substitution, TypeError>)
    ensures
        ({
            let (e, st) = unification_result(constraints_view(old(inferred_types)@));
            &&& constraints_view(final(inferred_types)@) == st.constraints
            &&& match r {
                Ok(subs) => e is None && subs@ == st.substitutions,
                Err(err) => e == Some(err@),
            }
        }),
{
    let ghost start = unify_state(inferred_types@, Map::empty());
    let mut substitutions = Substitution::new();
    let mut idx: usize = 0;
    while idx < inferred_types.len()
        invariant
            idx <= inferred_types@.len(),
            start.constraints == constraints_view(old(inferred_types)@),
            unification_result(start.constraints)
                == unify_from(idx as int, unify_state(inferred_types@, substitutions@)),
        decreases
            cvars(constraints_view(inferred_types@).skip(idx as int)).len(),
            csize(constraints_view(inferred_types@).skip(idx as int)),
    {
        let ghost st = unify_state(inferred_types@, substitutions@);
        let ghost cs = st.constraints;
        assert(cs[idx as int] == inferred_types@[idx as int]@);
        proof {
            lemma_drop_shrinks(cs, idx as int);
        }
        let left = inferred_types[idx].left.duplicate();
        let right = inferred_types[idx].right.duplicate();
        match (&left, &right) {
            (Type::IntType, Type::IntType) | (Type::BoolType, Type::BoolType) => {
                idx += 1;
            },
            (Type::TypeVariable(lv), _) => {
                let same = match &right {
                    Type::TypeVariable(rv) => lv.same_as(rv),
                    _ => false,
                };
                if same {
                    idx += 1;
                } else {
                    occurs_in(lv, &right)?;
                    proof {
                        lemma_bind_shrinks(cs, idx as int, lv@, right@);
                    }
                    substitute_inferred_type(lv, &right, inferred_types, &mut substitutions);
                    idx += 1;
                }
            },
            (_, Type::TypeVariable(rv)) => {
                occurs_in(rv, &left)?;
                proof {
                    lemma_bind_shrinks(cs, idx as int, rv@, left@);
                }
                substitute_inferred_type(rv, &left, inferred_types, &mut substitutions);
                idx += 1;
            },
            (Type::FuncType(lf), Type::FuncType(rf)) => {
                let ghost lfv = FuncType::<Seq<char>> {
                    param_type: Box::new(type_view(*lf.param_type)),
                    return_type: Box::new(type_view(*lf.return_type)),
                };
                let ghost rfv = FuncType::<Seq<char>> {
                    param_type: Box::new(type_view(*rf.param_type)),
                    return_type: Box::new(type_view(*rf.return_type)),
                };
                assert(*cs[idx as int].left == Type::<Seq<char>>::FuncType(Box::new(lfv)));
                assert(*cs[idx as int].right == Type::<Seq<char>>::FuncType(Box::new(rfv)));
                proof {
                    lemma_split_shrinks(cs, idx as int, lfv, rfv);
                }
                let params = TypeInference {
                    left: Box::new(lf.param_type.duplicate()),
                    right: Box::new(rf.param_type.duplicate()),
                };
                let results = TypeInference {
                    left: Box::new(lf.return_type.duplicate()),
                    right: Box::new(rf.return_type.duplicate()),
                };
                inferred_types.set(idx, params);
                inferred_types.insert(idx + 1, results);
                assert(constraints_view(inferred_types@) =~= split_constraints(cs, idx as int, lfv, rfv));
            },
            _ => {
                return Err(TypeError::UnifyFailed { left: left.duplicate(), right: right.duplicate() });
            },
        }
    }
    Ok(substitutions)
}

/// `original_type` with every occurrence of `sub_var` replaced by `sub_type`.
pub(crate) fn perform_substitution(original_type: Type, sub_var: &TypeVariable, sub_type: &Type) -> (r: Type)
    ensures
        r@ == substituted(original_type@, sub_var@, sub_type@),
    decreases original_type,
{
    match original_type {
        Type::FuncType(func_type) => {
            let FuncType { param_type, return_type } = *func_type;
            let new_param_type = perform_substitution(*param_type, sub_var, sub_type);
            let new_return_type = perform_substitution(*return_type, sub_var, sub_type);
            Type::FuncType(Box::new(FuncType {
                param_type: Box::new(new_param_type),
                return_type: Box::new(new_return_type),
            }))
        },
        Type::TypeVariable(type_variable) => {
            if sub_var.same_as(&type_variable) {
                sub_type.duplicate()
            } else {
                Type::TypeVariable(type_variable)
            }
        },
        other => other,
    }
}

/// Binds `sub_var` to `sub_type`, applying the binding to every constraint and
/// to every type bound before.
fn substitute_inferred_type(
    sub_var: &TypeVariable,
    sub_type: &Type,
    inferred_types: &mut Vec<TypeInference>,
    substitutions: &mut Substitution,
)
    ensures
        unify_state(final(inferred_types)@, final(substitutions)@)
            == bind_state(sub_var@, sub_type@, unify_state(old(inferred_types)@, old(substitutions)@)),
{
    substitutions.substitute(sub_var, sub_type);
    substitutions.insert(sub_var.duplicate(), sub_type.duplicate());
    let ghost old_cs = constraints_view(inferred_types@);
    let n = inferred_types.len();
    for i in 0..n
        invariant
            n == inferred_types@.len(),
            old_cs.len() == n,
            forall|k: int| 0 <= k < i ==> #[trigger] inferred_types@[k]@
                == constraint(substituted(*old_cs[k].left, sub_var@, sub_type@), substituted(*old_cs[k].right, sub_var@, sub_type@)),
            forall|k: int| i <= k < n ==> #[trigger] inferred_types@[k]@ == old_cs[k],
    {
        assert(inferred_types@[i as int]@ == old_cs[i as int]);
        let new_left = perform_substitution(inferred_types[i].left.duplicate(), sub_var, sub_type);
        let new_right = perform_substitution(inferred_types[i].right.duplicate(), sub_var, sub_type);
        let c = TypeInference { left: Box::new(new_left), right: Box::new(new_right) };
        inferred_types.set(i, c);
    }
    assert(constraints_view(inferred_types@) =~= substituted_constraints(old_cs, sub_var@, sub_type@));
}

} // verus!
