use vstd::prelude::*;
use crate::type_inferencer::types::{Type, FuncType, TypeVariable, FinalType, FinalFuncType, TypeError, SpecType, SpecVar, SpecFinalType, occurs};
use crate::type_inferencer::bindings::{bindings_map, lemma_bindings_map_last, lemma_bindings_map_absent, lemma_bindings_map_values};
use crate::type_inferencer::unification::{substituted, perform_substitution};

verus! {

/// A finite map from type variables to types; a later binding of a variable
/// replaces an earlier one.
#[derive(Debug)]
pub struct Substitution {
    pairs: Vec<(TypeVariable, Type)>,
}

pub open spec fn bindings_view(s: Seq<(TypeVariable, Type)>) -> Seq<(SpecVar, SpecType)> {
    s.map_values(|p: (TypeVariable, Type)| (p.0@, p.1@))
}

impl View for Substitution {
    type V = Map<SpecVar, SpecType>;

    closed spec fn view(&self) -> Map<SpecVar, SpecType> {
        bindings_map(bindings_view(self.pairs@))
    }
}

impl Substitution {
    pub fn new() -> (r: Self)
        ensures
            r@ == Map::<SpecVar, SpecType>::empty(),
    {
        let r = Substitution { pairs: Vec::new() };
        assert(bindings_view(r.pairs@) =~= Seq::<(SpecVar, SpecType)>::empty());
        r
    }

    /// Binds `v` to `t`, replacing any earlier binding of `v`.
    pub fn insert(&mut self, v: TypeVariable, t: Type)
        ensures
            final(self)@ == old(self)@.insert(v@, t@),
    {
        let ghost before = bindings_view(self.pairs@);
        self.pairs.push((v, t));
        assert(bindings_view(self.pairs@).drop_last() =~= before);
    }

    /// A copy of the substitution.
    pub fn duplicate(&self) -> (r: Self)
        ensures
            r@ == self@,
    {
        let mut pairs: Vec<(TypeVariable, Type)> = Vec::new();
        let n = self.pairs.len();
        for i in 0..n
            invariant
                n == self.pairs@.len(),
                pairs@.len() == i,
                forall|k: int| 0 <= k < i ==> (#[trigger] pairs@[k]).0@ == self.pairs@[k].0@
                    && pairs@[k].1@ == self.pairs@[k].1@,
        {
            pairs.push((self.pairs[i].0.duplicate(), self.pairs[i].1.duplicate()));
        }
        assert(bindings_view(pairs@) =~= bindings_view(self.pairs@));
        Substitution { pairs }
    }

    /// Applies `v := s` to every bound type.
    pub fn substitute(&mut self, v: &TypeVariable, s: &Type)
        ensures
            final(self)@ == old(self)@.map_values(|t: SpecType| substituted(t, v@, s@)),
    {
        let ghost old_b = bindings_view(self.pairs@);
        let ghost f = |t: SpecType| substituted(t, v@, s@);
        let n = self.pairs.len();
        for i in 0..n
            invariant
                n == self.pairs@.len(),
                old_b.len() == n,
                forall|k: int| 0 <= k < i ==> (#[trigger] self.pairs@[k]).0@ == old_b[k].0
                    && self.pairs@[k].1@ == substituted(old_b[k].1, v@, s@),
                forall|k: int| i <= k < n ==> (#[trigger] self.pairs@[k]).0@ == old_b[k].0
                    && self.pairs@[k].1@ == old_b[k].1,
        {
            let key = self.pairs[i].0.duplicate();
            let t = perform_substitution(self.pairs[i].1.duplicate(), v, s);
            self.pairs.set(i, (key, t));
        }
        proof {
            lemma_bindings_map_values(old_b, f);
            assert(bindings_view(self.pairs@) =~= old_b.map_values(|p: (SpecVar, SpecType)| (p.0, f(p.1))));
        }
    }

    /// The type bound to `v`, if any.
    pub fn get(&self, v: &TypeVariable) -> (r: Option<&Type>)
        ensures
            r matches Some(t) ==> self@.dom().contains(v@) && self@[v@] == t@,
            r is None ==> !self@.dom().contains(v@),
    {
        let ghost s = bindings_view(self.pairs@);
        let mut i = self.pairs.len();
        while i > 0
            invariant
                i <= self.pairs@.len(),
                s == bindings_view(self.pairs@),
                forall|k: int| i <= k < s.len() ==> s[k].0 != v@,
            decreases i,
        {
            i = i - 1;
            if self.pairs[i].0.same_as(v) {
                proof {
                    lemma_bindings_map_last(s, v@, i as int);
                }
                return Some(&self.pairs[i].1);
            }
        }
        proof {
            lemma_bindings_map_absent(s, v@);
        }
        None
    }
}

/// `t` with every bound variable replaced, repeatedly, by what it is bound to;
/// `None` when more than `fuel` replacements are needed along some path.
pub open spec fn resolve_fuel(t: SpecType, m: Map<SpecVar, SpecType>, fuel: nat) -> Option<SpecType>
    decreases fuel, t,
{
    match t {
        Type::IntType => Some(Type::IntType),
        Type::BoolType => Some(Type::BoolType),
        Type::FuncType(f) => {
            match (resolve_fuel(*f.param_type, m, fuel), resolve_fuel(*f.return_type, m, fuel)) {
                (Some(p), Some(r)) => Some(
                    Type::FuncType(Box::new(FuncType { param_type: Box::new(p), return_type: Box::new(r) })),
                ),
                _ => None,
            }
        },
        Type::TypeVariable(v) => {
            if m.dom().contains(v) {
                if fuel == 0 {
                    None
                } else {
                    resolve_fuel(m[v], m, (fuel - 1) as nat)
                }
            } else {
                Some(Type::TypeVariable(v))
            }
        },
    }
}

/// Replacing bound variables in `t` comes to an end: the bindings that `t`
/// reaches do not form a cycle.
pub open spec fn resolves(t: SpecType, m: Map<SpecVar, SpecType>) -> bool {
    exists|fuel: nat| (#[trigger] resolve_fuel(t, m, fuel)) is Some
}

/// `t` with every bound variable replaced, repeatedly, until none is left.
pub open spec fn resolve(t: SpecType, m: Map<SpecVar, SpecType>) -> SpecType {
    resolve_fuel(t, m, choose|fuel: nat| (#[trigger] resolve_fuel(t, m, fuel)) is Some).unwrap()
}

/// As `resolve_fuel`, but producing a final type in which every unbound
/// variable has become `Polymorphic`.
pub open spec fn finalize_fuel(t: SpecType, m: Map<SpecVar, SpecType>, fuel: nat) -> Option<SpecFinalType>
    decreases fuel, t,
{
    match t {
        Type::IntType => Some(FinalType::IntType),
        Type::BoolType => Some(FinalType::BoolType),
        Type::FuncType(f) => {
            match (finalize_fuel(*f.param_type, m, fuel), finalize_fuel(*f.return_type, m, fuel)) {
                (Some(p), Some(r)) => Some(
                    FinalType::FuncType(Box::new(FinalFuncType { param_type: Box::new(p), return_type: Box::new(r) })),
                ),
                _ => None,
            }
        },
        Type::TypeVariable(v) => {
            if m.dom().contains(v) {
                if fuel == 0 {
                    None
                } else {
                    finalize_fuel(m[v], m, (fuel - 1) as nat)
                }
            } else {
                Some(FinalType::Polymorphic(v.name))
            }
        },
    }
}

pub open spec fn finalizes(t: SpecType, m: Map<SpecVar, SpecType>) -> bool {
    exists|fuel: nat| (#[trigger] finalize_fuel(t, m, fuel)) is Some
}

pub open spec fn finalize(t: SpecType, m: Map<SpecVar, SpecType>) -> SpecFinalType {
    finalize_fuel(t, m, choose|fuel: nat| (#[trigger] finalize_fuel(t, m, fuel)) is Some).unwrap()
}

/// Whether `Polymorphic(name)` occurs in a final type.
pub open spec fn polymorphic_in(t: SpecFinalType, name: Seq<char>) -> bool
    decreases t,
{
    match t {
        FinalType::Polymorphic(n) => n == name,
        FinalType::FuncType(f) => polymorphic_in(*f.param_type, name) || polymorphic_in(*f.return_type, name),
        _ => false,
    }
}

/// The final form of a type in which no variable is bound: each variable
/// becomes `Polymorphic`, the rest is kept.
pub open spec fn as_final(t: SpecType) -> SpecFinalType
    decreases t,
{
    match t {
        Type::IntType => FinalType::IntType,
        Type::BoolType => FinalType::BoolType,
        Type::FuncType(f) => FinalType::FuncType(Box::new(FinalFuncType {
            param_type: Box::new(as_final(*f.param_type)),
            return_type: Box::new(as_final(*f.return_type)),
        })),
        Type::TypeVariable(v) => FinalType::Polymorphic(v.name),
    }
}

/// No variable of `t` is bound in `m`.
pub open spec fn unbound_in(t: SpecType, m: Map<SpecVar, SpecType>) -> bool {
    forall|v: SpecVar| occurs(v, t) ==> !m.dom().contains(v)
}

proof fn lemma_finalize_fuel_polymorphic(t: SpecType, m: Map<SpecVar, SpecType>, fuel: nat, name: Seq<char>)
    requires
        finalize_fuel(t, m, fuel) is Some,
        polymorphic_in(finalize_fuel(t, m, fuel).unwrap(), name),
    ensures
        !m.dom().contains(TypeVariable { name }),
    decreases fuel, t,
{
    match t {
        Type::FuncType(f) => {
            if polymorphic_in(finalize_fuel(*f.param_type, m, fuel).unwrap(), name) {
                lemma_finalize_fuel_polymorphic(*f.param_type, m, fuel, name);
            } else {
                lemma_finalize_fuel_polymorphic(*f.return_type, m, fuel, name);
            }
        },
        Type::TypeVariable(v) => {
            if m.dom().contains(v) {
                lemma_finalize_fuel_polymorphic(m[v], m, (fuel - 1) as nat, name);
            }
        },
        _ => {},
    }
}

/// A `Polymorphic` name in a final type is that of a variable left unbound:
/// only variables that the bindings do not constrain become polymorphic.
pub proof fn lemma_polymorphic_only_unbound(t: SpecType, m: Map<SpecVar, SpecType>, name: Seq<char>)
    requires
        finalizes(t, m),
        polymorphic_in(finalize(t, m), name),
    ensures
        !m.dom().contains(TypeVariable { name }),
{
    let fuel = choose|fuel: nat| (#[trigger] finalize_fuel(t, m, fuel)) is Some;
    lemma_finalize_fuel_polymorphic(t, m, fuel, name);
}

pub proof fn lemma_finalize_fuel_unbound_any(t: SpecType, m: Map<SpecVar, SpecType>, fuel: nat)
    requires
        unbound_in(t, m),
    ensures
        finalize_fuel(t, m, fuel) == Some(as_final(t)),
    decreases t,
{
    match t {
        Type::FuncType(f) => {
            assert forall|v: SpecVar| occurs(v, *f.param_type) implies !m.dom().contains(v) by {
                assert(occurs(v, t));
            }
            assert forall|v: SpecVar| occurs(v, *f.return_type) implies !m.dom().contains(v) by {
                assert(occurs(v, t));
            }
            lemma_finalize_fuel_unbound_any(*f.param_type, m, fuel);
            lemma_finalize_fuel_unbound_any(*f.return_type, m, fuel);
        },
        Type::TypeVariable(v) => {
            assert(occurs(v, t));
        },
        _ => {},
    }
}

/// A type none of whose variables is bound keeps its form: `Int`, `Bool` and
/// function types stay, and each variable becomes `Polymorphic`.
pub proof fn lemma_finalize_unbound(t: SpecType, m: Map<SpecVar, SpecType>)
    requires
        unbound_in(t, m),
    ensures
        finalizes(t, m),
        finalize(t, m) == as_final(t),
{
    lemma_finalize_fuel_unbound_any(t, m, 0);
    let fuel = choose|fuel: nat| (#[trigger] finalize_fuel(t, m, fuel)) is Some;
    lemma_finalize_fuel_unbound_any(t, m, fuel);
}

/// Resolving changes nothing in a type none of whose variables is bound.
pub proof fn lemma_resolve_fuel_unbound(t: SpecType, m: Map<SpecVar, SpecType>, fuel: nat)
    requires
        unbound_in(t, m),
    ensures
        resolve_fuel(t, m, fuel) == Some(t),
    decreases t,
{
    match t {
        Type::FuncType(f) => {
            assert forall|v: SpecVar| occurs(v, *f.param_type) implies !m.dom().contains(v) by {
                assert(occurs(v, t));
            }
            assert forall|v: SpecVar| occurs(v, *f.return_type) implies !m.dom().contains(v) by {
                assert(occurs(v, t));
            }
            lemma_resolve_fuel_unbound(*f.param_type, m, fuel);
            lemma_resolve_fuel_unbound(*f.return_type, m, fuel);
        },
        Type::TypeVariable(v) => {
            assert(occurs(v, t));
        },
        _ => {},
    }
}

/// What resolution produces does not depend on the fuel, once it is enough.
proof fn lemma_resolve_fuel_agree(t: SpecType, m: Map<SpecVar, SpecType>, f: nat, g: nat)
    requires
        resolve_fuel(t, m, f) is Some,
        resolve_fuel(t, m, g) is Some,
    ensures
        resolve_fuel(t, m, f) == resolve_fuel(t, m, g),
    decreases f, t,
{
    match t {
        Type::FuncType(fu) => {
            lemma_resolve_fuel_agree(*fu.param_type, m, f, g);
            lemma_resolve_fuel_agree(*fu.return_type, m, f, g);
        },
        Type::TypeVariable(v) => {
            if m.dom().contains(v) {
                lemma_resolve_fuel_agree(m[v], m, (f - 1) as nat, (g - 1) as nat);
            }
        },
        _ => {},
    }
}

/// Resolution leaves no bound variable.
proof fn lemma_resolve_fuel_leaves_unbound(t: SpecType, m: Map<SpecVar, SpecType>, fuel: nat)
    requires
        resolve_fuel(t, m, fuel) is Some,
    ensures
        unbound_in(resolve_fuel(t, m, fuel).unwrap(), m),
    decreases fuel, t,
{
    match t {
        Type::FuncType(f) => {
            lemma_resolve_fuel_leaves_unbound(*f.param_type, m, fuel);
            lemma_resolve_fuel_leaves_unbound(*f.return_type, m, fuel);
            let p = resolve_fuel(*f.param_type, m, fuel).unwrap();
            let q = resolve_fuel(*f.return_type, m, fuel).unwrap();
            assert forall|w: SpecVar| occurs(w, resolve_fuel(t, m, fuel).unwrap()) implies !m.dom().contains(w) by {
                assert(occurs(w, p) || occurs(w, q));
            }
        },
        Type::TypeVariable(v) => {
            if m.dom().contains(v) {
                lemma_resolve_fuel_leaves_unbound(m[v], m, (fuel - 1) as nat);
            }
        },
        _ => {},
    }
}

/// Finalising is resolving and then turning each variable left into
/// `Polymorphic`, fuel for fuel.
proof fn lemma_finalize_fuel_is_resolve(t: SpecType, m: Map<SpecVar, SpecType>, fuel: nat)
    ensures
        (finalize_fuel(t, m, fuel) is Some) == (resolve_fuel(t, m, fuel) is Some),
        resolve_fuel(t, m, fuel) is Some ==> finalize_fuel(t, m, fuel) == Some(as_final(resolve_fuel(t, m, fuel).unwrap())),
    decreases fuel, t,
{
    match t {
        Type::FuncType(f) => {
            lemma_finalize_fuel_is_resolve(*f.param_type, m, fuel);
            lemma_finalize_fuel_is_resolve(*f.return_type, m, fuel);
        },
        Type::TypeVariable(v) => {
            if m.dom().contains(v) && fuel > 0 {
                lemma_finalize_fuel_is_resolve(m[v], m, (fuel - 1) as nat);
            }
        },
        _ => {},
    }
}

/// Resolution removes every bound variable, and resolving again changes
/// nothing.
pub proof fn lemma_resolve_idempotent(t: SpecType, m: Map<SpecVar, SpecType>)
    requires
        resolves(t, m),
    ensures
        unbound_in(resolve(t, m), m),
        resolves(resolve(t, m), m),
        resolve(resolve(t, m), m) == resolve(t, m),
{
    let fuel = choose|fuel: nat| (#[trigger] resolve_fuel(t, m, fuel)) is Some;
    lemma_resolve_fuel_leaves_unbound(t, m, fuel);
    let r = resolve(t, m);
    lemma_resolve_fuel_unbound(r, m, 0);
    let g = choose|fuel: nat| (#[trigger] resolve_fuel(r, m, fuel)) is Some;
    lemma_resolve_fuel_unbound(r, m, g);
}

/// The final form of a type is its resolution with each variable left turned
/// into `Polymorphic`.
pub proof fn lemma_finalize_is_resolve(t: SpecType, m: Map<SpecVar, SpecType>)
    requires
        resolves(t, m),
    ensures
        finalizes(t, m),
        finalize(t, m) == as_final(resolve(t, m)),
{
    let f = choose|fuel: nat| (#[trigger] resolve_fuel(t, m, fuel)) is Some;
    lemma_finalize_fuel_is_resolve(t, m, f);
    let g = choose|fuel: nat| (#[trigger] finalize_fuel(t, m, fuel)) is Some;
    lemma_finalize_fuel_is_resolve(t, m, g);
    lemma_resolve_fuel_agree(t, m, f, g);
}

fn finalize_with_fuel(t: &Type, subs: &Substitution, Ghost(fuel): Ghost<nat>) -> (r: FinalType)
    requires
        finalize_fuel(t@, subs@, fuel) is Some,
    ensures
        r@ == finalize_fuel(t@, subs@, fuel).unwrap(),
    decreases fuel, t,
{
    match t {
        Type::IntType => FinalType::IntType,
        Type::BoolType => FinalType::BoolType,
        Type::FuncType(f) => {
            let p = finalize_with_fuel(&f.param_type, subs, Ghost(fuel));
            let r = finalize_with_fuel(&f.return_type, subs, Ghost(fuel));
            FinalType::FuncType(Box::new(FinalFuncType { param_type: Box::new(p), return_type: Box::new(r) }))
        },
        Type::TypeVariable(v) => {
            match subs.get(v) {
                Some(bound) => finalize_with_fuel(bound, subs, Ghost((fuel - 1) as nat)),
                None => FinalType::Polymorphic(v.name.clone()),
            }
        },
    }
}

/// The final form of `return_type` under `substitutions`: bound variables are
/// replaced until none is left, the others become `Polymorphic`.
pub fn apply_substitutions(return_type: Type, substitutions: Substitution) -> (r: Result<FinalType, TypeError>)
    requires
        finalizes(return_type@, substitutions@),
    ensures
        r matches Ok(t) && t@ == finalize(return_type@, substitutions@),
{
    let ghost fuel = choose|fuel: nat| (#[trigger] finalize_fuel(return_type@, substitutions@, fuel)) is Some;
    Ok(finalize_with_fuel(&return_type, &substitutions, Ghost(fuel)))
}

} // verus!
