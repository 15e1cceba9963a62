use vstd::prelude::*;
use crate::type_inferencer::types::{Type, TypeVariable, TypeScheme, SchemeView, SpecType, SpecVar, occurs};
use crate::type_inferencer::substitution::Substitution;
use crate::type_inferencer::bindings::{
    bindings_map, last_binding, lemma_bindings_map_last, lemma_bindings_map_absent, lemma_bindings_map_dom,
};

verus! {

/// The typing environment: the type scheme of each name in scope. Binding a
/// name again replaces its earlier scheme.
#[derive(Debug)]
pub struct TypeEnv {
    entries: Vec<(String, TypeScheme)>,
}

pub type SpecEnv = Map<Seq<char>, SchemeView>;

pub open spec fn entries_view(s: Seq<(String, TypeScheme)>) -> Seq<(Seq<char>, SchemeView)> {
    s.map_values(|e: (String, TypeScheme)| (e.0@, e.1@))
}

impl View for TypeEnv {
    type V = SpecEnv;

    closed spec fn view(&self) -> SpecEnv {
        bindings_map(entries_view(self.entries@))
    }
}

pub open spec fn vars_view(vs: Seq<TypeVariable>) -> Seq<SpecVar> {
    vs.map_values(|v: TypeVariable| v@)
}

/// `acc` extended by the variables of `t` that it lacks, in order of first
/// occurrence (parameter before result).
pub open spec fn collect_vars(t: SpecType, acc: Seq<SpecVar>) -> Seq<SpecVar>
    decreases t,
{
    match t {
        Type::TypeVariable(v) => if acc.contains(v) { acc } else { acc.push(v) },
        Type::FuncType(f) => collect_vars(*f.return_type, collect_vars(*f.param_type, acc)),
        _ => acc,
    }
}

/// `v` is free in the scheme: it occurs in the body and is not quantified.
pub open spec fn free_in_scheme(s: SchemeView, v: SpecVar) -> bool {
    occurs(v, s.body_type) && !s.quantified_vars.contains(v)
}

/// `v` is free in some scheme of the environment.
pub open spec fn free_in_env(env: SpecEnv, v: SpecVar) -> bool {
    exists|k: Seq<char>| env.dom().contains(k) && #[trigger] free_in_scheme(env[k], v)
}

/// The variables of `t`, in order of first occurrence, without those in `bound`.
pub open spec fn free_vars(t: SpecType, bound: Seq<SpecVar>) -> Seq<SpecVar> {
    collect_vars(t, Seq::empty()).filter(|v: SpecVar| !bound.contains(v))
}

/// `t` generalised over every variable of it that is not free in `env`.
pub open spec fn generalized(t: SpecType, env: SpecEnv) -> SchemeView {
    SchemeView {
        quantified_vars: collect_vars(t, Seq::empty()).filter(|v: SpecVar| !free_in_env(env, v)),
        body_type: t,
    }
}

/// What `collect_vars` holds: the accumulator and the variables of the type.
pub proof fn lemma_collect_vars_contains(t: SpecType, acc: Seq<SpecVar>, v: SpecVar)
    ensures
        collect_vars(t, acc).contains(v) <==> (acc.contains(v) || occurs(v, t)),
    decreases t,
{
    match t {
        Type::TypeVariable(w) => {
            if !acc.contains(w) {
                assert(acc.push(w).contains(v) <==> (acc.contains(v) || w == v)) by {
                    if acc.push(w).contains(v) {
                        let i = choose|i: int| 0 <= i < acc.push(w).len() && acc.push(w)[i] == v;
                        if i < acc.len() {
                            assert(acc[i] == v);
                        }
                    }
                    if acc.contains(v) {
                        let i = choose|i: int| 0 <= i < acc.len() && acc[i] == v;
                        assert(acc.push(w)[i] == v);
                    }
                    if w == v {
                        assert(acc.push(w)[acc.len() as int] == v);
                    }
                }
            }
        },
        Type::FuncType(f) => {
            lemma_collect_vars_contains(*f.param_type, acc, v);
            lemma_collect_vars_contains(*f.return_type, collect_vars(*f.param_type, acc), v);
        },
        _ => {},
    }
}

/// Keeping the elements that satisfy `p` of the first `i + 1` elements.
proof fn lemma_filter_step(s: Seq<SpecVar>, p: spec_fn(SpecVar) -> bool, i: int)
    requires
        0 <= i < s.len(),
    ensures
        s.take(i + 1).filter(p) == if p(s[i]) { s.take(i).filter(p).push(s[i]) } else { s.take(i).filter(p) },
{
    reveal_with_fuel(Seq::<_>::filter, 1);
    assert(s.take(i + 1).drop_last() =~= s.take(i));
}

/// What a filtered sequence contains.
pub proof fn lemma_filter_contains_iff(s: Seq<SpecVar>, p: spec_fn(SpecVar) -> bool, x: SpecVar)
    ensures
        s.filter(p).contains(x) <==> (s.contains(x) && p(x)),
    decreases s.len(),
{
    reveal_with_fuel(Seq::<_>::filter, 1);
    if s.len() > 0 {
        lemma_filter_contains_iff(s.drop_last(), p, x);
        let f = s.drop_last().filter(p);
        if s.contains(x) {
            let i = choose|i: int| 0 <= i < s.len() && s[i] == x;
            if i < s.len() - 1 {
                assert(s.drop_last()[i] == x);
            }
        }
        if s.drop_last().contains(x) {
            let i = choose|i: int| 0 <= i < s.drop_last().len() && s.drop_last()[i] == x;
            assert(s[i] == x);
        }
        if p(s.last()) {
            if f.push(s.last()).contains(x) {
                let i = choose|i: int| 0 <= i < f.push(s.last()).len() && f.push(s.last())[i] == x;
                if i < f.len() {
                    assert(f[i] == x);
                }
            }
            if f.contains(x) {
                let i = choose|i: int| 0 <= i < f.len() && f[i] == x;
                assert(f.push(s.last())[i] == x);
            }
            assert(f.push(s.last())[f.len() as int] == s.last());
        }
    }
}

impl TypeEnv {
    pub fn new() -> (r: Self)
        ensures
            r@ == SpecEnv::empty(),
    {
        let r = TypeEnv { entries: Vec::new() };
        assert(entries_view(r.entries@) =~= Seq::<(Seq<char>, SchemeView)>::empty());
        r
    }

    /// Binds `name` to `scheme`, replacing any earlier binding of `name`.
    pub fn insert(&mut self, name: String, scheme: TypeScheme)
        ensures
            final(self)@ == old(self)@.insert(name@, scheme@),
    {
        let ghost before = entries_view(self.entries@);
        self.entries.push((name, scheme));
        assert(entries_view(self.entries@).drop_last() =~= before);
    }

    /// The scheme bound to `name`, if any.
    pub fn get(&self, name: &String) -> (r: Option<&TypeScheme>)
        ensures
            r matches Some(s) ==> self@.dom().contains(name@) && self@[name@] == s@,
            r is None ==> !self@.dom().contains(name@),
    {
        let ghost s = entries_view(self.entries@);
        let mut i = self.entries.len();
        while i > 0
            invariant
                i <= self.entries@.len(),
                s == entries_view(self.entries@),
                forall|k: int| i <= k < s.len() ==> s[k].0 != name@,
            decreases i,
        {
            i = i - 1;
            if self.entries[i].0 == *name {
                proof {
                    lemma_bindings_map_last(s, name@, i as int);
                }
                return Some(&self.entries[i].1);
            }
        }
        proof {
            lemma_bindings_map_absent(s, name@);
        }
        None
    }

    /// A copy of the environment.
    pub fn duplicate(&self) -> (r: Self)
        ensures
            r@ == self@,
    {
        let mut entries: Vec<(String, TypeScheme)> = Vec::new();
        let n = self.entries.len();
        for i in 0..n
            invariant
                n == self.entries@.len(),
                entries_view(entries@) == entries_view(self.entries@).take(i as int),
        {
            let name = self.entries[i].0.clone();
            let scheme = self.entries[i].1.duplicate();
            let ghost before = entries_view(entries@);
            entries.push((name, scheme));
            assert(entries_view(entries@) =~= before.push(entries_view(self.entries@)[i as int]));
            assert(entries_view(self.entries@).take(i + 1) =~= entries_view(self.entries@).take(i as int).push(entries_view(self.entries@)[i as int]));
        }
        assert(entries_view(entries@) =~= entries_view(self.entries@));
        TypeEnv { entries }
    }

    /// Whether a later entry binds the same name as entry `i`.
    fn shadowed(&self, i: usize) -> (r: bool)
        requires
            i < self.entries@.len(),
        ensures
            r == exists|j: int| i < j < self.entries@.len()
                && #[trigger] entries_view(self.entries@)[j].0 == entries_view(self.entries@)[i as int].0,
    {
        let n = self.entries.len();
        let mut j = i + 1;
        while j < n
            invariant
                n == self.entries@.len(),
                i < j <= n,
                forall|k: int| i < k < j ==> #[trigger] entries_view(self.entries@)[k].0 != entries_view(self.entries@)[i as int].0,
            decreases n - j,
        {
            if self.entries[j].0 == self.entries[i].0 {
                assert(entries_view(self.entries@)[j as int].0 == entries_view(self.entries@)[i as int].0);
                return true;
            }
            j += 1;
        }
        false
    }
}

/// Whether `v` is among `vs`.
fn contains_var(vs: &Vec<TypeVariable>, v: &TypeVariable) -> (r: bool)
    ensures
        r == vars_view(vs@).contains(v@),
{
    let n = vs.len();
    for i in 0..n
        invariant
            n == vs@.len(),
            forall|k: int| 0 <= k < i ==> #[trigger] vars_view(vs@)[k] != v@,
    {
        if vs[i].same_as(v) {
            assert(vars_view(vs@)[i as int] == v@);
            return true;
        }
    }
    false
}

/// Adds to `acc` the variables of `t` that it lacks, in order of first occurrence.
fn collect_type_vars(t: &Type, acc: &mut Vec<TypeVariable>)
    ensures
        vars_view(final(acc)@) == collect_vars(t@, vars_view(old(acc)@)),
    decreases t,
{
    match t {
        Type::TypeVariable(v) => {
            if !contains_var(acc, v) {
                let ghost before = vars_view(acc@);
                acc.push(v.duplicate());
                assert(vars_view(acc@) =~= before.push(v@));
            }
        },
        Type::FuncType(f) => {
            collect_type_vars(&f.param_type, acc);
            collect_type_vars(&f.return_type, acc);
        },
        _ => {},
    }
}

/// The variables of `body_type` that are not among `quantified_vars`, in
/// order of first occurrence.
pub fn free_type_vars(body_type: &Type, quantified_vars: &Vec<TypeVariable>) -> (r: Vec<TypeVariable>)
    ensures
        vars_view(r@) == free_vars(body_type@, vars_view(quantified_vars@)),
{
    let mut all: Vec<TypeVariable> = Vec::new();
    assert(vars_view(all@) =~= Seq::<SpecVar>::empty());
    collect_type_vars(body_type, &mut all);
    let ghost s = vars_view(all@);
    let ghost p = |v: SpecVar| !vars_view(quantified_vars@).contains(v);
    let mut r: Vec<TypeVariable> = Vec::new();
    let n = all.len();
    for i in 0..n
        invariant
            n == all@.len(),
            s == vars_view(all@),
            p == (|v: SpecVar| !vars_view(quantified_vars@).contains(v)),
            vars_view(r@) == s.take(i as int).filter(p),
    {
        proof {
            lemma_filter_step(s, p, i as int);
        }
        if !contains_var(quantified_vars, &all[i]) {
            let ghost before = vars_view(r@);
            r.push(all[i].duplicate());
            assert(vars_view(r@) =~= before.push(s[i as int]));
        }
    }
    assert(s.take(n as int) =~= s);
    r
}

/// `v` is free in the scheme of an entry before position `n` that no later entry shadows.
spec fn free_in_entries(s: Seq<(Seq<char>, SchemeView)>, n: int, v: SpecVar) -> bool {
    exists|k: int| 0 <= k < n && #[trigger] last_binding(s, s[k].0, k) && free_in_scheme(s[k].1, v)
}

/// The variables free in some scheme of the environment.
pub fn free_type_vars_in_env(env: &TypeEnv) -> (r: Vec<TypeVariable>)
    ensures
        forall|v: SpecVar| vars_view(r@).contains(v) <==> free_in_env(env@, v),
{
    let ghost s = entries_view(env.entries@);
    let mut r: Vec<TypeVariable> = Vec::new();
    let n = env.entries.len();
    let mut i: usize = 0;
    while i < n
        invariant
            i <= n,
            n == env.entries@.len(),
            s == entries_view(env.entries@),
            forall|v: SpecVar| vars_view(r@).contains(v) <==> #[trigger] free_in_entries(s, i as int, v),
        decreases n - i,
    {
        let ghost before = vars_view(r@);
        if !env.shadowed(i) {
            assert(last_binding(s, s[i as int].0, i as int));
            let vs = free_type_vars(&env.entries[i].1.body_type, &env.entries[i].1.quantified_vars);
            let ghost fv = vars_view(vs@);
            proof {
                assert forall|v: SpecVar| fv.contains(v) <==> free_in_scheme(s[i as int].1, v) by {
                    lemma_collect_vars_contains(s[i as int].1.body_type, Seq::empty(), v);
                    let p = |w: SpecVar| !s[i as int].1.quantified_vars.contains(w);
                    let c = collect_vars(s[i as int].1.body_type, Seq::empty());
                    assert(fv == c.filter(p));
                    lemma_filter_contains_iff(c, p, v);
                }
            }
            let m = vs.len();
            for j in 0..m
                invariant
                    m == vs@.len(),
                    fv == vars_view(vs@),
                    vars_view(r@) == before + fv.take(j as int),
            {
                let ghost old_r = vars_view(r@);
                r.push(vs[j].duplicate());
                assert(vars_view(r@) =~= old_r.push(fv[j as int]));
                assert(fv.take(j + 1) =~= fv.take(j as int).push(fv[j as int]));
                assert(vars_view(r@) =~= before + fv.take(j + 1));
            }
            assert(fv.take(m as int) =~= fv);
            assert(vars_view(r@) == before + fv);
            assert forall|v: SpecVar| vars_view(r@).contains(v) <==> #[trigger] free_in_entries(s, i + 1, v) by {
                let all = before + fv;
                if all.contains(v) {
                    let q = choose|q: int| 0 <= q < all.len() && all[q] == v;
                    if q < before.len() {
                        assert(before[q] == v);
                        assert(before.contains(v));
                    } else {
                        assert(fv[q - before.len()] == v);
                        assert(fv.contains(v));
                    }
                }
                if before.contains(v) {
                    let q = choose|q: int| 0 <= q < before.len() && before[q] == v;
                    assert(all[q] == v);
                    assert(free_in_entries(s, i as int, v));
                    let k = choose|k: int| 0 <= k < i && #[trigger] last_binding(s, s[k].0, k) && free_in_scheme(s[k].1, v);
                    assert(free_in_entries(s, i + 1, v));
                }
                if fv.contains(v) {
                    let q = choose|q: int| 0 <= q < fv.len() && fv[q] == v;
                    assert(all[before.len() + q] == v);
                    assert(free_in_scheme(s[i as int].1, v));
                    assert(free_in_entries(s, i + 1, v));
                }
                if free_in_entries(s, i + 1, v) {
                    let k = choose|k: int| 0 <= k < i + 1 && #[trigger] last_binding(s, s[k].0, k) && free_in_scheme(s[k].1, v);
                    if k < i {
                        assert(free_in_entries(s, i as int, v));
                        assert(before.contains(v));
                    } else {
                        assert(fv.contains(v));
                    }
                }
            }
        } else {
            assert forall|v: SpecVar| #[trigger] free_in_entries(s, i + 1, v) == free_in_entries(s, i as int, v) by {
                if free_in_entries(s, i + 1, v) {
                    let k = choose|k: int| 0 <= k < i + 1 && #[trigger] last_binding(s, s[k].0, k) && free_in_scheme(s[k].1, v);
                    if k == i {
                        let j = choose|j: int| i < j < s.len() && #[trigger] entries_view(env.entries@)[j].0 == entries_view(env.entries@)[i as int].0;
                        assert(s[j].0 == s[k].0);
                    }
                    assert(free_in_entries(s, i as int, v));
                }
                if free_in_entries(s, i as int, v) {
                    let k = choose|k: int| 0 <= k < i && #[trigger] last_binding(s, s[k].0, k) && free_in_scheme(s[k].1, v);
                    assert(free_in_entries(s, i + 1, v));
                }
            }
        }
        i += 1;
    }
    proof {
        assert forall|v: SpecVar| vars_view(r@).contains(v) <==> free_in_env(env@, v) by {
            if free_in_env(env@, v) {
                let k = choose|k: Seq<char>| env@.dom().contains(k) && #[trigger] free_in_scheme(env@[k], v);
                lemma_bindings_map_dom(s, k);
                let i = choose|i: int| last_binding(s, k, i);
                lemma_bindings_map_last(s, k, i);
                assert(last_binding(s, s[i].0, i));
                assert(free_in_entries(s, n as int, v));
            }
            if vars_view(r@).contains(v) {
                assert(free_in_entries(s, n as int, v));
                let i = choose|i: int| 0 <= i < n && #[trigger] last_binding(s, s[i].0, i) && free_in_scheme(s[i].1, v);
                lemma_bindings_map_last(s, s[i].0, i);
                assert(env@.dom().contains(s[i].0) && free_in_scheme(env@[s[i].0], v));
            }
        }
    }
    r
}

/// Generalisation quantifies exactly the variables of the type that are not
/// free in the environment.
pub proof fn lemma_generalized_vars(t: SpecType, env: SpecEnv, v: SpecVar)
    ensures
        generalized(t, env).quantified_vars.contains(v) <==> (occurs(v, t) && !free_in_env(env, v)),
{
    lemma_filter_contains_iff(collect_vars(t, Seq::empty()), |w: SpecVar| !free_in_env(env, w), v);
    lemma_collect_vars_contains(t, Seq::empty(), v);
}

/// In the empty environment every variable of the type is quantified.
pub proof fn lemma_generalized_closed(t: SpecType, v: SpecVar)
    ensures
        generalized(t, SpecEnv::empty()).quantified_vars.contains(v) <==> occurs(v, t),
{
    lemma_generalized_vars(t, SpecEnv::empty(), v);
}

/// Binding a name again hides its earlier scheme; every other name keeps its own.
pub proof fn lemma_env_shadowing(env: SpecEnv, name: Seq<char>, scheme: SchemeView, other: Seq<char>)
    requires
        other != name,
    ensures
        env.insert(name, scheme).dom().contains(name),
        env.insert(name, scheme)[name] == scheme,
        env.insert(name, scheme).dom().contains(other) == env.dom().contains(other),
        env.dom().contains(other) ==> env.insert(name, scheme)[other] == env[other],
{
}

/// `body_type` generalised over its variables that are not free in `env`.
pub fn generalize(body_type: Type, env: &TypeEnv) -> (r: TypeScheme)
    ensures
        r@ == generalized(body_type@, env@),
{
    let mut free_body_vars: Vec<TypeVariable> = Vec::new();
    assert(vars_view(free_body_vars@) =~= Seq::<SpecVar>::empty());
    collect_type_vars(&body_type, &mut free_body_vars);
    let free_env_vars = free_type_vars_in_env(env);
    let ghost s = vars_view(free_body_vars@);
    let ghost p = |v: SpecVar| !free_in_env(env@, v);
    let mut quantified_vars: Vec<TypeVariable> = Vec::new();
    let n = free_body_vars.len();
    for i in 0..n
        invariant
            n == free_body_vars@.len(),
            s == vars_view(free_body_vars@),
            p == (|v: SpecVar| !free_in_env(env@, v)),
            forall|v: SpecVar| vars_view(free_env_vars@).contains(v) <==> free_in_env(env@, v),
            vars_view(quantified_vars@) == s.take(i as int).filter(p),
    {
        proof {
            lemma_filter_step(s, p, i as int);
        }
        if !contains_var(&free_env_vars, &free_body_vars[i]) {
            let ghost before = vars_view(quantified_vars@);
            quantified_vars.push(free_body_vars[i].duplicate());
            assert(vars_view(quantified_vars@) =~= before.push(s[i as int]));
        }
    }
    assert(s.take(n as int) =~= s);
    let r = TypeScheme { quantified_vars, body_type: Box::new(body_type) };
    assert(r@.quantified_vars == vars_view(r.quantified_vars@));
    r
}

/// The type a variable stands for under the bindings `m`.
pub open spec fn applied_var(w: SpecVar, m: Map<SpecVar, SpecType>) -> SpecType {
    if m.dom().contains(w) {
        m[w]
    } else {
        Type::TypeVariable(w)
    }
}

/// `v` occurs in what some free variable of the environment stands for under `m`.
pub open spec fn free_in_env_under(env: SpecEnv, m: Map<SpecVar, SpecType>, v: SpecVar) -> bool {
    exists|w: SpecVar| #[trigger] free_in_env(env, w) && occurs(v, applied_var(w, m))
}

/// `t` generalised over every variable of it that is not free in the
/// environment once the bindings `m` are applied to it.
pub open spec fn generalized_under(t: SpecType, env: SpecEnv, m: Map<SpecVar, SpecType>) -> SchemeView {
    SchemeView {
        quantified_vars: collect_vars(t, Seq::empty()).filter(|v: SpecVar| !free_in_env_under(env, m, v)),
        body_type: t,
    }
}

/// Generalisation under bindings quantifies exactly the variables of the
/// type that are not free in the environment once the bindings are applied.
pub proof fn lemma_generalized_under_vars(t: SpecType, env: SpecEnv, m: Map<SpecVar, SpecType>, v: SpecVar)
    ensures
        generalized_under(t, env, m).quantified_vars.contains(v) <==> (occurs(v, t) && !free_in_env_under(env, m, v)),
{
    lemma_filter_contains_iff(collect_vars(t, Seq::empty()), |w: SpecVar| !free_in_env_under(env, m, w), v);
    lemma_collect_vars_contains(t, Seq::empty(), v);
}

/// The variables free in the environment once the bindings are applied to it.
fn env_vars_under(env: &TypeEnv, subs: &Substitution) -> (r: Vec<TypeVariable>)
    ensures
        forall|v: SpecVar| vars_view(r@).contains(v) <==> free_in_env_under(env@, subs@, v),
{
    let free_env_vars = free_type_vars_in_env(env);
    let ghost fv = vars_view(free_env_vars@);
    let mut acc: Vec<TypeVariable> = Vec::new();
    assert(vars_view(acc@) =~= Seq::<SpecVar>::empty());
    let n = free_env_vars.len();
    for i in 0..n
        invariant
            n == free_env_vars@.len(),
            fv == vars_view(free_env_vars@),
            forall|w: SpecVar| fv.contains(w) <==> free_in_env(env@, w),
            forall|v: SpecVar| vars_view(acc@).contains(v) <==> exists|j: int| 0 <= j < i
                && #[trigger] occurs(v, applied_var(fv[j], subs@)),
    {
        let ghost before = vars_view(acc@);
        let w = &free_env_vars[i];
        assert(w@ == fv[i as int]);
        match subs.get(w) {
            Some(t) => collect_type_vars(t, &mut acc),
            None => {
                let tv = Type::TypeVariable(w.duplicate());
                collect_type_vars(&tv, &mut acc);
            },
        }
        assert(vars_view(acc@) == collect_vars(applied_var(fv[i as int], subs@), before));
        assert forall|v: SpecVar| vars_view(acc@).contains(v) <==> exists|j: int| 0 <= j < i + 1
            && #[trigger] occurs(v, applied_var(fv[j], subs@)) by {
            lemma_collect_vars_contains(applied_var(fv[i as int], subs@), before, v);
            if exists|j: int| 0 <= j < i + 1 && #[trigger] occurs(v, applied_var(fv[j], subs@)) {
                let j = choose|j: int| 0 <= j < i + 1 && #[trigger] occurs(v, applied_var(fv[j], subs@));
                if j < i {
                    assert(exists|j: int| 0 <= j < i && #[trigger] occurs(v, applied_var(fv[j], subs@)));
                }
            }
        }
    }
    assert forall|v: SpecVar| vars_view(acc@).contains(v) <==> free_in_env_under(env@, subs@, v) by {
        if vars_view(acc@).contains(v) {
            let j = choose|j: int| 0 <= j < n && #[trigger] occurs(v, applied_var(fv[j], subs@));
            assert(fv.contains(fv[j]));
            assert(free_in_env(env@, fv[j]) && occurs(v, applied_var(fv[j], subs@)));
        }
        if free_in_env_under(env@, subs@, v) {
            let w = choose|w: SpecVar| #[trigger] free_in_env(env@, w) && occurs(v, applied_var(w, subs@));
            assert(fv.contains(w));
            let j = choose|j: int| 0 <= j < fv.len() && fv[j] == w;
            assert(occurs(v, applied_var(fv[j], subs@)));
        }
    }
    acc
}

/// `body_type` generalised over its variables that are not free in `env` once
/// the bindings `subs` are applied to `env`.
pub fn generalize_under(body_type: Type, env: &TypeEnv, subs: &Substitution) -> (r: TypeScheme)
    ensures
        r@ == generalized_under(body_type@, env@, subs@),
{
    let mut free_body_vars: Vec<TypeVariable> = Vec::new();
    assert(vars_view(free_body_vars@) =~= Seq::<SpecVar>::empty());
    collect_type_vars(&body_type, &mut free_body_vars);
    let env_vars = env_vars_under(env, subs);
    let ghost s = vars_view(free_body_vars@);
    let ghost p = |v: SpecVar| !free_in_env_under(env@, subs@, v);
    let mut quantified_vars: Vec<TypeVariable> = Vec::new();
    let n = free_body_vars.len();
    for i in 0..n
        invariant
            n == free_body_vars@.len(),
            s == vars_view(free_body_vars@),
            p == (|v: SpecVar| !free_in_env_under(env@, subs@, v)),
            forall|v: SpecVar| vars_view(env_vars@).contains(v) <==> free_in_env_under(env@, subs@, v),
            vars_view(quantified_vars@) == s.take(i as int).filter(p),
    {
        proof {
            lemma_filter_step(s, p, i as int);
        }
        if !contains_var(&env_vars, &free_body_vars[i]) {
            let ghost before = vars_view(quantified_vars@);
            quantified_vars.push(free_body_vars[i].duplicate());
            assert(vars_view(quantified_vars@) =~= before.push(s[i as int]));
        }
    }
    assert(s.take(n as int) =~= s);
    let r = TypeScheme { quantified_vars, body_type: Box::new(body_type) };
    assert(r@.quantified_vars == vars_view(r.quantified_vars@));
    r
}

} // verus!
