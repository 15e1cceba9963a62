use vstd::prelude::*;
use crate::text::{push_char, type_debug, type_debug_text, type_variable_debug, type_variable_debug_text};
use vstd::string::StringExecFns;

verus! {

/// A type of the language; type variables are named by `S`
/// (`String` when executed, `Seq<char>` in specifications).
#[derive(Debug, PartialEq)]
pub enum Type<S = String> {
    TypeVariable(TypeVariable<S>),
    BoolType,
    IntType,
    FuncType(Box<FuncType<S>>),
}

#[derive(Debug, PartialEq)]
pub struct FuncType<S = String> {
    pub param_type: Box<Type<S>>,
    pub return_type: Box<Type<S>>,
}

#[derive(Debug, Clone, PartialEq, Eq, Hash)]
pub struct TypeVariable<S = String> {
    pub name: S,
}

/// Hands out the type variables `'a`, `'b`, ..., `'z`, `'ab`, `'bb`, ...:
/// the n-th variable is named by the base-26 digits of n, least significant first.
pub struct TypeVariableGenerate {
    index: usize,
}

/// The resolved type of a whole program: unresolved variables become `Polymorphic`.
#[derive(Debug, PartialEq)]
pub enum FinalType<S = String> {
    BoolType,
    IntType,
    FuncType(Box<FinalFuncType<S>>),
    Polymorphic(S),
}

#[derive(Debug, PartialEq)]
pub struct FinalFuncType<S = String> {
    pub param_type: Box<FinalType<S>>,
    pub return_type: Box<FinalType<S>>,
}

/// An equality constraint `left = right` between two types.
#[derive(Debug, PartialEq)]
pub struct TypeInference<S = String> {
    pub left: Box<Type<S>>,
    pub right: Box<Type<S>>,
}

/// `forall quantified_vars. body_type`.
#[derive(Debug, Clone)]
pub struct TypeScheme {
    pub quantified_vars: Vec<TypeVariable>,
    pub body_type: Box<Type>,
}

/// Why a program has no type.
#[derive(Debug)]
pub enum TypeError<S = String> {
    /// Two types that cannot be made equal (`Int`/`Bool`, or a primitive and a function).
    UnifyFailed { left: Type<S>, right: Type<S> },
    /// A variable was required to equal itself where the occurs check forbids it.
    InfiniteTypeVariable,
    /// A variable was required to equal a function type that contains it.
    InfiniteType { variable: TypeVariable<S>, in_type: Type<S> },
    /// A name used before any binding of it.
    UnboundVariable(S),
    /// An `Int` or `Bool` in the position of a function being applied.
    NotCallable { callee: Type<S>, argument: Type<S> },
}

pub type SpecType = Type<Seq<char>>;
pub type SpecVar = TypeVariable<Seq<char>>;
pub type SpecFinalType = FinalType<Seq<char>>;
pub type SpecConstraint = TypeInference<Seq<char>>;
pub type SpecTypeError = TypeError<Seq<char>>;

/// The mathematical form of a type scheme.
pub struct SchemeView {
    pub quantified_vars: Seq<SpecVar>,
    pub body_type: SpecType,
}

pub open spec fn type_view(t: Type) -> SpecType
    decreases t,
{
    match t {
        Type::TypeVariable(v) => Type::TypeVariable(TypeVariable { name: v.name@ }),
        Type::BoolType => Type::BoolType,
        Type::IntType => Type::IntType,
        Type::FuncType(f) => Type::FuncType(Box::new(FuncType {
            param_type: Box::new(type_view(*f.param_type)),
            return_type: Box::new(type_view(*f.return_type)),
        })),
    }
}

pub open spec fn final_type_view(t: FinalType) -> SpecFinalType
    decreases t,
{
    match t {
        FinalType::BoolType => FinalType::BoolType,
        FinalType::IntType => FinalType::IntType,
        FinalType::FuncType(f) => FinalType::FuncType(Box::new(FinalFuncType {
            param_type: Box::new(final_type_view(*f.param_type)),
            return_type: Box::new(final_type_view(*f.return_type)),
        })),
        FinalType::Polymorphic(s) => FinalType::Polymorphic(s@),
    }
}

impl View for TypeVariable {
    type V = SpecVar;
    open spec fn view(&self) -> SpecVar { TypeVariable { name: self.name@ } }
}

impl View for Type {
    type V = SpecType;
    open spec fn view(&self) -> SpecType { type_view(*self) }
}

impl View for FinalType {
    type V = SpecFinalType;
    open spec fn view(&self) -> SpecFinalType { final_type_view(*self) }
}

impl View for TypeInference {
    type V = SpecConstraint;
    open spec fn view(&self) -> SpecConstraint {
        TypeInference { left: Box::new(type_view(*self.left)), right: Box::new(type_view(*self.right)) }
    }
}

impl View for TypeScheme {
    type V = SchemeView;
    open spec fn view(&self) -> SchemeView {
        SchemeView {
            quantified_vars: self.quantified_vars@.map_values(|v: TypeVariable| v@),
            body_type: type_view(*self.body_type),
        }
    }
}

impl View for TypeError {
    type V = SpecTypeError;
    open spec fn view(&self) -> SpecTypeError {
        match self {
            TypeError::UnifyFailed { left, right } =>
                TypeError::UnifyFailed { left: type_view(*left), right: type_view(*right) },
            TypeError::InfiniteTypeVariable => TypeError::InfiniteTypeVariable,
            TypeError::InfiniteType { variable, in_type } =>
                TypeError::InfiniteType { variable: variable@, in_type: type_view(*in_type) },
            TypeError::UnboundVariable(s) => TypeError::UnboundVariable(s@),
            TypeError::NotCallable { callee, argument } =>
                TypeError::NotCallable { callee: type_view(*callee), argument: type_view(*argument) },
        }
    }
}

/// The report of a type error.
pub open spec fn type_error_text(e: SpecTypeError) -> Seq<char> {
    match e {
        TypeError::UnifyFailed { left, right } =>
            "Failed to unify types: "@ + type_debug_text(left) + " <> "@ + type_debug_text(right),
        TypeError::InfiniteTypeVariable => "Infinite type variables are not allowed"@,
        TypeError::InfiniteType { variable, in_type } =>
            "Infinite type: "@ + type_variable_debug_text(variable) + " in "@ + type_debug_text(in_type),
        TypeError::UnboundVariable(name) => "Variable reference prior to declaration: "@ + name,
        TypeError::NotCallable { callee, argument } =>
            "Primitive int and bool are not callable: "@ + type_debug_text(callee) + " ("@
                + type_debug_text(argument) + ")"@,
    }
}

impl TypeError {
    /// The report of this error.
    pub fn message(&self) -> (r: String)
        ensures
            r@ == type_error_text(self@),
    {
        match self {
            TypeError::UnifyFailed { left, right } => {
                let mut m = String::from_str("Failed to unify types: ");
                m.append(type_debug(left).as_str());
                m.append(" <> ");
                m.append(type_debug(right).as_str());
                m
            },
            TypeError::InfiniteTypeVariable => String::from_str("Infinite type variables are not allowed"),
            TypeError::InfiniteType { variable, in_type } => {
                let mut m = String::from_str("Infinite type: ");
                m.append(type_variable_debug(variable).as_str());
                m.append(" in ");
                m.append(type_debug(in_type).as_str());
                m
            },
            TypeError::UnboundVariable(name) => {
                let mut m = String::from_str("Variable reference prior to declaration: ");
                m.append(name.as_str());
                m
            },
            TypeError::NotCallable { callee, argument } => {
                let mut m = String::from_str("Primitive int and bool are not callable: ");
                m.append(type_debug(callee).as_str());
                m.append(" (");
                m.append(type_debug(argument).as_str());
                m.append(")");
                m
            },
        }
    }
}

/// The views of a sequence of constraints.
pub open spec fn constraints_view(cs: Seq<TypeInference>) -> Seq<SpecConstraint> {
    cs.map_values(|c: TypeInference| c@)
}

/// The constraint `left = right`.
pub open spec fn constraint(left: SpecType, right: SpecType) -> SpecConstraint {
    TypeInference { left: Box::new(left), right: Box::new(right) }
}

/// The letter for the base-26 digit `n % 26`.
pub open spec fn letter(n: nat) -> char {
    ((97 + n % 26) as u8) as char
}

/// The base-26 digits of `n`, least significant first, as letters.
pub open spec fn letters(n: nat) -> Seq<char>
    decreases n,
{
    if n / 26 == 0 {
        seq![letter(n)]
    } else {
        seq![letter(n)] + letters(n / 26)
    }
}

/// The name of the `n`-th generated type variable.
pub open spec fn var_name(n: nat) -> Seq<char> {
    seq!['\''] + letters(n)
}

/// Different numbers have different base-26 letter sequences.
proof fn lemma_letters_injective(n: nat, m: nat)
    requires
        letters(n) == letters(m),
    ensures
        n == m,
    decreases n,
{
    assert(letters(n)[0] == letter(n));
    assert(letters(m)[0] == letter(m));
    assert(n % 26 == m % 26) by {
        assert(((97 + n % 26) as u8) as char == ((97 + m % 26) as u8) as char);
    }
    if n / 26 != 0 && m / 26 != 0 {
        assert(letters(n / 26) =~= letters(n).subrange(1, letters(n).len() as int));
        assert(letters(m / 26) =~= letters(m).subrange(1, letters(m).len() as int));
        lemma_letters_injective(n / 26, m / 26);
    } else if n / 26 != 0 {
        assert(letters(n).len() == 1 + letters(n / 26).len());
    } else if m / 26 != 0 {
        assert(letters(m).len() == 1 + letters(m / 26).len());
    }
}

/// Every variable that the generator hands out is new: variables with
/// different numbers have different names.
pub proof fn lemma_fresh_vars_distinct(n: nat, m: nat)
    requires
        n != m,
    ensures
        fresh_var(n) != fresh_var(m),
{
    if fresh_var(n) == fresh_var(m) {
        assert(letters(n) =~= var_name(n).subrange(1, var_name(n).len() as int));
        assert(letters(m) =~= var_name(m).subrange(1, var_name(m).len() as int));
        lemma_letters_injective(n, m);
    }
}

/// The `n`-th generated type variable.
pub open spec fn fresh_var(n: nat) -> SpecVar {
    TypeVariable { name: var_name(n) }
}

/// Whether the variable `v` occurs anywhere in `t`.
pub open spec fn occurs(v: SpecVar, t: SpecType) -> bool
    decreases t,
{
    match t {
        Type::TypeVariable(w) => w == v,
        Type::FuncType(f) => occurs(v, *f.param_type) || occurs(v, *f.return_type),
        _ => false,
    }
}

/// The error with which the occurs check rejects `v = t`.
pub open spec fn occurs_error(v: SpecVar, t: SpecType) -> SpecTypeError {
    match t {
        Type::TypeVariable(_) => TypeError::InfiniteTypeVariable,
        _ => TypeError::InfiniteType { variable: v, in_type: t },
    }
}

impl TypeVariable {
    pub fn new(name: String) -> (r: Self)
        ensures
            r.name == name,
    {
        Self { name }
    }

    /// A copy of the variable.
    pub fn duplicate(&self) -> (r: Self)
        ensures
            r@ == self@,
    {
        TypeVariable { name: self.name.clone() }
    }

    /// Whether two variables have the same name.
    pub fn same_as(&self, other: &TypeVariable) -> (r: bool)
        ensures
            r == (self@ == other@),
    {
        self.name == other.name
    }
}

impl Type {
    /// A copy of the type.
    pub fn duplicate(&self) -> (r: Type)
        ensures
            r@ == self@,
        decreases self,
    {
        match self {
            Type::TypeVariable(v) => Type::TypeVariable(v.duplicate()),
            Type::BoolType => Type::BoolType,
            Type::IntType => Type::IntType,
            Type::FuncType(f) => {
                let p = f.param_type.duplicate();
                let r = f.return_type.duplicate();
                Type::FuncType(Box::new(FuncType { param_type: Box::new(p), return_type: Box::new(r) }))
            },
        }
    }
}

impl Clone for Type {
    fn clone(&self) -> (r: Self)
        ensures
            r@ == self@,
    {
        self.duplicate()
    }
}

impl Clone for FuncType {
    fn clone(&self) -> (r: Self)
        ensures
            type_view(*r.param_type) == type_view(*self.param_type),
            type_view(*r.return_type) == type_view(*self.return_type),
    {
        FuncType { param_type: Box::new(self.param_type.duplicate()), return_type: Box::new(self.return_type.duplicate()) }
    }
}

impl Clone for TypeInference {
    fn clone(&self) -> (r: Self)
        ensures
            r@ == self@,
    {
        TypeInference { left: Box::new(self.left.duplicate()), right: Box::new(self.right.duplicate()) }
    }
}

impl FinalType {
    /// A copy of the final type.
    pub fn duplicate(&self) -> (r: FinalType)
        ensures
            r@ == self@,
        decreases self,
    {
        match self {
            FinalType::BoolType => FinalType::BoolType,
            FinalType::IntType => FinalType::IntType,
            FinalType::FuncType(f) => FinalType::FuncType(Box::new(FinalFuncType {
                param_type: Box::new(f.param_type.duplicate()),
                return_type: Box::new(f.return_type.duplicate()),
            })),
            FinalType::Polymorphic(s) => FinalType::Polymorphic(s.clone()),
        }
    }
}

impl Clone for FinalType {
    fn clone(&self) -> (r: Self)
        ensures
            r@ == self@,
    {
        self.duplicate()
    }
}

impl Clone for FinalFuncType {
    fn clone(&self) -> (r: Self)
        ensures
            final_type_view(*r.param_type) == final_type_view(*self.param_type),
            final_type_view(*r.return_type) == final_type_view(*self.return_type),
    {
        FinalFuncType {
            param_type: Box::new(self.param_type.duplicate()),
            return_type: Box::new(self.return_type.duplicate()),
        }
    }
}

impl TypeInference {
    pub fn unpack(self) -> (r: (Box<Type>, Box<Type>))
        ensures
            r.0 == self.left,
            r.1 == self.right,
    {
        (self.left, self.right)
    }
}

impl TypeScheme {
    /// The scheme of a variable that is not generalised: `forall {}. v`.
    pub fn from_type_var(v: TypeVariable) -> (r: Self)
        ensures
            r@ == (SchemeView { quantified_vars: Seq::empty(), body_type: Type::TypeVariable(v@) }),
    {
        let r = TypeScheme { quantified_vars: Vec::new(), body_type: Box::new(Type::TypeVariable(v)) };
        assert(r@.quantified_vars =~= Seq::<SpecVar>::empty());
        r
    }

    /// A copy of the scheme.
    pub fn duplicate(&self) -> (r: Self)
        ensures
            r@ == self@,
    {
        let mut vars: Vec<TypeVariable> = Vec::new();
        let n = self.quantified_vars.len();
        for i in 0..n
            invariant
                n == self.quantified_vars@.len(),
                vars@.len() == i,
                forall|j: int| 0 <= j < i ==> #[trigger] vars@[j]@ == self.quantified_vars@[j]@,
        {
            vars.push(self.quantified_vars[i].duplicate());
        }
        let r = TypeScheme { quantified_vars: vars, body_type: Box::new(self.body_type.duplicate()) };
        assert(r@.quantified_vars =~= self@.quantified_vars);
        r
    }
}

impl TypeVariableGenerate {
    /// How many variables have been handed out.
    pub closed spec fn counter(&self) -> nat {
        self.index as nat
    }

    pub fn new() -> (r: Self)
        ensures
            r.counter() == 0,
    {
        Self { index: 0 }
    }

    /// The next fresh variable.
    pub fn next(&mut self) -> (r: TypeVariable)
        requires
            old(self).counter() < usize::MAX,
        ensures
            r@ == fresh_var(old(self).counter()),
            final(self).counter() == old(self).counter() + 1,
    {
        let ghost start = self.index as nat;
        let mut name = String::new();
        push_char(&mut name, '\'');
        let mut n = self.index;
        assert(name@ == seq!['\'']);
        loop
            invariant_except_break
                name@ + letters(n as nat) == var_name(start),
            ensures
                name@ == var_name(start),
            decreases n,
        {
            let c: u8 = 97 + (n % 26) as u8;
            let ghost before = name@;
            push_char(&mut name, c as char);
            assert(c as char == letter(n as nat));
            let m = n / 26;
            if m == 0 {
                assert(letters(n as nat) == seq![letter(n as nat)]);
                assert(name@ == before + letters(n as nat));
                break;
            }
            assert(letters(n as nat) == seq![letter(n as nat)] + letters(m as nat));
            assert(name@ + letters(m as nat) =~= before + letters(n as nat));
            n = m;
        }
        self.index = self.index + 1;
        TypeVariable::new(name)
    }
}

} // verus!
