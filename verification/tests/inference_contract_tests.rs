use lambda_calculus::ast::parse;
use lambda_calculus::lexer::Lexer;
use lambda_calculus::type_inferencer::type_inference;
use lambda_calculus::type_inferencer::types::{
    Type, FuncType, TypeVariable, TypeVariableGenerate, TypeInference, TypeError, FinalType, FinalFuncType, TypeScheme,
};
use lambda_calculus::type_inferencer::unification::unification;
use lambda_calculus::type_inferencer::substitution::{Substitution, apply_substitutions};
use lambda_calculus::type_inferencer::env::{TypeEnv, generalize};
use lambda_calculus::type_inferencer::infer_types::{apply_simple_substitutions, infer_expr_type};

fn infer(src: &str) -> Result<FinalType, TypeError> {
    let mut lexer = Lexer::new(src);
    let tokens = lexer.tokenize().unwrap();
    let ast = parse(tokens).unwrap();
    type_inference(&ast)
}

fn var(name: &str) -> Type {
    Type::TypeVariable(TypeVariable::new(name.to_string()))
}

fn func(p: Type, r: Type) -> Type {
    Type::FuncType(Box::new(FuncType { param_type: Box::new(p), return_type: Box::new(r) }))
}

fn final_func(p: FinalType, r: FinalType) -> FinalType {
    FinalType::FuncType(Box::new(FinalFuncType { param_type: Box::new(p), return_type: Box::new(r) }))
}

fn poly(name: &str) -> FinalType {
    FinalType::Polymorphic(name.to_string())
}

#[test]
fn test_literals_have_their_types() {
    assert_eq!(infer("5").unwrap(), FinalType::IntType);
    assert_eq!(infer("false").unwrap(), FinalType::BoolType);
    assert_eq!(infer("1 == 2").unwrap(), FinalType::BoolType);
}

#[test]
fn test_identity_is_polymorphic_in_its_first_variable() {
    assert_eq!(infer("fn x => x").unwrap(), final_func(poly("'a"), poly("'a")));
}

#[test]
fn test_let_bound_identity_is_instantiated_with_a_fresh_variable() {
    assert_eq!(infer("let id = fn x => x in id").unwrap(), final_func(poly("'b"), poly("'b")));
}

#[test]
fn test_unify_failure_message() {
    let err = infer("true + 1").unwrap_err();
    assert!(matches!(err, TypeError::UnifyFailed { left: Type::BoolType, right: Type::IntType }));
    assert_eq!(err.message(), "Failed to unify types: BoolType <> IntType");
}

#[test]
fn test_not_callable_message() {
    let err = infer("5 3").unwrap_err();
    assert!(matches!(err, TypeError::NotCallable { callee: Type::IntType, argument: Type::IntType }));
    assert_eq!(err.message(), "Primitive int and bool are not callable: IntType (IntType)");
}

#[test]
fn test_unbound_variable_message() {
    let err = infer("let x = 1 in y").unwrap_err();
    assert!(matches!(&err, TypeError::UnboundVariable(s) if s == "y"));
    assert_eq!(err.message(), "Variable reference prior to declaration: y");
}

#[test]
fn test_self_application_is_an_infinite_type_variable() {
    let err = infer("fn x => x x").unwrap_err();
    assert!(matches!(err, TypeError::InfiniteTypeVariable));
    assert_eq!(err.message(), "Infinite type variables are not allowed");
}

#[test]
fn test_variable_inside_its_own_function_type_is_rejected() {
    let err = infer("fn x => x (fn y => x)").unwrap_err();
    assert!(matches!(err, TypeError::InfiniteType { .. }));
    assert_eq!(
        err.message(),
        "Infinite type: TypeVariable { name: \"'a\" } in FuncType(FuncType { param_type: TypeVariable(TypeVariable { name: \"'b\" }), return_type: TypeVariable(TypeVariable { name: \"'a\" }) })"
    );
}

#[test]
fn test_generator_hands_out_distinct_names() {
    let mut g = TypeVariableGenerate::new();
    let mut names: Vec<String> = Vec::new();
    for _ in 0..60 {
        names.push(g.next().name);
    }
    assert_eq!(names[0], "'a");
    assert_eq!(names[25], "'z");
    assert_eq!(names[26], "'ab");
    assert_eq!(names[27], "'bb");
    assert_eq!(names[52], "'ac");
    for i in 0..names.len() {
        for j in 0..i {
            assert_ne!(names[i], names[j]);
        }
    }
}

#[test]
fn test_a_type_unifies_with_itself() {
    let mut cs = vec![TypeInference {
        left: Box::new(func(var("'a"), func(Type::IntType, var("'b")))),
        right: Box::new(func(var("'a"), func(Type::IntType, var("'b")))),
    }];
    assert!(unification(&mut cs).is_ok());
}

#[test]
fn test_unification_failure_does_not_depend_on_order() {
    let mut cs = vec![TypeInference { left: Box::new(Type::IntType), right: Box::new(func(var("'a"), var("'a"))) }];
    let e1 = unification(&mut cs).unwrap_err();
    let mut cs = vec![TypeInference { left: Box::new(func(var("'a"), var("'a"))), right: Box::new(Type::IntType) }];
    let e2 = unification(&mut cs).unwrap_err();
    assert!(matches!(e1, TypeError::UnifyFailed { left: Type::IntType, right: Type::FuncType(_) }));
    assert!(matches!(e2, TypeError::UnifyFailed { left: Type::FuncType(_), right: Type::IntType }));
}

#[test]
fn test_unification_binds_and_rewrites_later_constraints() {
    let mut cs = vec![
        TypeInference { left: Box::new(var("'a")), right: Box::new(Type::IntType) },
        TypeInference { left: Box::new(var("'b")), right: Box::new(var("'a")) },
    ];
    let subs = unification(&mut cs).unwrap();
    assert_eq!(*cs[1].right, Type::IntType);
    assert_eq!(subs.get(&TypeVariable::new("'a".to_string())), Some(&Type::IntType));
    assert_eq!(subs.get(&TypeVariable::new("'b".to_string())), Some(&Type::IntType));
    assert_eq!(subs.get(&TypeVariable::new("'c".to_string())), None);
}

#[test]
fn test_unbound_variables_become_polymorphic() {
    let mut subs = Substitution::new();
    subs.insert(TypeVariable::new("'a".to_string()), Type::IntType);
    let t = apply_substitutions(func(var("'a"), var("'b")), subs).unwrap();
    assert_eq!(t, final_func(FinalType::IntType, poly("'b")));
}

#[test]
fn test_bindings_are_followed_to_the_end() {
    let mut subs = Substitution::new();
    subs.insert(TypeVariable::new("'a".to_string()), var("'b"));
    subs.insert(TypeVariable::new("'b".to_string()), func(Type::BoolType, var("'c")));
    let t = apply_simple_substitutions(var("'a"), subs).unwrap();
    assert_eq!(t, func(Type::BoolType, var("'c")));
}

#[test]
fn test_later_binding_replaces_earlier() {
    let mut subs = Substitution::new();
    subs.insert(TypeVariable::new("'a".to_string()), Type::IntType);
    subs.insert(TypeVariable::new("'a".to_string()), Type::BoolType);
    assert_eq!(subs.get(&TypeVariable::new("'a".to_string())), Some(&Type::BoolType));
}

#[test]
fn test_generalize_in_empty_env_quantifies_every_variable() {
    let env = TypeEnv::new();
    let s = generalize(func(var("'a"), func(var("'b"), var("'a"))), &env);
    let names: Vec<String> = s.quantified_vars.iter().map(|v| v.name.clone()).collect();
    assert_eq!(names, vec!["'a".to_string(), "'b".to_string()]);
}

#[test]
fn test_generalize_keeps_variables_free_in_env() {
    let mut env = TypeEnv::new();
    env.insert("x".to_string(), TypeScheme::from_type_var(TypeVariable::new("'a".to_string())));
    let s = generalize(func(var("'a"), var("'b")), &env);
    let names: Vec<String> = s.quantified_vars.iter().map(|v| v.name.clone()).collect();
    assert_eq!(names, vec!["'b".to_string()]);
}

#[test]
fn test_env_shadowing() {
    let mut env = TypeEnv::new();
    env.insert("f".to_string(), TypeScheme::from_type_var(TypeVariable::new("'a".to_string())));
    env.insert("g".to_string(), TypeScheme::from_type_var(TypeVariable::new("'b".to_string())));
    env.insert("f".to_string(), TypeScheme::from_type_var(TypeVariable::new("'c".to_string())));
    assert_eq!(*env.get(&"f".to_string()).unwrap().body_type, var("'c"));
    assert_eq!(*env.get(&"g".to_string()).unwrap().body_type, var("'b"));
    assert!(env.get(&"h".to_string()).is_none());
}

#[test]
fn test_inference_keeps_earlier_constraints_and_counts_on() {
    let mut lexer = Lexer::new("let f = fn x => x in f 1");
    let tokens = lexer.tokenize().unwrap();
    let ast = parse(tokens).unwrap();
    let mut cs = vec![TypeInference { left: Box::new(var("'z")), right: Box::new(Type::BoolType) }];
    let mut g = TypeVariableGenerate::new();
    let t = infer_expr_type(&ast, &TypeEnv::new(), &mut cs, &mut g).unwrap();
    assert_eq!(*t, var("'b"));
    assert_eq!(cs.len(), 2);
    assert_eq!(*cs[0].left, var("'z"));
    assert_eq!(*cs[0].right, Type::BoolType);
    assert_eq!(*cs[1].left, var("'b"));
    assert_eq!(*cs[1].right, Type::IntType);
    assert_eq!(g.next().name, "'c");
}

#[test]
fn test_unification_rejects_an_infinite_type() {
    let mut cs = vec![TypeInference { left: Box::new(var("'a")), right: Box::new(func(var("'a"), var("'b"))) }];
    let err = unification(&mut cs).unwrap_err();
    assert!(matches!(err, TypeError::InfiniteType { .. }));
}

#[test]
fn test_unification_finds_a_clash_inside_a_nested_parameter() {
    let mut cs = vec![
        TypeInference { left: Box::new(var("'a")), right: Box::new(Type::IntType) },
        TypeInference {
            left: Box::new(func(func(var("'a"), Type::IntType), Type::IntType)),
            right: Box::new(func(func(Type::BoolType, Type::IntType), Type::IntType)),
        },
    ];
    let err = unification(&mut cs).unwrap_err();
    assert!(err.message().contains("Failed to unify"));
}

#[test]
fn test_unification_applies_parameter_bindings_to_results() {
    let mut cs = vec![TypeInference {
        left: Box::new(func(var("'a"), var("'a"))),
        right: Box::new(func(Type::IntType, Type::BoolType)),
    }];
    let err = unification(&mut cs).unwrap_err();
    assert!(matches!(err, TypeError::UnifyFailed { left: Type::IntType, right: Type::BoolType }));
}

#[test]
fn test_variable_unified_with_itself_binds_nothing() {
    let mut cs = vec![TypeInference { left: Box::new(var("'a")), right: Box::new(var("'a")) }];
    let subs = unification(&mut cs).unwrap();
    assert_eq!(subs.get(&TypeVariable::new("'a".to_string())), None);
}

#[test]
fn test_unifier_solves_every_constraint() {
    let mut cs = vec![
        TypeInference { left: Box::new(var("'a")), right: Box::new(func(var("'b"), var("'c"))) },
        TypeInference { left: Box::new(var("'b")), right: Box::new(Type::IntType) },
        TypeInference { left: Box::new(func(var("'c"), var("'d"))), right: Box::new(func(Type::BoolType, var("'b"))) },
    ];
    let subs = unification(&mut cs).unwrap();
    let resolved = |t: Type| apply_simple_substitutions(t, subs.duplicate()).unwrap();
    assert_eq!(resolved(var("'a")), func(Type::IntType, Type::BoolType));
    assert_eq!(resolved(var("'d")), Type::IntType);
    assert_eq!(resolved(func(var("'c"), var("'d"))), resolved(func(Type::BoolType, var("'b"))));
}

#[test]
fn test_let_keeps_the_constraints_of_its_value() {
    assert!(infer("fn x => let y = x + 1 in if x then 1 else 2").is_err());
}

#[test]
fn test_equal_branch_variables_are_no_infinite_type() {
    assert_eq!(infer("fn x => if true then x else x").unwrap(), final_func(poly("'a"), poly("'a")));
    assert_eq!(infer("fn x => x == x").unwrap(), final_func(poly("'a"), FinalType::BoolType));
}

#[test]
fn test_mutual_self_application_is_rejected() {
    assert!(infer("fn x => fn y => if true then x y else y x").is_err());
}

#[test]
fn test_letrec_of_a_function_that_only_recurses() {
    match infer("letrec f = fn x => f x in f").unwrap() {
        FinalType::FuncType(f) => match (*f.param_type, *f.return_type) {
            (FinalType::Polymorphic(a), FinalType::Polymorphic(b)) => assert_ne!(a, b),
            _ => panic!("Expected two type variables"),
        },
        _ => panic!("Expected FuncType"),
    }
}

#[test]
fn test_let_sees_constraints_on_outer_variables() {
    // the branches make x an Int, so y is an Int and cannot be a condition
    assert!(infer("fn x => let y = if true then x else 1 in if y then 1 else 2").is_err());
}

#[test]
fn test_let_does_not_generalise_a_variable_free_in_the_environment() {
    // f's type is x's type; x is free in the environment, so f is not polymorphic
    assert!(infer("fn x => let f = x in if f then f + 1 else 0").is_err());
    // a let-bound identity stays polymorphic
    assert_eq!(infer("fn x => let id = fn y => y in id x").unwrap(), final_func(poly("'a"), poly("'a")));
}
