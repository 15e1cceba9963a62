pub mod types;
pub mod bindings;
pub mod env;
pub mod substitution;
pub mod unification;
pub mod infer_types;

use vstd::prelude::*;
use crate::ast::types::{Expr, SpecExpr};
use crate::type_inferencer::env::{TypeEnv, SpecEnv};
use crate::type_inferencer::infer_types::{infer_expr_type, infer_expr, InferState, Step};
use crate::type_inferencer::substitution::{apply_substitutions, finalize};
use crate::type_inferencer::types::{FinalType, Type, TypeError, TypeInference, TypeVariableGenerate, SpecFinalType, SpecTypeError};
use crate::type_inferencer::unification::{unification, unification_result, lemma_unification_resolves};

verus! {

/// The type of a whole program: infer it from the empty environment, solve
/// every constraint, and resolve the type under the solution. `None` where
/// inference crashes, which happens only when the variable counter would
/// pass `usize::MAX`.
pub open spec fn program_type(e: SpecExpr) -> Option<Result<SpecFinalType, SpecTypeError>> {
    match infer_expr(e, SpecEnv::empty(), InferState { constraints: Seq::empty(), fresh: 0 }) {
        Step::Crashed => None,
        Step::Failed(err, _) => Some(Err(err)),
        Step::Done(t, st) => {
            let (err, us) = unification_result(st.constraints);
            match err {
                Some(e) => Some(Err(e)),
                None => Some(Ok(finalize(t, us.substitutions))),
            }
        },
    }
}

/// Algorithm W on a whole program: its type, or why it has none.
pub fn type_inference(top_level_expr: &Expr) -> (r: Result<FinalType, TypeError>)
    requires
        program_type(top_level_expr@) is Some,
    ensures
        match r {
            Ok(t) => program_type(top_level_expr@) == Some(Ok::<SpecFinalType, SpecTypeError>(t@)),
            Err(e) => program_type(top_level_expr@) == Some(Err::<SpecFinalType, SpecTypeError>(e@)),
        },
{
    let mut inferred_types: Vec<TypeInference> = Vec::new();
    let mut type_var_generator = TypeVariableGenerate::new();
    let env = TypeEnv::new();
    assert(crate::type_inferencer::types::constraints_view(inferred_types@) =~= Seq::empty());
    let return_type: Box<Type> = infer_expr_type(top_level_expr, &env, &mut inferred_types, &mut type_var_generator)?;
    let ghost cs = crate::type_inferencer::types::constraints_view(inferred_types@);
    let substitutions = unification(&mut inferred_types)?;
    proof {
        lemma_unification_resolves(cs, return_type@);
    }
    apply_substitutions(*return_type, substitutions)
}

} // verus!
