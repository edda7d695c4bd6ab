//! The two stages in fixed sequence: scan, then evaluate.

use vstd::prelude::*;

use crate::token::{EvalError, LexError};
use crate::scanner::{scan, scan_model};
use crate::evaluator::{evaluate, eval_model, Plan, PlanV, plan_wf};

verus! {

/// The failure of either stage.
#[derive(Debug, Clone, PartialEq)]
pub enum PipelineError {
    Lex(LexError),
    Eval(EvalError),
}

/// What the whole pipeline yields for an input: the evaluation plan of its
/// token sequence, a lexical error, or a structural error.
pub open spec fn pipeline_model(s: Seq<char>) -> Result<Result<PlanV, EvalError>, LexError> {
    match scan_model(s) {
        Ok(ts) => Ok(eval_model(ts)),
        Err(e) => Err(e),
    }
}

/// Scan an input and evaluate its tokens: exactly the plan of
/// [`pipeline_model`], or the first error of the failing stage.
pub fn scan_and_evaluate(input: Vec<char>) -> (r: Result<Plan, PipelineError>)
    ensures
        match r {
            Ok(p) => pipeline_model(input@) == Ok::<Result<PlanV, EvalError>, LexError>(
                Ok(p@),
            ) && plan_wf(p@),
            Err(PipelineError::Lex(e)) => pipeline_model(input@) == Err::<
                Result<PlanV, EvalError>,
                LexError,
            >(e),
            Err(PipelineError::Eval(e)) => pipeline_model(input@) == Ok::<
                Result<PlanV, EvalError>,
                LexError,
            >(Err(e)),
        },
{
    match scan(input) {
        Ok(tokens) => {
            match evaluate(tokens) {
                Ok(p) => Ok(p),
                Err(e) => Err(PipelineError::Eval(e)),
            }
        },
        Err(e) => Err(PipelineError::Lex(e)),
    }
}

/// Scanning and evaluating are functions of the input characters alone:
/// run twice over the same input they yield the same tokens, the same plan
/// and the same errors, there being no state outside the input.
pub proof fn lemma_pipeline_deterministic(s1: Seq<char>, s2: Seq<char>)
    requires
        s1 == s2,
    ensures
        scan_model(s1) == scan_model(s2),
        pipeline_model(s1) == pipeline_model(s2),
{
}

} // verus!
