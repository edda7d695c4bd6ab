use calc::evaluator::{evaluate, Event, Plan};
use calc::pipeline::{scan_and_evaluate, PipelineError};
use calc::scanner::scan;
use calc::token::{BinOp, EvalError, LexError, Token};

/// Fold machine floats over an evaluation plan: slot `k` holds the value of
/// event `k`, and the plan's verified well-formedness makes every index hit
/// an earlier slot.
fn run_plan(plan: &Plan) -> f64 {
    let mut slots: Vec<f64> = Vec::new();
    for ev in plan.events.iter() {
        let v = match ev {
            Event::Literal(text) => {
                let s: String = text.iter().collect();
                s.parse::<f64>().unwrap()
            }
            Event::Apply(op, l, r) => {
                let a = slots[*l];
                let b = slots[*r];
                match op {
                    BinOp::Add => a + b,
                    BinOp::Sub => a - b,
                    BinOp::Mul => a * b,
                    BinOp::Div => a / b,
                    BinOp::Pow => a.powf(b),
                }
            }
        };
        slots.push(v);
    }
    slots[plan.result]
}

fn eval_value(input: &str) -> f64 {
    let tokens = scan(input.chars().collect()).unwrap();
    let plan = evaluate(tokens).unwrap();
    run_plan(&plan)
}

fn eval_err(input: &str) -> EvalError {
    let tokens = scan(input.chars().collect()).unwrap();
    evaluate(tokens).unwrap_err()
}

#[test]
fn multiplication_binds_tighter() {
    assert_eq!(eval_value("1 + 2 * 3"), 7.0_f64);
}

#[test]
fn parenthesis_overrides_precedence() {
    assert_eq!(eval_value("(1 + 2) * 3"), 9.0_f64);
}

#[test]
fn power_before_subtraction() {
    assert_eq!(eval_value("2 ^ 3 - 1"), 7.0_f64);
}

#[test]
fn repeated_addition_is_left_associative() {
    assert_eq!(eval_value("1 + 2 + 3 + 4"), 10.0_f64);
}

#[test]
fn repeated_subtraction_is_left_associative() {
    assert_eq!(eval_value("1 - 2 - 3"), -4.0_f64);
}

#[test]
fn power_is_left_associative() {
    assert_eq!(eval_value("2 ^ 3 ^ 2"), 64.0_f64);
}

#[test]
fn mixed_addition_and_subtraction_left_to_right() {
    // `+` and `-` share a rank: 1 + 2 - 3 + 4 is ((1 + 2) - 3) + 4
    assert_eq!(eval_value("1 + 2 - 3 + 4"), 4.0_f64);
}

#[test]
fn mixed_division_and_multiplication_left_to_right() {
    // `/` and `*` share a rank: 8 / 4 * 2 is (8 / 4) * 2
    assert_eq!(eval_value("8 / 4 * 2"), 4.0_f64);
}

#[test]
fn single_number() {
    assert_eq!(eval_value("42"), 42.0_f64);
}

#[test]
fn nested_parentheses() {
    assert_eq!(eval_value("((2))"), 2.0_f64);
}

#[test]
fn decimal_arithmetic() {
    assert_eq!(eval_value("1.5 * 4"), 6.0_f64);
}

#[test]
fn division_yields_fractions() {
    assert_eq!(eval_value("7 / 2"), 3.5_f64);
}

#[test]
fn division_by_zero_is_infinite() {
    let v = eval_value("1 / 0");
    assert!(v.is_infinite() && v.is_sign_positive());
}

#[test]
fn unmatched_right_parenthesis() {
    assert_eq!(eval_err("1 + 2)"), EvalError::MismatchedParenthesis);
}

#[test]
fn lone_right_parenthesis() {
    assert_eq!(eval_err(")"), EvalError::MismatchedParenthesis);
}

#[test]
fn empty_token_sequence() {
    assert_eq!(evaluate(Vec::<Token>::new()).unwrap_err(), EvalError::EmptyExpression);
}

#[test]
fn operator_without_operands() {
    assert_eq!(eval_err("+"), EvalError::InvalidExpression);
}

#[test]
fn unmatched_left_parenthesis() {
    assert_eq!(eval_err("(1"), EvalError::InvalidExpression);
}

#[test]
fn left_parenthesis_drained_as_operator() {
    // draining reaches the pending `(` with two operands still stacked
    assert_eq!(eval_err("(1 + 2 3"), EvalError::InvalidOperator);
}

#[test]
fn pipeline_computes_through_both_stages() {
    let plan = scan_and_evaluate("(8 - 3) * 2".chars().collect()).unwrap();
    assert_eq!(run_plan(&plan), 10.0_f64);
}

#[test]
fn pipeline_reports_lexical_errors() {
    let r = scan_and_evaluate("1 $ 2".chars().collect());
    assert_eq!(r.unwrap_err(), PipelineError::Lex(LexError::UnsupportedToken('$')));
}

#[test]
fn pipeline_reports_evaluation_errors() {
    let r = scan_and_evaluate("3 )".chars().collect());
    assert_eq!(r.unwrap_err(), PipelineError::Eval(EvalError::MismatchedParenthesis));
}

#[test]
fn rerunning_the_pipeline_yields_the_same_result() {
    let first = eval_value("2 ^ 3 - (4 / 5)");
    let second = eval_value("2 ^ 3 - (4 / 5)");
    assert_eq!(first.to_bits(), second.to_bits());
}
