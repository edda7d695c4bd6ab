//! A small arithmetic-expression engine: a lexical scanner that turns a
//! character sequence into tokens, and an operator-precedence evaluator
//! that turns the token sequence into a schedule of binary operations.
//!
//! Floating-point arithmetic itself stays outside the verified core: the
//! evaluator emits a [`evaluator::Plan`], a slot-indexed list of literal
//! loads and binary applications in exact application order, which a thin
//! caller folds over machine floats.

pub mod token;
pub mod scanner;
pub mod scan_props;
pub mod evaluator;
pub mod pipeline;
