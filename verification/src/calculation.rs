//! The calculator's entry point: from the text of an expression to its value.
use crate::compute::{compute, evaluate_tokens, term_outcome};
use crate::failures::{explains, theorem_text_error_kinds};
use crate::models::{ErrorKind, ErrorList, Expr, Term};
use crate::parser::{parse_operation, tokenize};
use crate::syntax::{spells_sum, spells_value, theorem_text_value_iff_syntax};
use vstd::prelude::*;

verus! {

/// The value of the expression that `text` holds: the value of its tokens, or
/// the error that kept the text from being split into tokens.
pub open spec fn evaluate(text: Seq<char>) -> Result<Expr, ErrorKind> {
    match tokenize(text) {
        Err(e) => Err(e),
        Ok(tokens) => evaluate_tokens(tokens),
    }
}

/// Evaluates the expression that `str_calculation` holds.
///
/// Returns what [`evaluate`] defines: the term that the expression reduces to,
/// or the first error met.
///
/// * The result is a term if and only if the significant characters of the
///   text spell a sum of decimal literals ([`spells_sum`]), and the term is
///   then the value of that sum ([`spells_value`]).
/// * Otherwise the result is the error that [`explains`] describes, which is
///   never `ThisOperatorShouldBeAlreadyComputed`.
///
/// `verbosity` is the level of diagnostics that the caller asked for; the
/// result does not depend on it.
pub fn parse_and_compute(str_calculation: String, verbosity: u8) -> (result: Result<
    Term,
    ErrorList,
>)
    ensures
        term_outcome(result) == evaluate(str_calculation@),
        result is Ok <==> spells_sum(str_calculation@),
        result matches Ok(term) ==> spells_value(str_calculation@, term@),
        result matches Err(e) ==> explains(str_calculation@, e@),
{
    proof {
        theorem_text_value_iff_syntax(str_calculation@);
        if let Err(e) = evaluate(str_calculation@) {
            theorem_text_error_kinds(str_calculation@, e);
        }
    }
    match parse_operation(&str_calculation, verbosity) {
        Ok(operation) => compute(&operation, verbosity),
        Err(err) => Err(err),
    }
}

} // verus!
