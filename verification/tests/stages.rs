use std::collections::VecDeque;

use numerika::compute::{compute, compute_add_minus, compute_multiply_divide, compute_unary};
use numerika::models::{ErrorList, Instruction, Literal, OperationUnit, Operator, Term};

fn number(text: &str) -> Term {
    Term::literal(Literal::from_text(text).unwrap())
}

fn operand(text: &str) -> OperationUnit {
    OperationUnit::Operand(number(text))
}

fn units(list: Vec<OperationUnit>) -> VecDeque<OperationUnit> {
    list.into_iter().collect()
}

const ADD: OperationUnit = OperationUnit::Operator(Operator::Add);
const MINUS: OperationUnit = OperationUnit::Operator(Operator::Minus);
const MULTIPLY: OperationUnit = OperationUnit::Operator(Operator::Multiply);
const DIVIDE: OperationUnit = OperationUnit::Operator(Operator::Divide);
const FACTORIAL: OperationUnit = OperationUnit::Operator(Operator::Factorial);

#[test]
fn the_first_stage_resolves_factorials_and_signs() {
    let input = units(vec![MINUS, operand("2"), FACTORIAL, MULTIPLY, ADD, operand("3"), MINUS, MINUS, operand("4")]);
    let expected = units(vec![
        OperationUnit::Operand(number("2").negated().factorial()),
        MULTIPLY,
        operand("3"),
        MINUS,
        OperationUnit::Operand(number("4").negated()),
    ]);
    assert_eq!(compute_unary(&input), Ok(expected));
}

#[test]
fn the_first_stage_passes_unconnected_operands_on() {
    let input = units(vec![operand("2"), operand("3"), DIVIDE]);
    assert_eq!(compute_unary(&input), Ok(units(vec![operand("2"), operand("3"), DIVIDE])));
    assert_eq!(compute_unary(&VecDeque::new()), Ok(VecDeque::new()));
}

#[test]
fn the_first_stage_wants_an_operand_before_a_factorial() {
    assert_eq!(compute_unary(&units(vec![FACTORIAL])), Err(ErrorList::InvalidOperatorPosition));
    assert_eq!(
        compute_unary(&units(vec![operand("1"), MULTIPLY, FACTORIAL])),
        Err(ErrorList::InvalidOperatorPosition)
    );
}

#[test]
fn the_first_stage_wants_an_operand_behind_a_negation() {
    assert_eq!(compute_unary(&units(vec![MINUS])), Err(ErrorList::InvalidOperatorPosition));
    assert_eq!(compute_unary(&units(vec![MINUS, MINUS, operand("1")])), Err(ErrorList::InvalidOperatorPosition));
    assert_eq!(compute_unary(&units(vec![MINUS, ADD, operand("1")])), Err(ErrorList::InvalidOperatorPosition));
}

#[test]
fn the_second_stage_reduces_products_from_the_left() {
    let input = units(vec![operand("1"), ADD, operand("2"), MULTIPLY, operand("3"), DIVIDE, operand("4"), MINUS, operand("5")]);
    let product = number("2").times(number("3")).over(number("4"));
    let expected = units(vec![operand("1"), ADD, OperationUnit::Operand(product), MINUS, operand("5")]);
    assert_eq!(compute_multiply_divide(&input), Ok(expected));
}

#[test]
fn the_second_stage_wants_an_operand_on_both_sides() {
    for input in [
        vec![MULTIPLY, operand("1")],
        vec![operand("1"), MULTIPLY],
        vec![operand("1"), DIVIDE, ADD, operand("2")],
        vec![operand("1"), ADD, DIVIDE, operand("2")],
        vec![operand("1"), MULTIPLY, DIVIDE, operand("2")],
    ] {
        assert_eq!(compute_multiply_divide(&units(input)), Err(ErrorList::InvalidOperatorPosition));
    }
}

#[test]
fn the_second_stage_expects_factorials_to_be_resolved() {
    assert_eq!(
        compute_multiply_divide(&units(vec![operand("3"), FACTORIAL])),
        Err(ErrorList::ThisOperatorShouldBeAlreadyComputed)
    );
    assert_eq!(
        compute_multiply_divide(&units(vec![operand("3"), ADD, FACTORIAL, MULTIPLY])),
        Err(ErrorList::ThisOperatorShouldBeAlreadyComputed)
    );
}

#[test]
fn the_third_stage_folds_from_the_left() {
    let input = units(vec![operand("4"), MINUS, operand("3"), ADD, operand("2")]);
    let expected = number("4").minus(number("3")).plus(number("2"));
    assert_eq!(compute_add_minus(&input), Ok(expected));
    assert_eq!(compute_add_minus(&units(vec![operand("4")])), Ok(number("4")));
}

#[test]
fn the_third_stage_wants_exactly_one_operand_at_the_end() {
    assert_eq!(compute_add_minus(&VecDeque::new()), Err(ErrorList::Unknown));
    assert_eq!(compute_add_minus(&units(vec![operand("1"), operand("2")])), Err(ErrorList::Unknown));
    assert_eq!(
        compute_add_minus(&units(vec![operand("1"), operand("2"), ADD, operand("3")])),
        Err(ErrorList::Unknown)
    );
}

#[test]
fn the_third_stage_wants_an_operand_on_both_sides() {
    assert_eq!(compute_add_minus(&units(vec![operand("1"), ADD])), Err(ErrorList::Unknown));
    assert_eq!(compute_add_minus(&units(vec![operand("1"), MINUS, ADD, operand("2")])), Err(ErrorList::Unknown));
    assert_eq!(compute_add_minus(&units(vec![ADD, operand("1")])), Err(ErrorList::Unknown));
    assert_eq!(compute_add_minus(&units(vec![MINUS, operand("1")])), Err(ErrorList::Unknown));
}

#[test]
fn the_third_stage_expects_other_operators_to_be_resolved() {
    for operator in [MULTIPLY, DIVIDE, FACTORIAL] {
        assert_eq!(
            compute_add_minus(&units(vec![operand("1"), operator, operand("2")])),
            Err(ErrorList::ThisOperatorShouldBeAlreadyComputed)
        );
    }
}

#[test]
fn compute_runs_the_three_stages() {
    let input = units(vec![operand("1"), ADD, MINUS, operand("2"), FACTORIAL, MULTIPLY, operand("3")]);
    let expected = number("1").plus(number("2").negated().factorial().times(number("3")));
    assert_eq!(compute(&input, 0), Ok(expected));
}

#[test]
fn compute_accepts_operands_that_are_terms() {
    let sum = number("1").plus(number("2"));
    let input = units(vec![OperationUnit::Operand(sum.clone()), MULTIPLY, operand("3")]);
    assert_eq!(compute(&input, 0), Ok(sum.times(number("3"))));
}

#[test]
fn compute_reports_the_error_of_the_earliest_stage() {
    assert_eq!(compute(&units(vec![operand("1"), operand("2"), FACTORIAL, MULTIPLY]), 0), Err(ErrorList::InvalidOperatorPosition));
    assert_eq!(compute(&units(vec![operand("1"), ADD, MULTIPLY]), 0), Err(ErrorList::InvalidOperatorPosition));
    assert_eq!(compute(&units(vec![operand("1"), ADD]), 0), Err(ErrorList::Unknown));
    assert_eq!(compute(&VecDeque::new(), 0), Err(ErrorList::Unknown));
}

#[test]
fn compute_accepts_every_numeral_as_an_operand() {
    let input = units(vec![operand("1e3"), MULTIPLY, operand("-2"), ADD, operand("+.5E1")]);
    let term = compute(&input, 0).unwrap();
    assert_eq!(term, number("1e3").times(number("-2")).plus(number("+.5E1")));
    let texts: Vec<&str> = term
        .instructions()
        .iter()
        .filter_map(|instruction| match instruction {
            Instruction::Push(literal) => Some(literal.text().as_str()),
            _ => None,
        })
        .collect();
    assert_eq!(texts, ["1e3", "-2", "+.5E1"]);
    let input = units(vec![operand("inf"), MINUS, operand("NaN"), FACTORIAL]);
    assert_eq!(compute(&input, 0), Ok(number("inf").minus(number("NaN").factorial())));
}
