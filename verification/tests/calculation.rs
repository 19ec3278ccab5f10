use std::collections::VecDeque;

use numerika::calculation::parse_and_compute;
use numerika::compute::compute;
use numerika::models::{ErrorList, Instruction, Literal, OperationUnit, Operator, Term};

fn value(term: &Term, verbosity: u8) -> Result<f64, ErrorList> {
    let mut stack: Vec<f64> = Vec::new();
    for instruction in term.instructions() {
        let next = match instruction {
            Instruction::Push(literal) => match literal.text().parse::<f64>() {
                Ok(n) => n,
                Err(_) => return Err(ErrorList::CannotParseNumber(literal.text().clone())),
            },
            Instruction::Negate => -operand(&mut stack)?,
            Instruction::Factorial => factorial(operand(&mut stack)?, verbosity),
            Instruction::Add => {
                let right = operand(&mut stack)?;
                operand(&mut stack)? + right
            }
            Instruction::Subtract => {
                let right = operand(&mut stack)?;
                operand(&mut stack)? - right
            }
            Instruction::Multiply => {
                let right = operand(&mut stack)?;
                operand(&mut stack)? * right
            }
            Instruction::Divide => {
                let right = operand(&mut stack)?;
                operand(&mut stack)? / right
            }
        };
        stack.push(next);
    }
    let result = operand(&mut stack)?;
    if stack.is_empty() {
        Ok(result)
    } else {
        Err(ErrorList::Unknown)
    }
}

fn operand(stack: &mut Vec<f64>) -> Result<f64, ErrorList> {
    stack.pop().ok_or(ErrorList::Unknown)
}

fn factorial(n: f64, verbosity: u8) -> f64 {
    let mut result: f64 = 1.0;
    let mut current = n;
    loop {
        if verbosity > 4 {
            println!(
                "factorial {:?} - loop current={:?} result={:?}",
                n, current, result
            )
        }
        if current < 1.5 || !result.is_finite() {
            return result;
        } else {
            result = result * current;
            current = current - 1.0;
        }
    }
}

fn assert_ok(calculation: &str, result: f64) {
    let expected: Result<f64, ErrorList> = Ok(result);
    let computed = parse_and_compute(calculation.to_string(), 5).and_then(|term| value(&term, 0));
    assert_eq!(computed, expected);
}

#[test]
fn it_should_handle_explicit_positive_value() {
    assert_ok("+2", 2.0);
    assert_ok("+2.0", 2.0);
    assert_ok("+2.1", 2.1);
}

#[test]
fn it_should_handle_negative_value() {
    assert_ok("-2", -2.0);
    assert_ok("-2.0", -2.0);
    assert_ok("-2.1", -2.1);
}

#[test]
fn it_should_handle_operation_with_negatives_value() {
    assert_ok("-2+1", -1.0);
    assert_ok("-2*6", -12.0);
    assert_ok("6*-2", -12.0);
    assert_ok("1+6*-2", -11.0);
    assert_ok("6*-2+1", -11.0);
    assert_ok("6*-2-3", -15.0);
    assert_ok("-3+6*-2", -15.0);
}

#[test]
fn it_should_handle_one_operator_add() {
    assert_ok("3+2", 5.0);
}

#[test]
fn it_should_handle_one_operator_minus() {
    assert_ok("3-2", 1.0);
}

#[test]
fn it_should_handle_one_operator_multiply() {
    assert_ok("3*2", 6.0);
}

#[test]
fn it_should_handle_one_operator_divide() {
    assert_ok("3/2", 1.5);
}

#[test]
fn it_should_handle_multiple_add_operator() {
    assert_ok("4+3+2+1", 10.0);
}

#[test]
fn it_should_handle_mix_add_minus_operator() {
    assert_ok("4-3+2-1", 2.0);
}

#[test]
fn it_should_handle_add_multiply_operator_priority() {
    assert_ok("4+3*2", 10.0);
    assert_ok("4+3*2+1", 11.0);
}

#[test]
fn it_should_handle_add_divide_operator_priority() {
    assert_ok("4+3/2+1", 6.5);
}

#[test]
fn it_should_handle_float_number() {
    assert_ok("3.0+2.0", 5.0);
    assert_ok("4.0+3.0+2.0-1.0", 8.0);
    assert_ok("4.0+3.0/2.0+1.0", 6.5);
    assert_ok("4.2*1.3", 5.460000000000001);
}

#[test]
fn it_should_ignore_invalid_characters() {
    assert_ok("        3 + 2   ", 5.0);
    assert_ok("        3.0 + 2.0   ", 5.0);
    assert_ok("4 +3 +2+1", 10.0);
    assert_ok("4+3/ 2+ 1", 6.5);
}

#[test]
fn it_should_handle_simple_factorial() {
    assert_ok("1!", 1.0);
    assert_ok("2!", 2.0);
    assert_ok("3!", 6.0);
    assert_ok("4!", 24.0);
    assert_ok("5!", 120.0);
    assert_ok("6!", 720.0);
    assert_ok("7!", 5040.0);
}

#[test]
fn it_should_handle_multiple_factorial() {
    assert_ok("1!!", 1.0);
    assert_ok("2!!", 2.0);
    assert_ok("3!!", 720.0);
}

#[test]
fn it_should_handle_factorial_with_other_operations() {
    assert_ok("1+1!", 2.0);
    assert_ok("1+2!", 3.0);
    assert_ok("1+3!", 7.0);
    assert_ok("2*1!", 2.0);
    assert_ok("2*2!", 4.0);
    assert_ok("2*3!", 12.0);
}

#[test]
fn it_should_handle_factorial_combine_with_multiplication_permutability() {
    assert_ok("2*1!", 2.0);
    assert_ok("1!*2", 2.0);
    assert_ok("2*2!", 4.0);
    assert_ok("2!*2", 4.0);
    assert_ok("2*3!", 12.0);
    assert_ok("3!*2", 12.0);
}

#[test]
fn it_should_handle_factorial_combine_with_addition_permutability() {
    assert_ok("1+1!", 2.0);
    assert_ok("1!+1", 2.0);
    assert_ok("1+2!", 3.0);
    assert_ok("2!+1", 3.0);
    assert_ok("1+3!", 7.0);
    assert_ok("3!+1", 7.0);
}

#[test]
fn it_should_handle_factorial_combine_with_addition_and_multiplication_permutability() {
    assert_ok("1+2!*2", 5.0);
    assert_ok("1+2*2!", 5.0);
    assert_ok("2*2!+1", 5.0);
    assert_ok("2!*2+1", 5.0);
}

#[test]
fn it_should_evaluate_the_reference_scenarios() {
    assert_ok("3+2", 5.0);
    assert_ok("4+3*2", 10.0);
    assert_ok("4+3/2+1", 6.5);
    assert_ok("6*-2+1", -11.0);
    assert_ok("2!*2+1", 5.0);
    assert_ok("1!!", 1.0);
}

#[test]
fn it_should_apply_operators_of_one_level_from_the_left() {
    assert_ok("8-3-2", 3.0);
    assert_ok("8/4/2", 1.0);
    assert_ok("8/4*2", 4.0);
    assert_ok("2*3/4", 1.5);
}

#[test]
fn it_should_divide_by_zero_as_floating_point_does() {
    assert_ok("1/0", f64::INFINITY);
    assert_ok("-1/0", f64::NEG_INFINITY);
    let undefined = parse_and_compute("0/0".to_string(), 0).and_then(|term| value(&term, 0));
    assert!(matches!(undefined, Ok(n) if n.is_nan()));
}

#[test]
fn it_should_read_literals_with_a_bare_decimal_point() {
    assert_ok("5.", 5.0);
    assert_ok(".5", 0.5);
    assert_ok("5.+.5", 5.5);
    assert_ok("007", 7.0);
}

#[test]
fn it_should_join_digits_across_ignored_characters() {
    assert_ok("1 2", 12.0);
    assert_ok("1a2+b3", 15.0);
    assert_ok("1_000", 1000.0);
}

#[test]
fn it_should_take_the_factorial_of_zero_and_of_negatives_as_one() {
    assert_ok("0!", 1.0);
    assert_ok("-3!", 1.0);
    assert_ok("-3!+1", 2.0);
}

#[test]
fn it_should_take_the_factorial_of_a_fraction_as_descending_product() {
    assert_ok("2.5!", 3.75);
    assert_ok("1.5!", 1.5);
    assert_ok("1.4!", 1.0);
}

#[test]
fn it_should_drop_redundant_plus_signs() {
    assert_ok("++2", 2.0);
    assert_ok("2++2", 4.0);
    assert_ok("2*+2", 4.0);
    assert_ok("+-2", -2.0);
    assert_ok("2--2", 4.0);
}

#[test]
fn it_should_not_depend_on_verbosity() {
    for verbosity in [0u8, 1, 2, 5, 255] {
        let computed =
            parse_and_compute("4+3*2".to_string(), verbosity).and_then(|term| value(&term, 0));
        assert_eq!(computed, Ok(10.0));
        assert_eq!(
            parse_and_compute("4+*".to_string(), verbosity),
            Err(ErrorList::InvalidOperatorPosition)
        );
    }
}

#[test]
fn it_should_reject_an_empty_expression() {
    assert_eq!(parse_and_compute("".to_string(), 0), Err(ErrorList::Unknown));
    assert_eq!(parse_and_compute("   ".to_string(), 0), Err(ErrorList::Unknown));
    assert_eq!(parse_and_compute("abc".to_string(), 0), Err(ErrorList::Unknown));
    assert_eq!(parse_and_compute("+".to_string(), 0), Err(ErrorList::Unknown));
}

#[test]
fn it_should_reject_a_malformed_literal() {
    assert_eq!(
        parse_and_compute("1.2.3".to_string(), 0),
        Err(ErrorList::CannotParseNumber("1.2.3".to_string()))
    );
    assert_eq!(
        parse_and_compute(".".to_string(), 0),
        Err(ErrorList::CannotParseNumber(".".to_string()))
    );
    assert_eq!(
        parse_and_compute("1+2..5*3".to_string(), 0),
        Err(ErrorList::CannotParseNumber("2..5".to_string()))
    );
    assert_eq!(
        parse_and_compute("1. 2 .3+".to_string(), 0),
        Err(ErrorList::CannotParseNumber("1.2.3".to_string()))
    );
    assert_eq!(
        parse_and_compute("*..+...".to_string(), 0),
        Err(ErrorList::CannotParseNumber("..".to_string()))
    );
}

#[test]
fn it_should_reject_an_operator_without_its_operand() {
    for calculation in ["3*", "3/", "*3", "/3", "!", "!3", "3**2", "3*/2", "--3", "-+3", "3*-", "-", "3+!"] {
        assert_eq!(
            parse_and_compute(calculation.to_string(), 0),
            Err(ErrorList::InvalidOperatorPosition),
            "{}",
            calculation
        );
    }
}

#[test]
fn it_should_reject_a_trailing_binary_sign_and_unconnected_operands() {
    for calculation in ["3+", "3-", "3++", "2!3", "-2-", "2!2!"] {
        assert_eq!(
            parse_and_compute(calculation.to_string(), 0),
            Err(ErrorList::Unknown),
            "{}",
            calculation
        );
    }
}

#[test]
fn it_should_report_a_misplaced_operator_wherever_it_stands() {
    for calculation in ["2!3*", "2!3/4*", "3+*4", "2!3+!", "1+2!3--"] {
        assert_eq!(
            parse_and_compute(calculation.to_string(), 0),
            Err(ErrorList::InvalidOperatorPosition),
            "{}",
            calculation
        );
    }
    for calculation in ["2!3", "2!3+", "2!3*4", "+2!3"] {
        assert_eq!(
            parse_and_compute(calculation.to_string(), 0),
            Err(ErrorList::Unknown),
            "{}",
            calculation
        );
    }
}

#[test]
fn it_should_report_a_malformed_literal_before_any_other_error() {
    assert_eq!(
        parse_and_compute("*1.2.3*".to_string(), 0),
        Err(ErrorList::CannotParseNumber("1.2.3".to_string()))
    );
    assert_eq!(
        parse_and_compute("!+.".to_string(), 0),
        Err(ErrorList::CannotParseNumber(".".to_string()))
    );
}

#[test]
fn it_should_take_the_factorial_of_a_large_operand_as_infinite() {
    let largest = parse_and_compute("170!".to_string(), 0).and_then(|term| value(&term, 0));
    assert!(matches!(largest, Ok(n) if n.is_finite() && n > 7.25e306 && n < 7.26e306));
    assert_ok("171!", f64::INFINITY);
    assert_ok("1000000!", f64::INFINITY);
    assert_ok("9007199254740992!", f64::INFINITY);
    assert_ok("100000000000000000000!", f64::INFINITY);
    assert_ok("3!!!!", f64::INFINITY);
    let digits = "9".repeat(400);
    assert_ok(&digits, f64::INFINITY);
    assert_ok(&format!("{}!", digits), f64::INFINITY);
    assert_ok(&format!("1/{}!", digits), 0.0);
}

#[test]
fn it_should_take_the_factorial_of_small_integers_exactly() {
    let mut expected = 1.0;
    assert_ok("0!", expected);
    for n in 1..=18 {
        expected = expected * n as f64;
        assert_ok(&format!("{}!", n), expected);
    }
    assert_ok("18!", 6402373705728000.0);
}

fn factorial_of(numeral: &str) -> f64 {
    let mut operation = VecDeque::new();
    operation.push_back(OperationUnit::Operand(Term::literal(Literal::from_text(numeral).unwrap())));
    operation.push_back(OperationUnit::Operator(Operator::Factorial));
    compute(&operation, 0).and_then(|term| value(&term, 0)).unwrap()
}

#[test]
fn it_should_end_the_factorial_of_what_is_no_finite_number() {
    assert!(factorial_of("nan").is_nan());
    assert!(factorial_of("-NaN").is_nan());
    assert_eq!(factorial_of("inf"), f64::INFINITY);
    assert_eq!(factorial_of("-inf"), 1.0);
    assert_eq!(factorial_of("1e300"), f64::INFINITY);
    assert_eq!(factorial_of("-1e300"), 1.0);
    assert_eq!(factorial_of("2.5e0"), 3.75);
}
