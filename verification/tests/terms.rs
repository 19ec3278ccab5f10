use numerika::calculation::parse_and_compute;
use numerika::models::{ErrorList, Instruction, Literal, Term};

fn number(text: &str) -> Term {
    Term::literal(Literal::from_text(text).unwrap())
}

fn negate(a: Term) -> Term {
    a.negated()
}

fn factorial(a: Term) -> Term {
    a.factorial()
}

fn plus(a: Term, b: Term) -> Term {
    a.plus(b)
}

fn minus(a: Term, b: Term) -> Term {
    a.minus(b)
}

fn times(a: Term, b: Term) -> Term {
    a.times(b)
}

fn over(a: Term, b: Term) -> Term {
    a.over(b)
}

/// The instructions of a term, written out.
fn written(term: &Term) -> String {
    let words: Vec<String> = term
        .instructions()
        .iter()
        .map(|instruction| match instruction {
            Instruction::Push(literal) => literal.text().clone(),
            Instruction::Negate => "neg".to_string(),
            Instruction::Factorial => "!".to_string(),
            Instruction::Add => "+".to_string(),
            Instruction::Subtract => "-".to_string(),
            Instruction::Multiply => "*".to_string(),
            Instruction::Divide => "/".to_string(),
        })
        .collect();
    words.join(" ")
}

fn postfix_of(calculation: &str) -> String {
    written(&parse_and_compute(calculation.to_string(), 0).unwrap())
}

fn term_of(calculation: &str) -> Result<Term, ErrorList> {
    parse_and_compute(calculation.to_string(), 0)
}

#[test]
fn a_single_operator_applies_to_its_two_literals() {
    assert_eq!(term_of("3+2"), Ok(plus(number("3"), number("2"))));
    assert_eq!(term_of("3-2"), Ok(minus(number("3"), number("2"))));
    assert_eq!(term_of("3*2"), Ok(times(number("3"), number("2"))));
    assert_eq!(term_of("3/2"), Ok(over(number("3"), number("2"))));
    assert_eq!(term_of("0.5/.25"), Ok(over(number("0.5"), number(".25"))));
}

#[test]
fn a_literal_alone_is_its_own_term() {
    assert_eq!(term_of("42"), Ok(number("42")));
    assert_eq!(term_of("4.20"), Ok(number("4.20")));
}

#[test]
fn products_are_formed_before_sums() {
    assert_eq!(term_of("4+3*2"), Ok(plus(number("4"), times(number("3"), number("2")))));
    assert_eq!(term_of("4+3/2"), Ok(plus(number("4"), over(number("3"), number("2")))));
    assert_eq!(term_of("4-3*2"), Ok(minus(number("4"), times(number("3"), number("2")))));
    assert_eq!(term_of("4*3+2"), Ok(plus(times(number("4"), number("3")), number("2"))));
    assert_eq!(
        term_of("1*2+3*4"),
        Ok(plus(times(number("1"), number("2")), times(number("3"), number("4"))))
    );
}

#[test]
fn operators_of_one_level_associate_to_the_left() {
    assert_eq!(term_of("4-3-2"), Ok(minus(minus(number("4"), number("3")), number("2"))));
    assert_eq!(term_of("4/3/2"), Ok(over(over(number("4"), number("3")), number("2"))));
    assert_eq!(term_of("4/3*2"), Ok(times(over(number("4"), number("3")), number("2"))));
    assert_eq!(term_of("4-3+2"), Ok(plus(minus(number("4"), number("3")), number("2"))));
}

#[test]
fn a_sign_belongs_to_the_literal_behind_it() {
    assert_eq!(term_of("-7"), Ok(negate(number("7"))));
    assert_eq!(term_of("+7"), Ok(number("7")));
    assert_eq!(term_of("6*-2"), Ok(times(number("6"), negate(number("2")))));
    assert_eq!(term_of("6--2"), Ok(minus(number("6"), negate(number("2")))));
    assert_eq!(term_of("6+-2"), Ok(plus(number("6"), negate(number("2")))));
    assert_eq!(term_of("6-+2"), Ok(minus(number("6"), number("2"))));
}

#[test]
fn a_factorial_binds_tighter_than_the_binary_operators() {
    assert_eq!(term_of("2*3!"), Ok(times(number("2"), factorial(number("3")))));
    assert_eq!(term_of("2+3!"), Ok(plus(number("2"), factorial(number("3")))));
    assert_eq!(term_of("3!*2"), Ok(times(factorial(number("3")), number("2"))));
    assert_eq!(term_of("3!-2"), Ok(minus(factorial(number("3")), number("2"))));
    assert_eq!(term_of("2/3!"), Ok(over(number("2"), factorial(number("3")))));
}

#[test]
fn a_repeated_factorial_applies_to_the_factorial() {
    assert_eq!(term_of("3!!"), Ok(factorial(factorial(number("3")))));
    assert_eq!(term_of("3!!!"), Ok(factorial(factorial(factorial(number("3"))))));
}

#[test]
fn a_negation_is_applied_before_a_factorial() {
    assert_eq!(term_of("-3!"), Ok(factorial(negate(number("3")))));
}

#[test]
fn ignored_characters_do_not_change_the_term() {
    assert_eq!(term_of(" 3 + 2 "), term_of("3+2"));
    assert_eq!(term_of("x4y+z3 * 2 = ?"), term_of("4+3*2"));
    assert_eq!(term_of("(1+2)*3"), term_of("1+2*3"));
    assert_eq!(term_of("1\t.\n5"), Ok(number("1.5")));
    assert_eq!(term_of("1 . 2 . 3"), term_of("1.2.3"));
}

#[test]
fn a_term_can_be_copied() {
    let term = term_of("-1+2*3!/4-5").unwrap();
    assert_eq!(term.clone(), term);
}

#[test]
fn a_term_lists_its_operations_in_postfix_order() {
    assert_eq!(postfix_of("42"), "42");
    assert_eq!(postfix_of("3+2"), "3 2 +");
    assert_eq!(postfix_of("4+3*2"), "4 3 2 * +");
    assert_eq!(postfix_of("4*3+2"), "4 3 * 2 +");
    assert_eq!(postfix_of("4-3-2"), "4 3 - 2 -");
    assert_eq!(postfix_of("8/4/2"), "8 4 / 2 /");
    assert_eq!(postfix_of("-3!"), "3 neg !");
    assert_eq!(postfix_of("6*-2+1"), "6 2 neg * 1 +");
    assert_eq!(postfix_of("2!*2+1"), "2 ! 2 * 1 +");
    assert_eq!(postfix_of("1+2!!/+3.5"), "1 2 ! ! 3.5 / +");
}

#[test]
fn the_term_builders_list_the_operands_before_the_operation() {
    assert_eq!(written(&number("1")), "1");
    assert_eq!(written(&negate(number("1"))), "1 neg");
    assert_eq!(written(&factorial(number("1"))), "1 !");
    assert_eq!(written(&plus(number("1"), number("2"))), "1 2 +");
    assert_eq!(written(&minus(number("1"), number("2"))), "1 2 -");
    assert_eq!(written(&times(number("1"), number("2"))), "1 2 *");
    assert_eq!(written(&over(number("1"), number("2"))), "1 2 /");
    assert_eq!(
        written(&over(plus(number("1"), number("2")), minus(number("3"), number("4")))),
        "1 2 + 3 4 - /"
    );
}

#[test]
fn a_long_expression_is_no_deeper_than_a_short_one() {
    let mut sum = String::from("1");
    let mut product = String::from("2");
    let mut factorials = String::from("1");
    for _ in 0..200_000 {
        sum.push_str("+1");
        product.push_str("*1");
        factorials.push('!');
    }
    let term = parse_and_compute(sum, 0).unwrap();
    assert_eq!(term.instructions().len(), 400_001);
    assert_eq!(term.clone(), term);
    let term = parse_and_compute(product, 0).unwrap();
    assert_eq!(term.instructions().len(), 400_001);
    let term = parse_and_compute(factorials, 0).unwrap();
    assert_eq!(term.instructions().len(), 200_001);
}
