use numerika::calculation::parse_and_compute;
use numerika::models::{ErrorList, Instruction, Term};

const SYMBOLS: [char; 6] = ['7', '+', '-', '*', '/', '!'];

/// Every text of up to `length` symbols.
fn texts(length: usize) -> Vec<String> {
    let mut all = vec![String::new()];
    let mut last = vec![String::new()];
    for _ in 0..length {
        let mut longer = Vec::new();
        for text in &last {
            for c in SYMBOLS {
                let mut next = text.clone();
                next.push(c);
                longer.push(next);
            }
        }
        all.extend(longer.iter().cloned());
        last = longer;
    }
    all
}

/// The symbols of a text in which a run of digits counts as one operand.
fn symbols(text: &str) -> Vec<char> {
    let mut list: Vec<char> = Vec::new();
    for c in text.chars() {
        if c == '7' && list.last() == Some(&'7') {
            continue;
        }
        list.push(c);
    }
    list
}

/// Reads the symbols once: is every operator where it may stand, and does
/// the text end with an operand?
fn is_expression(list: &[char]) -> bool {
    let mut after_operand = false;
    let mut i = 0;
    while i < list.len() {
        match list[i] {
            '7' => {
                if after_operand {
                    return false;
                }
                after_operand = true;
            }
            '!' => {
                if !after_operand {
                    return false;
                }
            }
            '+' => after_operand = false,
            '-' => {
                if after_operand {
                    after_operand = false;
                } else {
                    if list.get(i + 1) != Some(&'7') {
                        return false;
                    }
                    i += 1;
                    after_operand = true;
                }
            }
            _ => {
                if !after_operand {
                    return false;
                }
                after_operand = false;
            }
        }
        i += 1;
    }
    after_operand
}

/// Reads the symbols once: has every operator the operands that it needs?
fn has_operands(list: &[char]) -> bool {
    let mut after_operand = false;
    let mut after_product = false;
    let mut i = 0;
    while i < list.len() {
        match list[i] {
            '7' => {
                after_operand = true;
                after_product = false;
            }
            '!' => {
                if !after_operand {
                    return false;
                }
            }
            '+' => {
                if after_operand {
                    after_product = false;
                }
                after_operand = false;
            }
            '-' => {
                if after_operand {
                    after_operand = false;
                } else {
                    if list.get(i + 1) != Some(&'7') {
                        return false;
                    }
                    i += 1;
                    after_operand = true;
                }
                after_product = false;
            }
            _ => {
                if !after_operand {
                    return false;
                }
                after_operand = false;
                after_product = true;
            }
        }
        i += 1;
    }
    !after_product
}

#[test]
fn a_text_has_a_value_exactly_when_it_is_an_expression() {
    for text in texts(6) {
        let list = symbols(&text);
        let result = parse_and_compute(text.clone(), 0);
        assert_eq!(result.is_ok(), is_expression(&list), "{:?}", text);
    }
}

#[test]
fn the_error_tells_a_missing_operand_from_another_fault() {
    for text in texts(6) {
        let list = symbols(&text);
        let expected = if is_expression(&list) {
            None
        } else if has_operands(&list) {
            Some(ErrorList::Unknown)
        } else {
            Some(ErrorList::InvalidOperatorPosition)
        };
        assert_eq!(parse_and_compute(text.clone(), 0).err(), expected, "{:?}", text);
    }
}

fn value(term: &Term, verbosity: u8) -> Result<f64, ErrorList> {
    let mut stack: Vec<f64> = Vec::new();
    for instruction in term.instructions() {
        let next = match instruction {
            Instruction::Push(literal) => match literal.text().parse::<f64>() {
                Ok(n) => n,
                Err(_) => return Err(ErrorList::CannotParseNumber(literal.text().clone())),
            },
            Instruction::Negate => -operand(&mut stack)?,
            Instruction::Factorial => factorial(operand(&mut stack)?, verbosity),
            Instruction::Add => {
                let right = operand(&mut stack)?;
                operand(&mut stack)? + right
            }
            Instruction::Subtract => {
                let right = operand(&mut stack)?;
                operand(&mut stack)? - right
            }
            Instruction::Multiply => {
                let right = operand(&mut stack)?;
                operand(&mut stack)? * right
            }
            Instruction::Divide => {
                let right = operand(&mut stack)?;
                operand(&mut stack)? / right
            }
        };
        stack.push(next);
    }
    let result = operand(&mut stack)?;
    if stack.is_empty() {
        Ok(result)
    } else {
        Err(ErrorList::Unknown)
    }
}

fn operand(stack: &mut Vec<f64>) -> Result<f64, ErrorList> {
    stack.pop().ok_or(ErrorList::Unknown)
}

fn factorial(n: f64, verbosity: u8) -> f64 {
    let mut result: f64 = 1.0;
    let mut current = n;
    loop {
        if verbosity > 4 {
            println!(
                "factorial {:?} - loop current={:?} result={:?}",
                n, current, result
            )
        }
        if current < 1.5 || !result.is_finite() {
            return result;
        } else {
            result = result * current;
            current = current - 1.0;
        }
    }
}

/// The value of a factor of an expression, by the usual rules, and the
/// position behind it.
fn factor(list: &[char], digits: &[f64], at: usize) -> (f64, usize) {
    let mut at = at;
    while list[at] == '+' {
        at += 1;
    }
    let mut number = if list[at] == '-' {
        at += 1;
        -digits[at]
    } else {
        digits[at]
    };
    at += 1;
    while at < list.len() && list[at] == '!' {
        number = factorial(number, 0);
        at += 1;
    }
    (number, at)
}

/// The value of an expression, by the usual rules: factors first, then
/// products, then sums, each from the left.
fn usual_value(list: &[char], digits: &[f64]) -> f64 {
    let (mut product, mut at) = factor(list, digits, 0);
    let mut sum = 0.0;
    let mut negative = false;
    let mut first = true;
    loop {
        let operator = if at < list.len() { list[at] } else { '=' };
        if operator == '*' || operator == '/' {
            let (right, next) = factor(list, digits, at + 1);
            product = if operator == '*' { product * right } else { product / right };
            at = next;
            continue;
        }
        sum = if first {
            product
        } else if negative {
            sum - product
        } else {
            sum + product
        };
        first = false;
        if operator == '=' {
            return sum;
        }
        negative = operator == '-';
        let (right, next) = factor(list, digits, at + 1);
        product = right;
        at = next;
    }
}

#[test]
fn the_value_of_an_expression_follows_the_usual_rules() {
    let mut count = 0;
    for text in texts(6) {
        let list = symbols(&text);
        // A third factorial in a row would run for longer than a test may.
        if !is_expression(&list) || text.contains("!!!") {
            continue;
        }
        // Gives every operand its own number, so that the order of the
        // operands shows in the value.
        let mut digits = vec![0.0; list.len()];
        let mut written = String::new();
        let mut operand = 1;
        for (i, c) in list.iter().enumerate() {
            if *c == '7' {
                operand += 1;
                digits[i] = operand as f64 + 0.5;
                written.push_str(&format!("{}.5", operand));
            } else {
                written.push(*c);
            }
        }
        let term = parse_and_compute(written.clone(), 0).unwrap();
        let computed = value(&term, 0).unwrap();
        let expected = usual_value(&list, &digits);
        assert!(
            computed == expected || (computed.is_nan() && expected.is_nan()),
            "{:?}: {} and {}",
            written,
            computed,
            expected
        );
        count += 1;
    }
    assert!(count > 100);
}
