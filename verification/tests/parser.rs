use std::collections::VecDeque;

use numerika::models::{ErrorList, Literal, OperationUnit, Operator, Term};
use numerika::parser::{parse_number, parse_operation};

fn operand(text: &str) -> OperationUnit {
    OperationUnit::Operand(Term::literal(Literal::from_text(text).unwrap()))
}

fn units(list: Vec<OperationUnit>) -> VecDeque<OperationUnit> {
    list.into_iter().collect()
}

#[test]
fn from_char_knows_the_five_operators() {
    assert_eq!(OperationUnit::from_char('+'), Some(Operator::Add));
    assert_eq!(OperationUnit::from_char('-'), Some(Operator::Minus));
    assert_eq!(OperationUnit::from_char('*'), Some(Operator::Multiply));
    assert_eq!(OperationUnit::from_char('/'), Some(Operator::Divide));
    assert_eq!(OperationUnit::from_char('!'), Some(Operator::Factorial));
}

#[test]
fn from_char_knows_no_other_character() {
    for c in ['0', '9', '.', ' ', 'a', '(', ')', '^', '%', '=', '\u{2212}', '\u{00d7}'] {
        assert_eq!(OperationUnit::from_char(c), None);
    }
}

#[test]
fn parse_number_accepts_decimal_literals() {
    for text in ["0", "5", "5.", ".5", "0.25", "123456789", "00.100", "9999999999999999999999"] {
        let literal = parse_number(&text.to_string()).unwrap();
        assert_eq!(literal.text(), text);
    }
}

#[test]
fn parse_number_accepts_signs_exponents_and_words() {
    for text in [
        "1e5", "-1", "+1", "inf", "nan", "1E5", "1e+5", "1e-5", "1.e5", ".5e05", "-.5", "+5.",
        "-1.25e-3", "1e99999999999999999999", "INF", "Inf", "infinity", "INFINITY", "InFiNiTy",
        "NaN", "NAN", "-inf", "+infinity", "-nan", "+NaN",
    ] {
        let literal = parse_number(&text.to_string()).unwrap();
        assert_eq!(literal.text(), text);
    }
}

#[test]
fn parse_number_rejects_everything_else() {
    for text in [
        "", ".", "..", "1.2.3", "1..", "..1", " 1", "1 ", "0x10", "1_0", "+", "-", "+-1", "--1",
        "e5", "1e", "1e+", "1e-", "1e5.", "1e1e1", ".e5", "-.", "+.e1", "in", "infi", "infinit",
        "infinityy", "na", "nann", "i nf", "1inf", "inf1", "++inf", "1f", "1d", "\u{661}",
        "\u{ff11}", "\u{131}nf", "\u{212a}", "1\u{0}",
    ] {
        assert_eq!(
            parse_number(&text.to_string()),
            Err(ErrorList::CannotParseNumber(text.to_string()))
        );
    }
}

/// Every text of up to `length` characters of `alphabet`.
fn texts(alphabet: &[char], length: usize) -> Vec<String> {
    let mut all = vec![String::new()];
    let mut last = vec![String::new()];
    for _ in 0..length {
        let mut longer = Vec::new();
        for text in &last {
            for c in alphabet {
                let mut next = text.clone();
                next.push(*c);
                longer.push(next);
            }
        }
        all.extend(longer.iter().cloned());
        last = longer;
    }
    all
}

fn assert_reads_as_the_floating_point_parser(text: &str) {
    let literal = Literal::from_text(text);
    assert_eq!(literal.is_some(), text.parse::<f64>().is_ok(), "{:?}", text);
    if let Some(literal) = literal {
        assert_eq!(literal.text(), text);
    }
}

#[test]
fn a_literal_is_what_the_floating_point_parser_accepts() {
    for text in texts(&['0', '7', '.'], 6) {
        assert_reads_as_the_floating_point_parser(&text);
    }
}

#[test]
fn a_number_is_what_the_floating_point_parser_accepts() {
    for text in texts(&['1', '.', 'e', 'E', '+', '-'], 6) {
        assert_reads_as_the_floating_point_parser(&text);
    }
}

#[test]
fn a_word_is_what_the_floating_point_parser_accepts() {
    for text in texts(&['i', 'n', 'f', 'a', 'N', 'I', '-'], 5) {
        assert_reads_as_the_floating_point_parser(&text);
    }
    for text in texts(&['i', 'n', 'f', 't', 'y', 'I', 'Y'], 3) {
        for word in ["infin", "+infin", "-INFIN", "nfini", "inf"] {
            assert_reads_as_the_floating_point_parser(&format!("{}{}", word, text));
            assert_reads_as_the_floating_point_parser(&format!("{}{}", text, word));
        }
    }
}

#[test]
fn a_numeral_is_what_the_floating_point_parser_accepts() {
    for text in texts(&['1', '.', 'e', '-', 'i', 'n', 'f', 'a', ' '], 5) {
        assert_reads_as_the_floating_point_parser(&text);
    }
    let others = ['\u{e9}', '\u{130}', '\u{131}', '\u{212a}', '\u{ff11}'];
    for c in (0u8..=127).map(char::from).chain(others) {
        for pattern in [
            "?", "1?", "?1", "1?1", "in?", "?nf", "na?", "i?f", "infinit?", "?nfinity", "1e?1",
            "1?5",
        ] {
            assert_reads_as_the_floating_point_parser(&pattern.replace('?', &c.to_string()));
        }
    }
}

#[test]
fn parse_operation_keeps_the_order_of_the_units() {
    assert_eq!(
        parse_operation(&"12+3.5*4!".to_string(), 0),
        Ok(units(vec![
            operand("12"),
            OperationUnit::Operator(Operator::Add),
            operand("3.5"),
            OperationUnit::Operator(Operator::Multiply),
            operand("4"),
            OperationUnit::Operator(Operator::Factorial),
        ]))
    );
}

#[test]
fn parse_operation_reads_every_digit_of_a_literal() {
    assert_eq!(parse_operation(&"1234567890".to_string(), 0), Ok(units(vec![operand("1234567890")])));
    assert_eq!(parse_operation(&"3.14159".to_string(), 0), Ok(units(vec![operand("3.14159")])));
}

#[test]
fn parse_operation_gives_no_units_for_no_significant_character() {
    assert_eq!(parse_operation(&"".to_string(), 0), Ok(VecDeque::new()));
    assert_eq!(parse_operation(&" \t\n".to_string(), 0), Ok(VecDeque::new()));
    assert_eq!(parse_operation(&"hello, world?".to_string(), 0), Ok(VecDeque::new()));
}

#[test]
fn parse_operation_passes_operators_on_as_they_stand() {
    assert_eq!(
        parse_operation(&"*/-+!".to_string(), 0),
        Ok(units(vec![
            OperationUnit::Operator(Operator::Multiply),
            OperationUnit::Operator(Operator::Divide),
            OperationUnit::Operator(Operator::Minus),
            OperationUnit::Operator(Operator::Add),
            OperationUnit::Operator(Operator::Factorial),
        ]))
    );
}

#[test]
fn parse_operation_skips_characters_without_ending_a_literal() {
    assert_eq!(parse_operation(&"1 2".to_string(), 0), Ok(units(vec![operand("12")])));
    assert_eq!(
        parse_operation(&"1 2 - 3".to_string(), 0),
        Ok(units(vec![operand("12"), OperationUnit::Operator(Operator::Minus), operand("3")]))
    );
    assert_eq!(
        parse_operation(&"  a1b+c2d  ".to_string(), 5),
        parse_operation(&"1+2".to_string(), 0)
    );
}

#[test]
fn parse_operation_reports_the_first_malformed_literal() {
    assert_eq!(
        parse_operation(&"1+2.3.4+5..6".to_string(), 0),
        Err(ErrorList::CannotParseNumber("2.3.4".to_string()))
    );
    assert_eq!(
        parse_operation(&"1+.".to_string(), 0),
        Err(ErrorList::CannotParseNumber(".".to_string()))
    );
    assert_eq!(
        parse_operation(&".*1".to_string(), 0),
        Err(ErrorList::CannotParseNumber(".".to_string()))
    );
}

#[test]
fn parse_operation_handles_characters_outside_ascii() {
    assert_eq!(
        parse_operation(&"3 \u{00d7} 4 \u{2212} 1 é".to_string(), 0),
        Ok(units(vec![operand("341")]))
    );
}
