//! The tokenizer: from the text of an expression to its units.
use crate::models::{
    ErrorKind,
    ErrorList,
    Expr,
    Literal,
    OperationUnit,
    Term,
    Token,
    is_decimal,
    is_numeric_char,
    is_significant,
    operator_of,
    tokens_of,
};
use crate::compute::units_outcome;
use crate::lexical::{
    all_numeric,
    first_malformed,
    is_reading,
    theorem_first_malformed,
    theorem_reading,
};
use crate::numeral::{is_numeral, theorem_numeric_numeral};
use std::collections::VecDeque;
use vstd::prelude::*;

verus! {

/// `String::push` of the standard library, which vstd leaves unspecified. The
/// contract is taken on trust from its documentation: the character is appended
/// to the end of the string, and nothing else changes.
pub assume_specification[ String::push ](s: &mut String, ch: char)
    ensures
        final(s)@ == old(s)@.push(ch),
;

/// The tokens that a pending run of digits and decimal points gives when it
/// ends: none where nothing is pending, one operand where the run is a decimal
/// literal, and otherwise the error that holds the run.
pub open spec fn flush(pending: Seq<char>) -> Result<Seq<Token>, ErrorKind> {
    if pending.len() == 0 {
        Ok(Seq::empty())
    } else if is_decimal(pending) {
        Ok(seq![Token::Operand(Expr::Literal(pending))])
    } else {
        Err(ErrorKind::CannotParseNumber(pending))
    }
}

/// The tokenizer on the characters `rest` still to be read, with the run
/// `pending` of digits and decimal points read since the last operator, and
/// the tokens `out` produced so far.
///
/// * A digit or a decimal point joins the pending run.
/// * An operator symbol ends the pending run and is a token itself.
/// * Any other character is skipped: it does not even end the pending run.
/// * The end of the text ends the pending run.
pub open spec fn scan_text(rest: Seq<char>, pending: Seq<char>, out: Seq<Token>) -> Result<
    Seq<Token>,
    ErrorKind,
>
    decreases rest.len(),
{
    if rest.len() == 0 {
        match flush(pending) {
            Ok(literal) => Ok(out + literal),
            Err(e) => Err(e),
        }
    } else if is_numeric_char(rest[0]) {
        scan_text(rest.skip(1), pending.push(rest[0]), out)
    } else {
        match operator_of(rest[0]) {
            Some(op) => match flush(pending) {
                Ok(literal) => scan_text(
                    rest.skip(1),
                    Seq::empty(),
                    (out + literal).push(Token::Operator(op)),
                ),
                Err(e) => Err(e),
            },
            None => scan_text(rest.skip(1), pending, out),
        }
    }
}

/// The tokens of a text, or the first run in it that is no decimal literal.
pub open spec fn tokenize(text: Seq<char>) -> Result<Seq<Token>, ErrorKind> {
    scan_text(text, Seq::empty(), Seq::empty())
}

/// Whether the tokenizer skips `c`: every character but the digits, the
/// decimal point and the operator symbols is skipped.
pub fn is_ignored(c: char) -> (ignored: bool)
    ensures
        ignored == !is_significant(c),
{
    match c {
        '0' | '1' | '2' | '3' | '4' | '5' | '6' | '7' | '8' | '9' | '.' => false,
        _ => OperationUnit::from_char(c).is_none(),
    }
}

/// The mathematical form of the result of [`parse_number`].
pub open spec fn literal_outcome(r: Result<Literal, ErrorList>) -> Result<Seq<char>, ErrorKind> {
    match r {
        Ok(literal) => Ok(literal@),
        Err(e) => Err(e@),
    }
}

/// Reads `current_number` as a number.
///
/// Returns the literal with the same text where the text is a numeral
/// ([`is_numeral`]), and `CannotParseNumber` with the text where it is not.
/// Of the runs of digits and decimal points that the tokenizer hands over,
/// the numerals are the decimal literals ([`is_decimal`]).
pub fn parse_number(current_number: &String) -> (result: Result<Literal, ErrorList>)
    ensures
        literal_outcome(result) == if is_numeral(current_number@) {
            Ok::<Seq<char>, ErrorKind>(current_number@)
        } else {
            Err(ErrorKind::CannotParseNumber(current_number@))
        },
{
    match Literal::from_text(current_number.as_str()) {
        Some(n) => Ok(n),
        None => Err(ErrorList::CannotParseNumber(current_number.clone())),
    }
}

/// Splits the text of an expression into its units.
///
/// Returns what [`tokenize`] defines: the operands and operators of
/// `str_calculation` in their order, or `CannotParseNumber` with the first run
/// of digits and decimal points that is no decimal literal.
///
/// * Units are returned if and only if the text has a reading
///   ([`is_reading`]), and they are that reading: every run of digits and
///   decimal points as one literal, every operator symbol as its operator. A
///   text without any significant character gives the empty sequence.
/// * Otherwise the error holds the first malformed literal of the text
///   ([`first_malformed`]).
///
/// `verbosity` is the level of diagnostics that the caller asked for; the
/// result does not depend on it.
pub fn parse_operation(str_calculation: &String, verbosity: u8) -> (result: Result<
    VecDeque<OperationUnit>,
    ErrorList,
>)
    ensures
        units_outcome(result) == tokenize(str_calculation@),
        match result {
            Ok(units) => is_reading(tokens_of(units@), str_calculation@),
            Err(e) => e matches ErrorList::CannotParseNumber(run) && first_malformed(
                str_calculation@,
                run@,
            ),
        },
{
    let ghost text = str_calculation@;
    let mut operation: VecDeque<OperationUnit> = VecDeque::new();
    let mut current_number: String = String::new();
    proof {
        assert(tokens_of(operation@) =~= Seq::<Token>::empty());
        assert(text.skip(0) =~= text);
    }
    for c in it: str_calculation.as_str().chars()
        invariant
            text == str_calculation@,
            it.seq() == text,
            all_numeric(current_number@),
            scan_text(text.skip(it.index() as int), current_number@, tokens_of(operation@))
                == tokenize(text),
    {
        let ghost pending = current_number@;
        let ghost out = operation@;
        proof {
            assert(text.skip(it.index() as int)[0] == c);
            assert(text.skip(it.index() as int).skip(1) =~= text.skip(it.index() + 1));
            theorem_numeric_numeral(pending);
        }
        match c {
            '0' | '1' | '2' | '3' | '4' | '5' | '6' | '7' | '8' | '9' | '.' => {
                current_number.push(c);
            },
            _ => match OperationUnit::from_char(c) {
                Some(op) => {
                    if !current_number.as_str().is_empty() {
                        match parse_number(&current_number) {
                            Ok(n) => {
                                let unit = OperationUnit::Operand(Term::literal(n));
                                operation.push_back(unit);
                                current_number = String::new();
                                proof {
                                    assert(tokens_of(out.push(unit)) =~= tokens_of(out) + flush(
                                        pending,
                                    )->Ok_0);
                                }
                            },
                            Err(err) => {
                                proof {
                                    theorem_first_malformed(text, pending);
                                }
                                return Err(err);
                            },
                        }
                    }
                    let ghost flushed = operation@;
                    let unit = OperationUnit::Operator(op);
                    operation.push_back(unit);
                    proof {
                        assert(current_number@ =~= Seq::<char>::empty());
                        assert(tokens_of(flushed) =~= tokens_of(out) + flush(pending)->Ok_0);
                        assert(tokens_of(flushed.push(unit)) =~= tokens_of(flushed).push(unit@));
                    }
                },
                None => {},
            },
        }
    }
    proof {
        assert(text.skip(text.len() as int) =~= Seq::<char>::empty());
    }
    if !current_number.as_str().is_empty() {
        let ghost out = operation@;
        proof {
            theorem_numeric_numeral(current_number@);
        }
        match parse_number(&current_number) {
            Ok(n) => {
                let unit = OperationUnit::Operand(Term::literal(n));
                operation.push_back(unit);
                proof {
                    assert(tokens_of(out.push(unit)) =~= tokens_of(out) + flush(
                        current_number@,
                    )->Ok_0);
                }
            },
            Err(err) => {
                proof {
                    theorem_first_malformed(text, current_number@);
                }
                return Err(err);
            },
        }
    } else {
        proof {
            assert(tokens_of(operation@) + Seq::<Token>::empty() =~= tokens_of(operation@));
        }
    }
    proof {
        theorem_reading(text, tokens_of(operation@));
    }
    Ok(operation)
}

} // verus!
