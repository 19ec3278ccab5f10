//! Which error a sequence of tokens without a value gets.
//!
//! The error is `InvalidOperatorPosition` where an operator lacks an operand
//! that it needs, wherever in the sequence that is, and `Unknown` where all
//! operators have their operands and the sequence is still no expression.
//! [`operators_placed`] says in one reading of the sequence what it is for
//! every operator to have its operands.
use crate::compute::{
    evaluate_tokens,
    last_operand,
    operand_at,
    resolve_mul_div,
    resolve_unary,
    scan_unary,
    step_unary,
};
use crate::calculation::evaluate;
use crate::lexical::{
    first_malformed,
    is_reading,
    theorem_first_malformed,
    theorem_operator_splits_text,
    theorem_reading,
};
use crate::models::{ErrorKind, Expr, Operator, Token, operator_of};
use crate::parser::tokenize;
use crate::stages::{
    is_multiplicative,
    lemma_mul_div_succeeds,
    products_placed,
    theorem_mul_div_output,
    theorem_text_errors,
    theorem_token_errors,
    theorem_unary_output,
};
use crate::syntax::{lemma_unary_keeps_kinds, same_kind, theorem_value_iff_syntax, well_formed};
use vstd::prelude::*;

verus! {

/// Every operator of `rest` has the operands that it needs, where
/// `after_operand` says whether the tokens read before end with a complete
/// operand, and `after_product` whether they end with a `*` or `/` that still
/// waits for its right operand.
///
/// * `!` stands behind an operand or a `!`.
/// * `*` and `/` stand behind an operand or a `!`, and an operand follows
///   them, with its sign if it has one.
/// * `-` stands behind an operand or a `!`, or directly before an operand.
pub open spec fn places(rest: Seq<Token>, after_operand: bool, after_product: bool) -> bool
    decreases rest.len(),
{
    if rest.len() == 0 {
        !after_product
    } else {
        match rest[0] {
            Token::Operand(_) => places(rest.skip(1), true, false),
            Token::Operator(Operator::Factorial) => after_operand && places(
                rest.skip(1),
                true,
                false,
            ),
            Token::Operator(Operator::Add) => places(
                rest.skip(1),
                false,
                !after_operand && after_product,
            ),
            Token::Operator(Operator::Minus) => if after_operand {
                places(rest.skip(1), false, false)
            } else {
                operand_at(rest, 1) is Some && places(rest.skip(2), true, false)
            },
            Token::Operator(_) => after_operand && places(rest.skip(1), false, true),
        }
    }
}

/// Every operator of the sequence has the operands that it needs.
pub open spec fn operators_placed(tokens: Seq<Token>) -> bool {
    places(tokens, false, false)
}

/// In what the first stage has put out, every `*` and `/` stands directly
/// behind an operand, and directly before one unless it is the last token.
spec fn placed_within(out: Seq<Token>) -> bool {
    forall|j: int|
        0 <= j < out.len() ==> {
            &&& #[trigger] out[j] != Token::Operator(Operator::Factorial)
            &&& is_multiplicative(out[j]) ==> operand_at(out, j - 1) is Some && (j + 1 < out.len()
                ==> operand_at(out, j + 1) is Some)
        }
}

/// `out` ends with a `*` or `/`.
spec fn ends_with_product(out: Seq<Token>) -> bool {
    out.len() > 0 && is_multiplicative(out.last())
}

/// The first two stages succeed one after the other exactly where every
/// operator has its operands.
proof fn lemma_unary_places(rest: Seq<Token>, out: Seq<Token>)
    requires
        placed_within(out),
    ensures
        (scan_unary(rest, out) matches Ok(signed) && products_placed(Seq::empty(), signed))
            <==> places(rest, last_operand(out) is Some, ends_with_product(out)),
    decreases rest.len(),
{
    let none = Seq::<Token>::empty();
    if rest.len() == 0 {
        if placed_within(out) && !ends_with_product(out) {
            assert forall|j: int| 0 <= j < out.len() implies {
                &&& #[trigger] out[j] != Token::Operator(Operator::Factorial)
                &&& is_multiplicative(out[j]) ==> operand_at(out, j + 1) is Some && if j == 0 {
                    last_operand(none) is Some
                } else {
                    operand_at(out, j - 1) is Some
                }
            } by {}
        }
        if products_placed(none, out) && ends_with_product(out) {
            assert(is_multiplicative(out[out.len() - 1]));
        }
    } else {
        if let Ok((step, grown)) = step_unary(rest, out) {
            let tail = rest.skip(step);
            assert(scan_unary(rest, out) == scan_unary(tail, grown));
            let product = is_multiplicative(rest[0]);
            if product && !(last_operand(out) is Some) {
                lemma_unary_misplaced(tail, grown, out.len() as int);
            } else {
                assert(placed_within(grown)) by {
                    assert forall|j: int| 0 <= j < grown.len() implies {
                        &&& #[trigger] grown[j] != Token::Operator(Operator::Factorial)
                        &&& is_multiplicative(grown[j]) ==> operand_at(grown, j - 1) is Some && (j
                            + 1 < grown.len() ==> operand_at(grown, j + 1) is Some)
                    } by {
                        if j < out.len() {
                            assert(out[j] == out[j]);
                        }
                    }
                }
                lemma_unary_places(tail, grown);
            }
        }
    }
}

/// Once a `*` or `/` has been put out that does not stand behind an operand,
/// the second stage cannot succeed on what the first stage returns.
proof fn lemma_unary_misplaced(rest: Seq<Token>, out: Seq<Token>, at: int)
    requires
        0 <= at < out.len(),
        is_multiplicative(out[at]),
        !(operand_at(out, at - 1) is Some),
    ensures
        scan_unary(rest, out) matches Ok(signed) ==> !products_placed(Seq::empty(), signed),
    decreases rest.len(),
{
    if let Ok(signed) = scan_unary(rest, out) {
        lemma_unary_keeps_kinds(rest, out);
        assert(same_kind(out[at], signed[at]));
        if at > 0 {
            assert(same_kind(out[at - 1], signed[at - 1]));
        }
        assert(is_multiplicative(signed[at]) && !(operand_at(signed, at - 1) is Some));
    }
}

/// The first two stages succeed one after the other if and only if every
/// operator of the sequence has the operands that it needs.
pub proof fn theorem_operators_placed(tokens: Seq<Token>)
    ensures
        (resolve_unary(tokens) matches Ok(signed) && resolve_mul_div(signed) is Ok)
            <==> operators_placed(tokens),
{
    let none = Seq::<Token>::empty();
    lemma_unary_places(tokens, none);
    if let Ok(signed) = resolve_unary(tokens) {
        lemma_mul_div_succeeds(signed, none);
    }
}

/// The result of an evaluation, case by case. A well-formed sequence has a
/// value. Another sequence in which every operator has its operands fails
/// with `Unknown`. Any other sequence fails with `InvalidOperatorPosition`.
pub proof fn theorem_error_kinds(tokens: Seq<Token>)
    ensures
        well_formed(tokens) ==> operators_placed(tokens),
        evaluate_tokens(tokens) is Ok <==> well_formed(tokens),
        evaluate_tokens(tokens) == Err::<Expr, ErrorKind>(ErrorKind::Unknown) <==> operators_placed(
            tokens,
        ) && !well_formed(tokens),
        evaluate_tokens(tokens) == Err::<Expr, ErrorKind>(ErrorKind::InvalidOperatorPosition)
            <==> !operators_placed(tokens),
{
    theorem_operators_placed(tokens);
    theorem_value_iff_syntax(tokens);
    theorem_token_errors(tokens);
    theorem_unary_output(tokens);
    if let Ok(signed) = resolve_unary(tokens) {
        theorem_mul_div_output(signed);
        if let Ok(products) = resolve_mul_div(signed) {
            crate::stages::theorem_add_sub_failure(products);
        }
    }
}

/// A sequence that ends with `*` or `/` holds an operator without its right
/// operand.
proof fn lemma_places_dangling(rest: Seq<Token>, after_operand: bool, after_product: bool)
    requires
        rest.len() > 0,
        is_multiplicative(rest.last()),
    ensures
        !places(rest, after_operand, after_product),
    decreases rest.len(),
{
    if rest.len() == 1 {
        assert(!places(rest.skip(1), false, true));
    } else {
        assert(rest.skip(1).last() == rest.last());
        match rest[0] {
            Token::Operand(_) => {
                lemma_places_dangling(rest.skip(1), true, false);
            },
            Token::Operator(Operator::Factorial) => {
                lemma_places_dangling(rest.skip(1), true, false);
            },
            Token::Operator(Operator::Add) => {
                lemma_places_dangling(rest.skip(1), false, !after_operand && after_product);
            },
            Token::Operator(Operator::Minus) => {
                if after_operand {
                    lemma_places_dangling(rest.skip(1), false, false);
                } else if operand_at(rest, 1) is Some {
                    assert(rest.skip(2).last() == rest.last());
                    lemma_places_dangling(rest.skip(2), true, false);
                }
            },
            Token::Operator(_) => {
                lemma_places_dangling(rest.skip(1), false, true);
            },
        }
    }
}

/// A sequence of tokens that begins with `*`, `/` or `!`, or ends with `*` or
/// `/`, holds an operator without the operand that it needs, and its
/// evaluation fails with `InvalidOperatorPosition`.
///
/// A `+` or `-` is not among them. At the beginning it is a sign. At the end,
/// behind an operand, it is a binary operator that the third stage finds
/// without its right operand, and the error is `Unknown`.
pub proof fn theorem_dangling_operator(input: Seq<Token>)
    requires
        input.len() > 0,
        is_multiplicative(input[0]) || input[0] == Token::Operator(Operator::Factorial)
            || is_multiplicative(input.last()),
    ensures
        evaluate_tokens(input) == Err::<Expr, ErrorKind>(ErrorKind::InvalidOperatorPosition),
{
    theorem_error_kinds(input);
    if is_multiplicative(input.last()) {
        lemma_places_dangling(input, false, false);
    }
}

/// The error that a text without a value gets.
///
/// * `CannotParseNumber` holds the first malformed literal of the text.
/// * `InvalidOperatorPosition` says that the text has a reading in which
///   some operator lacks an operand that it needs.
/// * `Unknown` says that the text has a reading in which every operator has
///   its operands, and which is still no expression.
/// * `ThisOperatorShouldBeAlreadyComputed` is never the error of a text.
pub open spec fn explains(text: Seq<char>, e: ErrorKind) -> bool {
    match e {
        ErrorKind::CannotParseNumber(run) => first_malformed(text, run),
        ErrorKind::InvalidOperatorPosition => exists|tokens: Seq<Token>|
            is_reading(tokens, text) && !operators_placed(tokens),
        ErrorKind::Unknown => exists|tokens: Seq<Token>|
            is_reading(tokens, text) && operators_placed(tokens) && !well_formed(tokens),
        ErrorKind::ThisOperatorShouldBeAlreadyComputed => false,
    }
}

/// The result of the evaluation of a text, case by case: the evaluation
/// fails with an error if and only if the error is the one that [`explains`]
/// describes.
pub proof fn theorem_text_error_kinds(text: Seq<char>, e: ErrorKind)
    ensures
        evaluate(text) == Err::<Expr, ErrorKind>(e) <==> explains(text, e),
{
    theorem_text_errors(text);
    if let ErrorKind::CannotParseNumber(run) = e {
        theorem_first_malformed(text, run);
    }
    if let Ok(tokens) = tokenize(text) {
        theorem_error_kinds(tokens);
        theorem_reading(text, tokens);
    }
    assert forall|tokens: Seq<Token>| is_reading(tokens, text) implies tokenize(text) == Ok::<
        Seq<Token>,
        ErrorKind,
    >(tokens) by {
        theorem_reading(text, tokens);
    }
}

/// A text that ends with `*` or `/` has no value: its evaluation fails with
/// `InvalidOperatorPosition`, provided that what stands before the operator
/// can be split into tokens.
pub proof fn theorem_trailing_operator(before: Seq<char>, c: char)
    requires
        c == '*' || c == '/',
        tokenize(before) is Ok,
    ensures
        evaluate(before + seq![c]) == Err::<Expr, ErrorKind>(ErrorKind::InvalidOperatorPosition),
{
    let none = Seq::<char>::empty();
    theorem_operator_splits_text(before, c, none);
    assert(before + seq![c] + none =~= before + seq![c]);
    let tokens = tokenize(before + seq![c])->Ok_0;
    let first = tokenize(before)->Ok_0;
    assert(tokens =~= first.push(Token::Operator(operator_of(c)->0)));
    theorem_dangling_operator(tokens);
}

/// A text that begins with `*`, `/` or `!` has no value: its evaluation fails
/// with `InvalidOperatorPosition`, provided that what stands behind the
/// operator can be split into tokens.
pub proof fn theorem_leading_operator(c: char, after: Seq<char>)
    requires
        c == '*' || c == '/' || c == '!',
        tokenize(after) is Ok,
    ensures
        evaluate(seq![c] + after) == Err::<Expr, ErrorKind>(ErrorKind::InvalidOperatorPosition),
{
    let none = Seq::<char>::empty();
    theorem_operator_splits_text(none, c, after);
    assert(none + seq![c] + after =~= seq![c] + after);
    let tokens = tokenize(seq![c] + after)->Ok_0;
    assert(tokens[0] == Token::Operator(operator_of(c)->0));
    theorem_dangling_operator(tokens);
}

} // verus!
