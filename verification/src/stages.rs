//! Theorems about the three reduction stages: when each stage succeeds, what
//! it leaves behind for the next, and which errors an evaluation can end with.
use crate::calculation::evaluate;
use crate::compute::{
    evaluate_tokens,
    last_operand,
    operand_at,
    resolve_add_sub,
    resolve_mul_div,
    resolve_unary,
    scan_add_sub,
    scan_mul_div,
    scan_unary,
    step_add_sub,
    step_mul_div,
    step_unary,
};
use crate::lexical::lemma_scan_failure;
use crate::models::{ErrorKind, Expr, Operator, Token};
use crate::parser::tokenize;
use vstd::prelude::*;

verus! {

/// `*` or `/`.
pub open spec fn is_multiplicative(t: Token) -> bool {
    t == Token::Operator(Operator::Multiply) || t == Token::Operator(Operator::Divide)
}

/// `+` or `-`.
pub open spec fn is_additive(t: Token) -> bool {
    t == Token::Operator(Operator::Add) || t == Token::Operator(Operator::Minus)
}

/// No token of `rest` is a `!`, and every `+` and `-` in it stands directly
/// behind an operand, where the operand before the first token of `rest` is
/// the one that `out` ends with.
pub open spec fn binary_behind(out: Seq<Token>, rest: Seq<Token>) -> bool {
    forall|i: int|
        0 <= i < rest.len() ==> {
            &&& #[trigger] rest[i] != Token::Operator(Operator::Factorial)
            &&& is_additive(rest[i]) ==> if i == 0 {
                last_operand(out) is Some
            } else {
                operand_at(rest, i - 1) is Some
            }
        }
}

/// What the first stage leaves behind: no `!`, and every `+` and `-` directly
/// behind an operand. Such a `+` or `-` is binary; the signs are resolved.
pub open spec fn signs_resolved(tokens: Seq<Token>) -> bool {
    binary_behind(Seq::empty(), tokens)
}

/// What the second stage leaves behind: operands, and `+` and `-` that each
/// stand directly behind an operand.
pub open spec fn products_resolved(tokens: Seq<Token>) -> bool {
    &&& signs_resolved(tokens)
    &&& forall|i: int| 0 <= i < tokens.len() ==> !is_multiplicative(#[trigger] tokens[i])
}

/// The steps of the first stage keep the signs of the output resolved.
proof fn lemma_unary_output(rest: Seq<Token>, out: Seq<Token>)
    requires
        signs_resolved(out),
    ensures
        match scan_unary(rest, out) {
            Ok(signed) => signs_resolved(signed),
            Err(e) => e == ErrorKind::InvalidOperatorPosition,
        },
    decreases rest.len(),
{
    if rest.len() > 0 {
        if let Ok((step, grown)) = step_unary(rest, out) {
            assert(signs_resolved(grown)) by {
                assert forall|i: int| 0 <= i < grown.len() implies {
                    &&& #[trigger] grown[i] != Token::Operator(Operator::Factorial)
                    &&& is_additive(grown[i]) ==> i != 0 && operand_at(grown, i - 1) is Some
                } by {
                    if i < out.len() - 1 {
                        assert(grown[i] == out[i]);
                    } else if i < out.len() && grown.len() > out.len() {
                        assert(grown[i] == out[i]);
                    }
                    if 0 < i && i - 1 < out.len() - 1 {
                        assert(grown[i - 1] == out[i - 1]);
                    }
                }
            }
            lemma_unary_output(rest.skip(step), grown);
        }
    }
}

/// The first stage leaves no `!` behind and no sign: in what it returns every
/// `+` and `-` stands directly behind an operand. It fails with
/// `InvalidOperatorPosition` or not at all.
pub proof fn theorem_unary_output(input: Seq<Token>)
    ensures
        match resolve_unary(input) {
            Ok(signed) => signs_resolved(signed),
            Err(e) => e == ErrorKind::InvalidOperatorPosition,
        },
{
    lemma_unary_output(input, Seq::empty());
}

/// The steps of the second stage keep the products of the output resolved.
proof fn lemma_mul_div_output(rest: Seq<Token>, out: Seq<Token>)
    requires
        products_resolved(out),
        binary_behind(out, rest),
    ensures
        match scan_mul_div(rest, out) {
            Ok(products) => products_resolved(products),
            Err(e) => e == ErrorKind::InvalidOperatorPosition,
        },
    decreases rest.len(),
{
    if rest.len() > 0 {
        assert(rest[0] != Token::Operator(Operator::Factorial));
        if let Ok((step, grown)) = step_mul_div(rest, out) {
            assert(products_resolved(grown)) by {
                assert forall|i: int| 0 <= i < grown.len() implies {
                    &&& #[trigger] grown[i] != Token::Operator(Operator::Factorial)
                    &&& !is_multiplicative(grown[i])
                    &&& is_additive(grown[i]) ==> i != 0 && operand_at(grown, i - 1) is Some
                } by {
                    if i < out.len() - 1 {
                        assert(grown[i] == out[i]);
                    } else if i < out.len() && grown.len() > out.len() {
                        assert(grown[i] == out[i]);
                    }
                    if 0 < i && i - 1 < out.len() - 1 {
                        assert(grown[i - 1] == out[i - 1]);
                    }
                }
            }
            let left = rest.skip(step);
            assert(binary_behind(grown, left)) by {
                assert forall|i: int| 0 <= i < left.len() implies {
                    &&& #[trigger] left[i] != Token::Operator(Operator::Factorial)
                    &&& is_additive(left[i]) ==> if i == 0 {
                        last_operand(grown) is Some
                    } else {
                        operand_at(left, i - 1) is Some
                    }
                } by {
                    assert(left[i] == rest[i + step]);
                    if i > 0 {
                        assert(left[i - 1] == rest[i - 1 + step]);
                    }
                }
            }
            lemma_mul_div_output(left, grown);
        }
    }
}

/// On what the first stage leaves behind, the second stage leaves operands
/// and binary `+` and `-` only. It fails with `InvalidOperatorPosition` or
/// not at all.
pub proof fn theorem_mul_div_output(input: Seq<Token>)
    requires
        signs_resolved(input),
    ensures
        match resolve_mul_div(input) {
            Ok(products) => products_resolved(products),
            Err(e) => e == ErrorKind::InvalidOperatorPosition,
        },
{
    lemma_mul_div_output(input, Seq::empty());
}

/// On operands, `+` and `-` the third stage fails with `Unknown` or not at
/// all, whatever its stack holds.
proof fn lemma_add_sub_failure(rest: Seq<Token>, stack: Seq<Expr>)
    requires
        forall|i: int|
            0 <= i < rest.len() ==> #[trigger] rest[i] is Operand || is_additive(rest[i]),
    ensures
        scan_add_sub(rest, stack) is Err ==> scan_add_sub(rest, stack) == Err::<Expr, ErrorKind>(
            ErrorKind::Unknown,
        ),
    decreases rest.len(),
{
    if rest.len() > 0 {
        assert(rest[0] is Operand || is_additive(rest[0]));
        if let Ok((step, grown)) = step_add_sub(rest, stack) {
            let tail = rest.skip(step);
            assert forall|i: int| 0 <= i < tail.len() implies #[trigger] tail[i] is Operand
                || is_additive(tail[i]) by {
                assert(tail[i] == rest[i + step]);
            }
            lemma_add_sub_failure(tail, grown);
        }
    }
}

/// On what the second stage leaves behind, the third stage fails with
/// `Unknown` or not at all.
pub proof fn theorem_add_sub_failure(input: Seq<Token>)
    requires
        products_resolved(input),
    ensures
        resolve_add_sub(input) is Err ==> resolve_add_sub(input) == Err::<Expr, ErrorKind>(
            ErrorKind::Unknown,
        ),
{
    assert forall|i: int| 0 <= i < input.len() implies #[trigger] input[i] is Operand
        || is_additive(input[i]) by {
        assert(input[i] != Token::Operator(Operator::Factorial));
        assert(!is_multiplicative(input[i]));
    }
    lemma_add_sub_failure(input, Seq::empty());
}

/// In `rest`, which follows `out`, no token is a `!`, and every `*` and `/`
/// stands directly between two operands.
pub open spec fn products_placed(out: Seq<Token>, rest: Seq<Token>) -> bool {
    forall|j: int|
        0 <= j < rest.len() ==> {
            &&& #[trigger] rest[j] != Token::Operator(Operator::Factorial)
            &&& is_multiplicative(rest[j]) ==> operand_at(rest, j + 1) is Some && if j == 0 {
                last_operand(out) is Some
            } else {
                operand_at(rest, j - 1) is Some
            }
        }
}

/// The second stage succeeds exactly where no `!` is left and every `*` and
/// `/` stands directly between two operands.
pub proof fn lemma_mul_div_succeeds(rest: Seq<Token>, out: Seq<Token>)
    ensures
        scan_mul_div(rest, out) is Ok <==> products_placed(out, rest),
    decreases rest.len(),
{
    if rest.len() > 0 {
        match step_mul_div(rest, out) {
            Ok((step, grown)) => {
                let tail = rest.skip(step);
                lemma_mul_div_succeeds(tail, grown);
                if products_placed(grown, tail) {
                    assert forall|j: int| 0 <= j < rest.len() implies {
                        &&& #[trigger] rest[j] != Token::Operator(Operator::Factorial)
                        &&& is_multiplicative(rest[j]) ==> operand_at(rest, j + 1) is Some
                            && if j == 0 {
                            last_operand(out) is Some
                        } else {
                            operand_at(rest, j - 1) is Some
                        }
                    } by {
                        if j >= step {
                            assert(tail[j - step] == rest[j]);
                        }
                    }
                }
                if products_placed(out, rest) {
                    assert forall|j: int| 0 <= j < tail.len() implies {
                        &&& #[trigger] tail[j] != Token::Operator(Operator::Factorial)
                        &&& is_multiplicative(tail[j]) ==> operand_at(tail, j + 1) is Some
                            && if j == 0 {
                            last_operand(grown) is Some
                        } else {
                            operand_at(tail, j - 1) is Some
                        }
                    } by {
                        assert(tail[j] == rest[j + step]);
                    }
                }
            },
            Err(_) => {
                assert(rest[0] == rest[0]);
            },
        }
    }
}

/// Operands at the even positions, operators other than `!` at the odd
/// positions, counted from `offset`, and an operand at the end.
pub open spec fn alternates(tokens: Seq<Token>, offset: int) -> bool {
    &&& (tokens.len() + offset) % 2 == 1
    &&& forall|j: int|
        0 <= j < tokens.len() ==> if (j + offset) % 2 == 0 {
            #[trigger] tokens[j] is Operand
        } else {
            is_additive(tokens[j]) || is_multiplicative(tokens[j])
        }
}

/// [`alternates`], with `+` and `-` alone at the odd positions.
pub open spec fn alternates_additive(tokens: Seq<Token>, offset: int) -> bool {
    &&& alternates(tokens, offset)
    &&& forall|j: int| 0 <= j < tokens.len() ==> !is_multiplicative(#[trigger] tokens[j])
}

/// The third stage returns a value exactly for operands joined by `+` and
/// `-`, where the stack holds at most one operand.
pub proof fn lemma_add_sub_succeeds(rest: Seq<Token>, stack: Seq<Expr>)
    ensures
        scan_add_sub(rest, stack) is Ok <==> stack.len() <= 1 && alternates_additive(
            rest,
            stack.len() as int,
        ),
    decreases rest.len(),
{
    if rest.len() > 0 {
        assert(rest[0] == rest[0]);
        if let Ok((step, grown)) = step_add_sub(rest, stack) {
            let tail = rest.skip(step);
            lemma_add_sub_succeeds(tail, grown);
            if alternates_additive(tail, grown.len() as int) && grown.len() <= 1 {
                assert forall|j: int| 0 <= j < rest.len() implies {
                    &&& !is_multiplicative(#[trigger] rest[j])
                    &&& if (j + stack.len()) % 2 == 0 {
                        rest[j] is Operand
                    } else {
                        is_additive(rest[j]) || is_multiplicative(rest[j])
                    }
                } by {
                    if j >= step {
                        assert(tail[j - step] == rest[j]);
                    }
                }
            }
            if alternates_additive(rest, stack.len() as int) && stack.len() <= 1 {
                assert forall|j: int| 0 <= j < tail.len() implies {
                    &&& !is_multiplicative(#[trigger] tail[j])
                    &&& if (j + grown.len()) % 2 == 0 {
                        tail[j] is Operand
                    } else {
                        is_additive(tail[j]) || is_multiplicative(tail[j])
                    }
                } by {
                    assert(tail[j] == rest[j + step]);
                }
            }
        } else if alternates_additive(rest, stack.len() as int) && stack.len() <= 1 {
            if rest.len() > 1 {
                assert(rest[1] == rest[1]);
            }
        }
    }
}

/// Position `j` of the sequence stands directly behind an operand or a `!`.
pub open spec fn behind_operand(tokens: Seq<Token>, j: int) -> bool {
    0 < j <= tokens.len() && (tokens[j - 1] is Operand || tokens[j - 1] == Token::Operator(
        Operator::Factorial,
    ))
}

/// From position `from` on, every `!` stands directly behind an operand or a
/// `!`, and every `-` that does not stands directly before an operand.
pub open spec fn signs_placed_from(tokens: Seq<Token>, from: int) -> bool {
    forall|j: int|
        from <= j < tokens.len() ==> {
            &&& #[trigger] tokens[j] == Token::Operator(Operator::Factorial) ==> behind_operand(
                tokens,
                j,
            )
            &&& tokens[j] == Token::Operator(Operator::Minus) && !behind_operand(tokens, j)
                ==> operand_at(tokens, j + 1) is Some
        }
}

/// Every `!` stands directly behind an operand or a `!`, and every `-` that
/// does not stands directly before an operand.
pub open spec fn signs_placed(tokens: Seq<Token>) -> bool {
    signs_placed_from(tokens, 0)
}

/// The first stage succeeds from a position on exactly where the factorials
/// and the signs from there on are placed.
pub proof fn lemma_unary_succeeds(tokens: Seq<Token>, at: int, out: Seq<Token>)
    requires
        0 <= at <= tokens.len(),
        (last_operand(out) is Some) == behind_operand(tokens, at),
    ensures
        scan_unary(tokens.skip(at), out) is Ok <==> signs_placed_from(tokens, at),
    decreases tokens.len() - at,
{
    let rest = tokens.skip(at);
    if at < tokens.len() {
        assert(rest[0] == tokens[at]);
        if at + 1 < tokens.len() {
            assert(rest[1] == tokens[at + 1]);
        }
        match step_unary(rest, out) {
            Ok((step, grown)) => {
                assert(rest.skip(step) =~= tokens.skip(at + step));
                lemma_unary_succeeds(tokens, at + step, grown);
                if signs_placed_from(tokens, at + step) {
                    assert forall|j: int| at <= j < tokens.len() implies {
                        &&& #[trigger] tokens[j] == Token::Operator(Operator::Factorial)
                            ==> behind_operand(tokens, j)
                        &&& tokens[j] == Token::Operator(Operator::Minus) && !behind_operand(
                            tokens,
                            j,
                        ) ==> operand_at(tokens, j + 1) is Some
                    } by {}
                }
            },
            Err(_) => {},
        }
    }
}

/// When each stage succeeds.
///
/// * The first stage: every `!` stands directly behind an operand or a `!`,
///   and every `-` that does not stands directly before an operand.
/// * The second stage: no `!` is left, and every `*` and `/` stands directly
///   between two operands.
/// * The third stage: the sequence is made of operands joined by `+` and `-`.
pub proof fn theorem_stage_succeeds(input: Seq<Token>)
    ensures
        resolve_unary(input) is Ok <==> signs_placed(input),
        resolve_mul_div(input) is Ok <==> products_placed(Seq::empty(), input),
        resolve_add_sub(input) is Ok <==> alternates_additive(input, 0),
{
    let none = Seq::<Token>::empty();
    assert(input.skip(0) =~= input);
    lemma_unary_succeeds(input, 0, none);
    lemma_mul_div_succeeds(input, none);
    lemma_add_sub_succeeds(input, Seq::empty());
}

/// The errors of an evaluation. A sequence of tokens has a value, or lacks an
/// operand for a `!`, a `*`, a `/` or a negating `-`
/// (`InvalidOperatorPosition`), or does not reduce to one operand (`Unknown`).
/// No operator ever reaches a stage that cannot handle it: whatever the
/// input, `ThisOperatorShouldBeAlreadyComputed` is not returned.
pub proof fn theorem_token_errors(input: Seq<Token>)
    ensures
        match evaluate_tokens(input) {
            Ok(_) => true,
            Err(e) => e == ErrorKind::InvalidOperatorPosition || e == ErrorKind::Unknown,
        },
{
    theorem_unary_output(input);
    if let Ok(signed) = resolve_unary(input) {
        theorem_mul_div_output(signed);
        if let Ok(products) = resolve_mul_div(signed) {
            theorem_add_sub_failure(products);
        }
    }
}

/// The errors of an evaluation of a text: those of its tokens, and
/// `CannotParseNumber`, which is returned exactly where the text cannot be
/// split into tokens.
pub proof fn theorem_text_errors(text: Seq<char>)
    ensures
        match evaluate(text) {
            Ok(_) => tokenize(text) is Ok,
            Err(ErrorKind::CannotParseNumber(run)) => tokenize(text) == Err::<
                Seq<Token>,
                ErrorKind,
            >(ErrorKind::CannotParseNumber(run)),
            Err(e) => tokenize(text) is Ok && (e == ErrorKind::InvalidOperatorPosition || e
                == ErrorKind::Unknown),
        },
{
    lemma_scan_failure(text, Seq::empty(), Seq::empty());
    if let Ok(tokens) = tokenize(text) {
        theorem_token_errors(tokens);
    }
}

} // verus!
