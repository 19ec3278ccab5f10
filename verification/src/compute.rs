//! The three reduction stages that turn a token sequence into one term.
//!
//! Each stage reads its input once, from left to right, and builds a new
//! sequence. What a stage produces is defined by a recursive `scan_*` function
//! on the tokens still to be read and the output built so far; the executable
//! stage is proved to return exactly that.
use crate::failures::{operators_placed, theorem_error_kinds};
use crate::models::{ErrorKind, ErrorList, Expr, OperationUnit, Operator, Term, Token, tokens_of};
use crate::stages::{
    alternates_additive,
    products_placed,
    products_resolved,
    signs_placed,
    signs_resolved,
    theorem_add_sub_failure,
    theorem_mul_div_output,
    theorem_stage_succeeds,
    theorem_token_errors,
    theorem_unary_output,
};
use crate::syntax::{is_sum_value, theorem_value_is_sum_value, well_formed};
use std::collections::VecDeque;
use vstd::prelude::*;

verus! {

/// The operand at position `i` of `s`, if there is a token at `i` and it is an
/// operand.
pub open spec fn operand_at(s: Seq<Token>, i: int) -> Option<Expr> {
    if 0 <= i < s.len() {
        match s[i] {
            Token::Operand(x) => Some(x),
            Token::Operator(_) => None,
        }
    } else {
        None
    }
}

/// The operand that `s` ends with, if it ends with one.
pub open spec fn last_operand(s: Seq<Token>) -> Option<Expr> {
    operand_at(s, s.len() - 1)
}

/// `out` with its last token replaced by the operand `x`.
pub open spec fn replace_last(out: Seq<Token>, x: Expr) -> Seq<Token> {
    out.drop_last().push(Token::Operand(x))
}

/// What the first stage does with the first token of `rest`, with `out`
/// built so far: how many tokens it reads, and the output after that.
///
/// * An operand is passed on.
/// * `!` replaces the operand that `out` ends with by its factorial; where `out`
///   does not end with an operand the position is invalid.
/// * `+` after an operand is binary and passed on; elsewhere it is a sign
///   without effect and dropped.
/// * `-` after an operand is binary and passed on; elsewhere it negates the
///   operand that must follow it, and both are replaced by the negated operand.
/// * `*` and `/` are passed on.
pub open spec fn step_unary(rest: Seq<Token>, out: Seq<Token>) -> Result<
    (int, Seq<Token>),
    ErrorKind,
>
    recommends
        rest.len() > 0,
{
    match rest[0] {
        Token::Operand(_) => Ok((1, out.push(rest[0]))),
        Token::Operator(Operator::Factorial) => match last_operand(out) {
            Some(x) => Ok((1, replace_last(out, x.factorial()))),
            None => Err(ErrorKind::InvalidOperatorPosition),
        },
        Token::Operator(Operator::Add) => if last_operand(out) is Some {
            Ok((1, out.push(rest[0])))
        } else {
            Ok((1, out))
        },
        Token::Operator(Operator::Minus) => if last_operand(out) is Some {
            Ok((1, out.push(rest[0])))
        } else {
            match operand_at(rest, 1) {
                Some(x) => Ok((2, out.push(Token::Operand(x.negated())))),
                None => Err(ErrorKind::InvalidOperatorPosition),
            }
        },
        Token::Operator(_) => Ok((1, out.push(rest[0]))),
    }
}

/// The first stage on the tokens `rest` still to be read, with `out` built so
/// far: step by step to the end of `rest`, or to the first error.
pub open spec fn scan_unary(rest: Seq<Token>, out: Seq<Token>) -> Result<Seq<Token>, ErrorKind>
    decreases rest.len(),
{
    if rest.len() == 0 {
        Ok(out)
    } else {
        match step_unary(rest, out) {
            Ok((read, grown)) => scan_unary(rest.skip(read), grown),
            Err(e) => Err(e),
        }
    }
}

/// What the first stage makes of `input`.
pub open spec fn resolve_unary(input: Seq<Token>) -> Result<Seq<Token>, ErrorKind> {
    scan_unary(input, Seq::empty())
}

/// The product or the quotient of `left` and `right`, as `op` says.
pub open spec fn multiplied(op: Operator, left: Expr, right: Expr) -> Expr {
    if op == Operator::Multiply {
        left.times(right)
    } else {
        left.over(right)
    }
}

/// What the second stage does with the first token of `rest`, with `out`
/// built so far: how many tokens it reads, and the output after that.
///
/// * An operand is passed on, and so are `+` and `-`.
/// * `*` and `/` take the operand that `out` ends with and the operand that
///   follows in `rest`, and replace both by their product or quotient; where
///   either is missing the position is invalid.
/// * `!` should have been resolved by the first stage.
pub open spec fn step_mul_div(rest: Seq<Token>, out: Seq<Token>) -> Result<
    (int, Seq<Token>),
    ErrorKind,
>
    recommends
        rest.len() > 0,
{
    match rest[0] {
        Token::Operand(_) => Ok((1, out.push(rest[0]))),
        Token::Operator(op) => if op == Operator::Add || op == Operator::Minus {
            Ok((1, out.push(rest[0])))
        } else if op == Operator::Factorial {
            Err(ErrorKind::ThisOperatorShouldBeAlreadyComputed)
        } else {
            match (last_operand(out), operand_at(rest, 1)) {
                (Some(left), Some(right)) => Ok(
                    (2, replace_last(out, multiplied(op, left, right))),
                ),
                _ => Err(ErrorKind::InvalidOperatorPosition),
            }
        },
    }
}

/// The second stage on the tokens `rest` still to be read, with `out` built
/// so far: step by step to the end of `rest`, or to the first error.
pub open spec fn scan_mul_div(rest: Seq<Token>, out: Seq<Token>) -> Result<Seq<Token>, ErrorKind>
    decreases rest.len(),
{
    if rest.len() == 0 {
        Ok(out)
    } else {
        match step_mul_div(rest, out) {
            Ok((read, grown)) => scan_mul_div(rest.skip(read), grown),
            Err(e) => Err(e),
        }
    }
}

/// What the second stage makes of `input`.
pub open spec fn resolve_mul_div(input: Seq<Token>) -> Result<Seq<Token>, ErrorKind> {
    scan_mul_div(input, Seq::empty())
}

/// The sum or the difference of `left` and `right`, as `op` says.
pub open spec fn added(op: Operator, left: Expr, right: Expr) -> Expr {
    if op == Operator::Add {
        left.plus(right)
    } else {
        left.minus(right)
    }
}

/// What the third stage does with the first token of `rest`, with the
/// operands `stack` accumulated so far: how many tokens it reads, and the
/// stack after that.
///
/// * An operand is put on the stack.
/// * `+` and `-` take the operand on top of the stack and the operand that
///   follows in `rest`, and put their sum or difference in its place; where
///   either is missing the expression has no value.
/// * Any other operator should have been resolved by an earlier stage.
pub open spec fn step_add_sub(rest: Seq<Token>, stack: Seq<Expr>) -> Result<
    (int, Seq<Expr>),
    ErrorKind,
>
    recommends
        rest.len() > 0,
{
    match rest[0] {
        Token::Operand(x) => Ok((1, stack.push(x))),
        Token::Operator(op) => if op == Operator::Add || op == Operator::Minus {
            match operand_at(rest, 1) {
                Some(right) => if stack.len() > 0 {
                    Ok((2, stack.drop_last().push(added(op, stack.last(), right))))
                } else {
                    Err(ErrorKind::Unknown)
                },
                None => Err(ErrorKind::Unknown),
            }
        } else {
            Err(ErrorKind::ThisOperatorShouldBeAlreadyComputed)
        },
    }
}

/// The third stage on the tokens `rest` still to be read, with the operands
/// `stack` accumulated so far: step by step to the end of `rest`, where the
/// stack must hold exactly one operand, the value; or to the first error.
pub open spec fn scan_add_sub(rest: Seq<Token>, stack: Seq<Expr>) -> Result<Expr, ErrorKind>
    decreases rest.len(),
{
    if rest.len() == 0 {
        if stack.len() == 1 {
            Ok(stack[0])
        } else {
            Err(ErrorKind::Unknown)
        }
    } else {
        match step_add_sub(rest, stack) {
            Ok((read, grown)) => scan_add_sub(rest.skip(read), grown),
            Err(e) => Err(e),
        }
    }
}

/// What the third stage makes of `input`.
pub open spec fn resolve_add_sub(input: Seq<Token>) -> Result<Expr, ErrorKind> {
    scan_add_sub(input, Seq::empty())
}

/// The value of a token sequence: the three stages one after the other, the
/// first error ending the evaluation.
pub open spec fn evaluate_tokens(input: Seq<Token>) -> Result<Expr, ErrorKind> {
    match resolve_unary(input) {
        Err(e) => Err(e),
        Ok(signed) => match resolve_mul_div(signed) {
            Err(e) => Err(e),
            Ok(products) => resolve_add_sub(products),
        },
    }
}

/// The mathematical form of a stage's result.
pub open spec fn units_outcome(r: Result<VecDeque<OperationUnit>, ErrorList>) -> Result<
    Seq<Token>,
    ErrorKind,
> {
    match r {
        Ok(units) => Ok(tokens_of(units@)),
        Err(e) => Err(e@),
    }
}

/// The expressions that a sequence of terms stands for.
pub open spec fn terms_of(terms: Seq<Term>) -> Seq<Expr> {
    terms.map_values(|t: Term| t@)
}

/// The mathematical form of an evaluation's result.
pub open spec fn term_outcome(r: Result<Term, ErrorList>) -> Result<Expr, ErrorKind> {
    match r {
        Ok(t) => Ok(t@),
        Err(e) => Err(e@),
    }
}

/// The tokens of units with one more unit at the end.
proof fn lemma_tokens_push(units: Seq<OperationUnit>, u: OperationUnit)
    ensures
        tokens_of(units.push(u)) == tokens_of(units).push(u@),
{
    assert(tokens_of(units.push(u)) =~= tokens_of(units).push(u@));
}

/// The tokens of units without the last unit.
proof fn lemma_tokens_drop_last(units: Seq<OperationUnit>)
    requires
        units.len() > 0,
    ensures
        tokens_of(units.drop_last()) == tokens_of(units).drop_last(),
{
    assert(tokens_of(units.drop_last()) =~= tokens_of(units).drop_last());
}

/// Skipping twice is skipping once by the sum.
proof fn lemma_skip_skip<A>(s: Seq<A>, i: int, k: int)
    requires
        0 <= i,
        0 <= k,
        i + k <= s.len(),
    ensures
        s.skip(i).skip(k) == s.skip(i + k),
{
    assert(s.skip(i).skip(k) =~= s.skip(i + k));
}

/// What holds of the result of the first stage besides its definition.
proof fn lemma_unary_contract(input: Seq<Token>)
    ensures
        resolve_unary(input) is Ok <==> signs_placed(input),
        match resolve_unary(input) {
            Ok(signed) => signs_resolved(signed),
            Err(e) => e == ErrorKind::InvalidOperatorPosition,
        },
{
    theorem_unary_output(input);
    theorem_stage_succeeds(input);
}

/// What holds of the result of the second stage besides its definition.
proof fn lemma_mul_div_contract(input: Seq<Token>)
    ensures
        resolve_mul_div(input) is Ok <==> products_placed(Seq::empty(), input),
        signs_resolved(input) ==> match resolve_mul_div(input) {
            Ok(products) => products_resolved(products),
            Err(e) => e == ErrorKind::InvalidOperatorPosition,
        },
{
    theorem_stage_succeeds(input);
    if signs_resolved(input) {
        theorem_mul_div_output(input);
    }
}

/// What holds of the result of the third stage besides its definition.
proof fn lemma_add_sub_contract(input: Seq<Token>)
    ensures
        resolve_add_sub(input) is Ok <==> alternates_additive(input, 0),
        products_resolved(input) ==> (resolve_add_sub(input) matches Err(e) ==> e
            == ErrorKind::Unknown),
{
    theorem_stage_succeeds(input);
    if products_resolved(input) {
        theorem_add_sub_failure(input);
    }
}

/// The first stage: resolves the factorials and the signs of `operation`.
///
/// Returns what [`resolve_unary`] defines: the resolved sequence, or
/// `InvalidOperatorPosition` where a `!` has no operand before it or a negating
/// `-` has no operand after it ([`signs_placed`] says so position by
/// position). The resolved sequence holds no `!`, and every `+` and `-` in it
/// stands directly behind an operand.
pub fn compute_unary(operation: &VecDeque<OperationUnit>) -> (result: Result<
    VecDeque<OperationUnit>,
    ErrorList,
>)
    ensures
        units_outcome(result) == resolve_unary(tokens_of(operation@)),
        result is Ok <==> signs_placed(tokens_of(operation@)),
        match result {
            Ok(signed) => signs_resolved(tokens_of(signed@)),
            Err(e) => e@ == ErrorKind::InvalidOperatorPosition,
        },
{
    let ghost input = tokens_of(operation@);
    let mut result_stack: VecDeque<OperationUnit> = VecDeque::new();
    let mut operation_unit_index: usize = 0;
    let len = operation.len();
    proof {
        assert(tokens_of(result_stack@) =~= Seq::<Token>::empty());
        assert(input.skip(0) =~= input);
    }
    while operation_unit_index < len
        invariant
            input == tokens_of(operation@),
            len == operation@.len(),
            operation_unit_index <= len,
            scan_unary(input.skip(operation_unit_index as int), tokens_of(result_stack@))
                == resolve_unary(input),
        decreases len - operation_unit_index,
    {
        let ghost rest = input.skip(operation_unit_index as int);
        let ghost out = result_stack@;
        proof {
            assert(rest[0] == operation@[operation_unit_index as int]@);
            lemma_skip_skip(input, operation_unit_index as int, 1);
        }
        let after_operand = result_stack.len() > 0 && match &result_stack[result_stack.len() - 1] {
            OperationUnit::Operand(_) => true,
            OperationUnit::Operator(_) => false,
        };
        assert(after_operand == (last_operand(tokens_of(out)) is Some));
        match &operation[operation_unit_index] {
            OperationUnit::Operator(Operator::Factorial) => match result_stack.pop_back() {
                Some(OperationUnit::Operand(n)) => {
                    let resolved = OperationUnit::Operand(n.factorial());
                    result_stack.push_back(resolved);
                    proof {
                        lemma_tokens_drop_last(out);
                        lemma_tokens_push(out.drop_last(), resolved);
                    }
                    operation_unit_index += 1;
                },
                _ => {
                    proof {
                        lemma_unary_contract(input);
                    }
                    return Err(ErrorList::InvalidOperatorPosition);
                },
            },
            OperationUnit::Operator(Operator::Add) => {
                if after_operand {
                    let unit = OperationUnit::Operator(Operator::Add);
                    result_stack.push_back(unit);
                    proof {
                        lemma_tokens_push(out, unit);
                    }
                }
                operation_unit_index += 1;
            },
            OperationUnit::Operator(Operator::Minus) => {
                if after_operand {
                    let unit = OperationUnit::Operator(Operator::Minus);
                    result_stack.push_back(unit);
                    proof {
                        lemma_tokens_push(out, unit);
                    }
                    operation_unit_index += 1;
                } else if operation_unit_index + 1 < len {
                    match &operation[operation_unit_index + 1] {
                        OperationUnit::Operand(n) => {
                            let negated = OperationUnit::Operand(n.clone().negated());
                            result_stack.push_back(negated);
                            proof {
                                assert(rest[1] == operation@[operation_unit_index + 1]@);
                                lemma_tokens_push(out, negated);
                                lemma_skip_skip(input, operation_unit_index as int, 2);
                            }
                            operation_unit_index += 2;
                        },
                        OperationUnit::Operator(_) => {
                            proof {
                                assert(rest[1] == operation@[operation_unit_index + 1]@);
                            }
                            proof {
                                lemma_unary_contract(input);
                            }
                            return Err(ErrorList::InvalidOperatorPosition);
                        },
                    }
                } else {
                    proof {
                        lemma_unary_contract(input);
                    }
                    return Err(ErrorList::InvalidOperatorPosition);
                }
            },
            unit => {
                let unit = unit.clone();
                result_stack.push_back(unit);
                proof {
                    lemma_tokens_push(out, unit);
                }
                operation_unit_index += 1;
            },
        }
    }
    proof {
        lemma_unary_contract(input);
    }
    Ok(result_stack)
}

/// The second stage: carries out the multiplications and divisions of
/// `operation`, each on the operands next to it, from left to right.
///
/// Returns what [`resolve_mul_div`] defines: the reduced sequence,
/// `InvalidOperatorPosition` where a `*` or `/` lacks an operand on either
/// side, or `ThisOperatorShouldBeAlreadyComputed` where a `!` is met,
/// whichever is met first. It succeeds exactly where neither is met
/// ([`products_placed`]). On a sequence that the first stage has returned no
/// `!` is met, and the reduced sequence holds operands, `+` and `-` only.
pub fn compute_multiply_divide(operation: &VecDeque<OperationUnit>) -> (result: Result<
    VecDeque<OperationUnit>,
    ErrorList,
>)
    ensures
        units_outcome(result) == resolve_mul_div(tokens_of(operation@)),
        result is Ok <==> products_placed(Seq::empty(), tokens_of(operation@)),
        signs_resolved(tokens_of(operation@)) ==> match result {
            Ok(products) => products_resolved(tokens_of(products@)),
            Err(e) => e@ == ErrorKind::InvalidOperatorPosition,
        },
{
    let ghost input = tokens_of(operation@);
    let mut result_stack: VecDeque<OperationUnit> = VecDeque::new();
    let mut operation_unit_index: usize = 0;
    let len = operation.len();
    proof {
        assert(tokens_of(result_stack@) =~= Seq::<Token>::empty());
        assert(input.skip(0) =~= input);
    }
    while operation_unit_index < len
        invariant
            input == tokens_of(operation@),
            len == operation@.len(),
            operation_unit_index <= len,
            scan_mul_div(input.skip(operation_unit_index as int), tokens_of(result_stack@))
                == resolve_mul_div(input),
        decreases len - operation_unit_index,
    {
        let ghost rest = input.skip(operation_unit_index as int);
        let ghost out = result_stack@;
        proof {
            assert(rest[0] == operation@[operation_unit_index as int]@);
            lemma_skip_skip(input, operation_unit_index as int, 1);
        }
        match &operation[operation_unit_index] {
            OperationUnit::Operator(Operator::Factorial) => {
                proof {
                    lemma_mul_div_contract(input);
                }
                return Err(ErrorList::ThisOperatorShouldBeAlreadyComputed);
            },
            OperationUnit::Operator(Operator::Multiply) | OperationUnit::Operator(
                Operator::Divide,
            ) => match result_stack.pop_back() {
                Some(OperationUnit::Operand(last_operand)) => {
                    if operation_unit_index + 1 < len {
                        proof {
                            assert(rest[1] == operation@[operation_unit_index + 1]@);
                        }
                        match &operation[operation_unit_index + 1] {
                            OperationUnit::Operand(next_operand) => {
                                let next_operand = next_operand.clone();
                                let reduced = match &operation[operation_unit_index] {
                                    OperationUnit::Operator(Operator::Multiply) => {
                                        last_operand.times(next_operand)
                                    },
                                    _ => last_operand.over(next_operand),
                                };
                                let unit = OperationUnit::Operand(reduced);
                                result_stack.push_back(unit);
                                proof {
                                    lemma_tokens_drop_last(out);
                                    lemma_tokens_push(out.drop_last(), unit);
                                    lemma_skip_skip(input, operation_unit_index as int, 2);
                                }
                                operation_unit_index += 2;
                            },
                            OperationUnit::Operator(_) => {
                                proof {
                                    lemma_mul_div_contract(input);
                                }
                                return Err(ErrorList::InvalidOperatorPosition);
                            },
                        }
                    } else {
                        proof {
                            lemma_mul_div_contract(input);
                        }
                        return Err(ErrorList::InvalidOperatorPosition);
                    }
                },
                _ => {
                    proof {
                        lemma_mul_div_contract(input);
                    }
                    return Err(ErrorList::InvalidOperatorPosition);
                },
            },
            unit => {
                let unit = unit.clone();
                result_stack.push_back(unit);
                proof {
                    lemma_tokens_push(out, unit);
                }
                operation_unit_index += 1;
            },
        }
    }
    proof {
        lemma_mul_div_contract(input);
    }
    Ok(result_stack)
}

/// The third stage: folds the operands of `operation` over its additions and
/// subtractions, from left to right, into one term.
///
/// Returns what [`resolve_add_sub`] defines: the term, `Unknown` where a `+` or
/// `-` lacks an operand on either side or where the sequence does not reduce
/// to exactly one operand, or `ThisOperatorShouldBeAlreadyComputed` where
/// another operator is met, whichever is met first. It succeeds exactly on
/// operands joined by `+` and `-` ([`alternates_additive`]). On a sequence
/// that the second stage has returned after the first, no other operator is
/// met.
pub fn compute_add_minus(operation: &VecDeque<OperationUnit>) -> (result: Result<Term, ErrorList>)
    ensures
        term_outcome(result) == resolve_add_sub(tokens_of(operation@)),
        result is Ok <==> alternates_additive(tokens_of(operation@), 0),
        products_resolved(tokens_of(operation@)) ==> (result matches Err(e) ==> e@
            == ErrorKind::Unknown),
{
    let ghost input = tokens_of(operation@);
    let mut result_stack: VecDeque<Term> = VecDeque::new();
    let mut operation_unit_index: usize = 0;
    let len = operation.len();
    proof {
        assert(terms_of(result_stack@) =~= Seq::<Expr>::empty());
        assert(input.skip(0) =~= input);
    }
    while operation_unit_index < len
        invariant
            input == tokens_of(operation@),
            len == operation@.len(),
            operation_unit_index <= len,
            scan_add_sub(input.skip(operation_unit_index as int), terms_of(result_stack@))
                == resolve_add_sub(input),
        decreases len - operation_unit_index,
    {
        let ghost rest = input.skip(operation_unit_index as int);
        let ghost stack = result_stack@;
        proof {
            assert(rest[0] == operation@[operation_unit_index as int]@);
            lemma_skip_skip(input, operation_unit_index as int, 1);
        }
        match &operation[operation_unit_index] {
            OperationUnit::Operand(n) => {
                let n = n.clone();
                result_stack.push_back(n);
                proof {
                    assert(terms_of(stack.push(n)) =~= terms_of(stack).push(n@));
                }
                operation_unit_index += 1;
            },
            OperationUnit::Operator(Operator::Add) | OperationUnit::Operator(Operator::Minus) => {
                if operation_unit_index + 1 < len {
                    proof {
                        assert(rest[1] == operation@[operation_unit_index + 1]@);
                    }
                    match &operation[operation_unit_index + 1] {
                        OperationUnit::Operand(next_operand) => match result_stack.pop_back() {
                            Some(last_operand) => {
                                let next_operand = next_operand.clone();
                                let reduced = match &operation[operation_unit_index] {
                                    OperationUnit::Operator(Operator::Add) => {
                                        last_operand.plus(next_operand)
                                    },
                                    _ => last_operand.minus(next_operand),
                                };
                                result_stack.push_back(reduced);
                                proof {
                                    assert(terms_of(stack.drop_last().push(reduced)) =~= terms_of(
                                        stack,
                                    ).drop_last().push(reduced@));
                                    lemma_skip_skip(input, operation_unit_index as int, 2);
                                }
                                operation_unit_index += 2;
                            },
                            None => {
                                proof {
                                    lemma_add_sub_contract(input);
                                }
                                return Err(ErrorList::Unknown);
                            },
                        },
                        OperationUnit::Operator(_) => {
                            proof {
                                lemma_add_sub_contract(input);
                            }
                            return Err(ErrorList::Unknown);
                        },
                    }
                } else {
                    proof {
                        lemma_add_sub_contract(input);
                    }
                    return Err(ErrorList::Unknown);
                }
            },
            OperationUnit::Operator(_) => {
                proof {
                    lemma_add_sub_contract(input);
                }
                return Err(ErrorList::ThisOperatorShouldBeAlreadyComputed);
            },
        }
    }
    proof {
        lemma_add_sub_contract(input);
    }
    if result_stack.len() > 1 {
        Err(ErrorList::Unknown)
    } else {
        match result_stack.pop_back() {
            Some(n) => Ok(n),
            None => Err(ErrorList::Unknown),
        }
    }
}

/// The value of `operation`: the three stages one after the other.
///
/// Returns what [`evaluate_tokens`] defines: the term that the sequence
/// reduces to, `InvalidOperatorPosition` where the first or the second stage
/// fails, and `Unknown` where the third does.
///
/// * The result is a term if and only if the sequence is [`well_formed`],
///   and the term is then the value of the sum of the grammar that the
///   sequence is the tokens of ([`is_sum_value`]).
/// * It is `InvalidOperatorPosition` if and only if some operator lacks an
///   operand that it needs: the sequence is not [`operators_placed`].
/// * It is `Unknown` in the remaining case.
///
/// `verbosity` is the level of diagnostics that the caller asked for; the
/// result does not depend on it.
pub fn compute(operation: &VecDeque<OperationUnit>, verbosity: u8) -> (result: Result<
    Term,
    ErrorList,
>)
    ensures
        term_outcome(result) == evaluate_tokens(tokens_of(operation@)),
        result is Ok <==> well_formed(tokens_of(operation@)),
        result matches Ok(term) ==> is_sum_value(tokens_of(operation@), term@),
        result matches Err(e) ==> e@ == if operators_placed(tokens_of(operation@)) {
            ErrorKind::Unknown
        } else {
            ErrorKind::InvalidOperatorPosition
        },
{
    proof {
        theorem_error_kinds(tokens_of(operation@));
        theorem_token_errors(tokens_of(operation@));
        if let Ok(value) = evaluate_tokens(tokens_of(operation@)) {
            theorem_value_is_sum_value(tokens_of(operation@), value);
        }
    }
    match compute_unary(operation) {
        Err(err) => Err(err),
        Ok(signed) => match compute_multiply_divide(&signed) {
            Err(err) => Err(err),
            Ok(products) => compute_add_minus(&products),
        },
    }
}

} // verus!
