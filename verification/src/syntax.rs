//! Which token sequences have a value.
//!
//! [`well_formed`] reads a sequence once, with one bit of state, and accepts
//! the sequences in which every operator has the operands that it needs.
//! The theorems here show that the pipeline returns a value for exactly
//! these sequences, and that they are exactly the tokens of the sums of the
//! grammar.
use crate::calculation::evaluate;
use crate::compute::{
    evaluate_tokens,
    last_operand,
    operand_at,
    resolve_mul_div,
    resolve_unary,
    scan_mul_div,
    scan_unary,
    step_mul_div,
    step_unary,
};
use crate::grammar::{
    Factor,
    Product,
    Sum,
    lemma_extended_tokens,
    operand,
    operator,
    theorem_sum_value,
    theorem_text_value,
};
use crate::lexical::{
    all_literal,
    is_literal,
    lemma_spell_joined,
    lemma_spell_one,
    significant,
    spell,
    theorem_insignificant_characters,
    theorem_reading,
};
use crate::models::{ErrorKind, Expr, Operator, Token};
use crate::parser::tokenize;
use crate::stages::{
    alternates,
    alternates_additive,
    is_additive,
    is_multiplicative,
    lemma_add_sub_succeeds,
};
use vstd::prelude::*;

verus! {

/// The syntax of expressions, read from left to right. `after_operand` says
/// whether the tokens read so far end with a complete operand.
///
/// * An operand may stand at the beginning and behind `+`, `-`, `*` and `/`.
/// * `!`, `*` and `/` may stand behind an operand or a `!`.
/// * `+` may stand anywhere.
/// * `-` may stand behind an operand or a `!`; elsewhere it must stand
///   directly before an operand.
/// * The sequence ends with an operand or a `!`.
pub open spec fn reads(rest: Seq<Token>, after_operand: bool) -> bool
    decreases rest.len(),
{
    if rest.len() == 0 {
        after_operand
    } else {
        match rest[0] {
            Token::Operand(_) => !after_operand && reads(rest.skip(1), true),
            Token::Operator(Operator::Factorial) => after_operand && reads(rest.skip(1), true),
            Token::Operator(Operator::Add) => reads(rest.skip(1), false),
            Token::Operator(Operator::Minus) => if after_operand {
                reads(rest.skip(1), false)
            } else {
                operand_at(rest, 1) is Some && reads(rest.skip(2), true)
            },
            Token::Operator(_) => after_operand && reads(rest.skip(1), false),
        }
    }
}

/// The sequence is an expression: [`reads`] accepts it from the beginning.
pub open spec fn well_formed(tokens: Seq<Token>) -> bool {
    reads(tokens, false)
}

/// Both tokens are operands, or both are the same operator.
pub open spec fn same_kind(a: Token, b: Token) -> bool {
    (a is Operand && b is Operand) || a == b
}

/// `later` begins with tokens of the same kinds as those of `earlier`.
pub open spec fn keeps_kinds(earlier: Seq<Token>, later: Seq<Token>) -> bool {
    &&& earlier.len() <= later.len()
    &&& forall|j: int| 0 <= j < earlier.len() ==> same_kind(#[trigger] earlier[j], later[j])
}

/// What the first stage has put out keeps its kinds: later steps add tokens
/// at the end, or replace an operand at the end by an operand.
pub proof fn lemma_unary_keeps_kinds(rest: Seq<Token>, out: Seq<Token>)
    ensures
        scan_unary(rest, out) matches Ok(signed) ==> keeps_kinds(out, signed),
    decreases rest.len(),
{
    if rest.len() > 0 {
        if let Ok((step, grown)) = step_unary(rest, out) {
            lemma_unary_keeps_kinds(rest.skip(step), grown);
            assert(keeps_kinds(out, grown));
            if let Ok(signed) = scan_unary(rest, out) {
                assert(keeps_kinds(out, signed)) by {
                    assert forall|j: int| 0 <= j < out.len() implies same_kind(
                        #[trigger] out[j],
                        signed[j],
                    ) by {
                        assert(same_kind(out[j], grown[j]));
                        assert(same_kind(grown[j], signed[j]));
                    }
                }
            }
        }
    }
}

/// What the second stage has put out keeps its kinds.
proof fn lemma_mul_div_keeps_kinds(rest: Seq<Token>, out: Seq<Token>)
    ensures
        scan_mul_div(rest, out) matches Ok(products) ==> keeps_kinds(out, products),
    decreases rest.len(),
{
    if rest.len() > 0 {
        if let Ok((step, grown)) = step_mul_div(rest, out) {
            lemma_mul_div_keeps_kinds(rest.skip(step), grown);
            assert(keeps_kinds(out, grown));
            if let Ok(products) = scan_mul_div(rest, out) {
                assert(keeps_kinds(out, products)) by {
                    assert forall|j: int| 0 <= j < out.len() implies same_kind(
                        #[trigger] out[j],
                        products[j],
                    ) by {
                        assert(same_kind(out[j], grown[j]));
                        assert(same_kind(grown[j], products[j]));
                    }
                }
            }
        }
    }
}

/// The second stage returns operands joined by `+` and `-` only for operands
/// joined by `+`, `-`, `*` and `/`.
proof fn lemma_mul_div_input(rest: Seq<Token>, out: Seq<Token>)
    requires
        scan_mul_div(rest, out) matches Ok(products) && alternates_additive(products, 0),
    ensures
        alternates(rest, out.len() as int),
    decreases rest.len(),
{
    let products = scan_mul_div(rest, out)->Ok_0;
    lemma_mul_div_keeps_kinds(rest, out);
    if rest.len() > 0 {
        let (step, grown) = step_mul_div(rest, out)->Ok_0;
        let tail = rest.skip(step);
        assert(scan_mul_div(rest, out) == scan_mul_div(tail, grown));
        lemma_mul_div_input(tail, grown);
        lemma_mul_div_keeps_kinds(tail, grown);
        if step == 2 {
            assert(same_kind(out[out.len() - 1], products[out.len() - 1]));
        } else {
            assert(same_kind(grown[out.len() as int], products[out.len() as int]));
        }
        assert forall|j: int| 0 <= j < rest.len() implies if (j + out.len()) % 2 == 0 {
            #[trigger] rest[j] is Operand
        } else {
            is_additive(rest[j]) || is_multiplicative(rest[j])
        } by {
            if j >= step {
                assert(tail[j - step] == rest[j]);
            }
        }
    }
}

/// The first stage returns operands joined by binary operators only for an
/// expression.
proof fn lemma_unary_input(rest: Seq<Token>, out: Seq<Token>)
    requires
        scan_unary(rest, out) matches Ok(signed) && alternates(signed, 0),
    ensures
        reads(rest, out.len() % 2 == 1),
        (last_operand(out) is Some) == (out.len() % 2 == 1),
    decreases rest.len(),
{
    let signed = scan_unary(rest, out)->Ok_0;
    lemma_unary_keeps_kinds(rest, out);
    if out.len() > 0 {
        assert(same_kind(out[out.len() - 1], signed[out.len() - 1]));
    }
    if rest.len() > 0 {
        let (step, grown) = step_unary(rest, out)->Ok_0;
        let tail = rest.skip(step);
        assert(scan_unary(rest, out) == scan_unary(tail, grown));
        lemma_unary_input(tail, grown);
        lemma_unary_keeps_kinds(tail, grown);
        if grown.len() > out.len() {
            assert(same_kind(grown[out.len() as int], signed[out.len() as int]));
        }
    }
}

/// A value means an expression: the pipeline returns a value only for a
/// well-formed sequence.
pub proof fn theorem_value_needs_syntax(tokens: Seq<Token>)
    requires
        evaluate_tokens(tokens) is Ok,
    ensures
        well_formed(tokens),
{
    let none = Seq::<Token>::empty();
    let signed = resolve_unary(tokens)->Ok_0;
    let products = resolve_mul_div(signed)->Ok_0;
    lemma_add_sub_succeeds(products, Seq::empty());
    lemma_mul_div_input(signed, none);
    lemma_unary_input(tokens, none);
}

/// The sequence is the tokens of a sum of the grammar.
pub open spec fn is_sum(tokens: Seq<Token>) -> bool {
    exists|s: Sum| s.tokens() == tokens
}

/// Whatever factor follows `prefix`, the two together are the tokens of a sum.
pub open spec fn awaits_factor(prefix: Seq<Token>) -> bool {
    forall|f: Factor| is_sum(prefix + #[trigger] f.tokens())
}

/// After a sum, or before a factor that completes a sum, what [`reads`]
/// accepts completes a sum.
proof fn lemma_reads_sum(prefix: Seq<Token>, rest: Seq<Token>, after_operand: bool)
    requires
        reads(rest, after_operand),
        if after_operand {
            is_sum(prefix)
        } else {
            awaits_factor(prefix)
        },
    ensures
        is_sum(prefix + rest),
    decreases rest.len(),
{
    if rest.len() == 0 {
        assert(prefix + rest =~= prefix);
    } else if after_operand {
        let s = choose|s: Sum| s.tokens() == prefix;
        let op = rest[0]->Operator_0;
        let read = prefix + operator(op);
        assert(read + rest.skip(1) =~= prefix + rest);
        if op == Operator::Factorial {
            lemma_extended_tokens(s, op, Factor::Operand(Expr::Literal(Seq::empty())));
            assert(s.with_factorial().tokens() == read);
        } else {
            assert forall|f: Factor| is_sum(read + #[trigger] f.tokens()) by {
                lemma_extended_tokens(s, op, f);
                if op == Operator::Add || op == Operator::Minus {
                    assert(s.with_product(op, f).tokens() == read + f.tokens());
                } else {
                    assert(s.with_factor(op, f).tokens() == read + f.tokens());
                }
            }
        }
        lemma_reads_sum(read, rest.skip(1), op == Operator::Factorial);
    } else {
        match rest[0] {
            Token::Operand(x) => {
                let read = prefix + Factor::Operand(x).tokens();
                assert(read + rest.skip(1) =~= prefix + rest);
                lemma_reads_sum(read, rest.skip(1), true);
            },
            Token::Operator(Operator::Minus) => {
                let x = operand_at(rest, 1)->0;
                let read = prefix + Factor::Negated(x).tokens();
                assert(read + rest.skip(2) =~= prefix + rest);
                lemma_reads_sum(read, rest.skip(2), true);
            },
            Token::Operator(_) => {
                let read = prefix + operator(Operator::Add);
                assert(read + rest.skip(1) =~= prefix + rest);
                assert forall|f: Factor| is_sum(read + #[trigger] f.tokens()) by {
                    let signed = Factor::Signed(Box::new(f));
                    assert(prefix + signed.tokens() =~= read + f.tokens());
                }
                lemma_reads_sum(read, rest.skip(1), false);
            },
        }
    }
}

/// An expression is a sum: a well-formed sequence is the tokens of a sum of
/// the grammar.
pub proof fn theorem_syntax_is_sum(tokens: Seq<Token>)
    requires
        well_formed(tokens),
    ensures
        is_sum(tokens),
{
    let none = Seq::<Token>::empty();
    assert forall|f: Factor| is_sum(none + #[trigger] f.tokens()) by {
        assert(Sum::Product(Product::Factor(f)).tokens() =~= none + f.tokens());
    }
    lemma_reads_sum(none, tokens, false);
    assert(none + tokens =~= tokens);
}

/// The three descriptions of an expression agree: the pipeline returns a
/// value for a sequence of tokens if and only if the sequence is
/// well-formed, and if and only if it is the tokens of a sum of the grammar.
pub proof fn theorem_value_iff_syntax(tokens: Seq<Token>)
    ensures
        evaluate_tokens(tokens) is Ok <==> well_formed(tokens),
        evaluate_tokens(tokens) is Ok <==> is_sum(tokens),
{
    if evaluate_tokens(tokens) is Ok {
        theorem_value_needs_syntax(tokens);
    }
    if well_formed(tokens) {
        theorem_syntax_is_sum(tokens);
    }
    if is_sum(tokens) {
        let s = choose|s: Sum| s.tokens() == tokens;
        theorem_sum_value(s);
    }
}

/// `value` is the value of a sum of the grammar, and `tokens` are the tokens
/// of that sum.
pub open spec fn is_sum_value(tokens: Seq<Token>, value: Expr) -> bool {
    exists|s: Sum| s.tokens() == tokens && s.value() == value
}

/// The pipeline returns a value for a sequence of tokens if and only if that
/// is the value of a sum with these tokens. No two sums with the same tokens
/// differ in their value.
pub proof fn theorem_value_is_sum_value(tokens: Seq<Token>, value: Expr)
    ensures
        evaluate_tokens(tokens) == Ok::<Expr, ErrorKind>(value) <==> is_sum_value(tokens, value),
{
    if evaluate_tokens(tokens) is Ok {
        theorem_value_iff_syntax(tokens);
        let s = choose|s: Sum| s.tokens() == tokens;
        theorem_sum_value(s);
    }
    if is_sum_value(tokens, value) {
        let s = choose|s: Sum| s.tokens() == tokens && s.value() == value;
        theorem_sum_value(s);
    }
}

/// Where two sequences together hold literals only, each of them does.
proof fn lemma_all_literal_split(a: Seq<Token>, b: Seq<Token>)
    requires
        all_literal(a + b),
    ensures
        all_literal(a),
        all_literal(b),
{
    assert forall|j: int| 0 <= j < a.len() implies (#[trigger] a[j] matches Token::Operand(x)
        ==> is_literal(x)) by {
        assert((a + b)[j] == a[j]);
    }
    assert forall|j: int| 0 <= j < b.len() implies (#[trigger] b[j] matches Token::Operand(x)
        ==> is_literal(x)) by {
        assert((a + b)[j + a.len()] == b[j]);
    }
}

/// A factor whose tokens hold literals only is written with the characters
/// of its tokens.
proof fn lemma_factor_spelling(f: Factor)
    requires
        all_literal(f.tokens()),
    ensures
        f.literal(),
        spell(f.tokens()) == f.text(),
    decreases f,
{
    match f {
        Factor::Operand(x) => {
            assert(f.tokens()[0] == Token::Operand(x));
            lemma_spell_one(Token::Operand(x));
        },
        Factor::Negated(x) => {
            assert(f.tokens()[1] == Token::Operand(x));
            lemma_spell_joined(operator(Operator::Minus), operand(x));
            lemma_spell_one(Token::Operator(Operator::Minus));
            lemma_spell_one(Token::Operand(x));
        },
        Factor::Signed(g) => {
            lemma_all_literal_split(operator(Operator::Add), g.tokens());
            lemma_factor_spelling(*g);
            lemma_spell_joined(operator(Operator::Add), g.tokens());
            lemma_spell_one(Token::Operator(Operator::Add));
        },
        Factor::Factorial(g) => {
            lemma_all_literal_split(g.tokens(), operator(Operator::Factorial));
            lemma_factor_spelling(*g);
            lemma_spell_joined(g.tokens(), operator(Operator::Factorial));
            lemma_spell_one(Token::Operator(Operator::Factorial));
        },
    }
}

/// A product whose tokens hold literals only is written with the characters
/// of its tokens.
proof fn lemma_product_spelling(p: Product)
    requires
        all_literal(p.tokens()),
    ensures
        p.literal(),
        spell(p.tokens()) == p.text(),
    decreases p,
{
    match p {
        Product::Factor(f) => {
            lemma_factor_spelling(f);
        },
        Product::Multiply(q, f) => {
            lemma_all_literal_split(q.tokens() + operator(Operator::Multiply), f.tokens());
            lemma_all_literal_split(q.tokens(), operator(Operator::Multiply));
            lemma_product_spelling(*q);
            lemma_factor_spelling(f);
            lemma_spell_joined(q.tokens() + operator(Operator::Multiply), f.tokens());
            lemma_spell_joined(q.tokens(), operator(Operator::Multiply));
            lemma_spell_one(Token::Operator(Operator::Multiply));
        },
        Product::Divide(q, f) => {
            lemma_all_literal_split(q.tokens() + operator(Operator::Divide), f.tokens());
            lemma_all_literal_split(q.tokens(), operator(Operator::Divide));
            lemma_product_spelling(*q);
            lemma_factor_spelling(f);
            lemma_spell_joined(q.tokens() + operator(Operator::Divide), f.tokens());
            lemma_spell_joined(q.tokens(), operator(Operator::Divide));
            lemma_spell_one(Token::Operator(Operator::Divide));
        },
    }
}

/// A sum whose tokens hold literals only is written with the characters of
/// its tokens.
proof fn lemma_sum_spelling(s: Sum)
    requires
        all_literal(s.tokens()),
    ensures
        s.literal(),
        spell(s.tokens()) == s.text(),
    decreases s,
{
    match s {
        Sum::Product(p) => {
            lemma_product_spelling(p);
        },
        Sum::Add(r, p) => {
            lemma_all_literal_split(r.tokens() + operator(Operator::Add), p.tokens());
            lemma_all_literal_split(r.tokens(), operator(Operator::Add));
            lemma_sum_spelling(*r);
            lemma_product_spelling(p);
            lemma_spell_joined(r.tokens() + operator(Operator::Add), p.tokens());
            lemma_spell_joined(r.tokens(), operator(Operator::Add));
            lemma_spell_one(Token::Operator(Operator::Add));
        },
        Sum::Subtract(r, p) => {
            lemma_all_literal_split(r.tokens() + operator(Operator::Minus), p.tokens());
            lemma_all_literal_split(r.tokens(), operator(Operator::Minus));
            lemma_sum_spelling(*r);
            lemma_product_spelling(p);
            lemma_spell_joined(r.tokens() + operator(Operator::Minus), p.tokens());
            lemma_spell_joined(r.tokens(), operator(Operator::Minus));
            lemma_spell_one(Token::Operator(Operator::Minus));
        },
    }
}

/// The significant characters of the text are a sum of decimal literals,
/// written out.
pub open spec fn spells_sum(text: Seq<char>) -> bool {
    exists|s: Sum| spelled_by(s, text)
}

/// `s` is a sum of decimal literals, and the significant characters of
/// `text` are `s` written out.
pub open spec fn spelled_by(s: Sum, text: Seq<char>) -> bool {
    s.literal() && s.text() == significant(text)
}

/// The value of a text whose significant characters spell a sum is the value
/// of the sum.
pub proof fn theorem_spelled_value(s: Sum, text: Seq<char>)
    requires
        spelled_by(s, text),
    ensures
        evaluate(text) == Ok::<Expr, ErrorKind>(s.value()),
{
    theorem_insignificant_characters(text);
    theorem_text_value(s);
}

/// `value` is the value of a sum of decimal literals, and the significant
/// characters of `text` are that sum written out.
pub open spec fn spells_value(text: Seq<char>, value: Expr) -> bool {
    exists|s: Sum| spelled_by(s, text) && s.value() == value
}

/// A text has a value if and only if its significant characters spell a sum
/// of decimal literals, and the value is the value of that sum.
pub proof fn theorem_text_value_iff_syntax(text: Seq<char>)
    ensures
        evaluate(text) is Ok <==> spells_sum(text),
        forall|value: Expr|
            evaluate(text) == Ok::<Expr, ErrorKind>(value) <==> #[trigger] spells_value(
                text,
                value,
            ),
{
    assert forall|value: Expr|
        evaluate(text) == Ok::<Expr, ErrorKind>(value) <==> #[trigger] spells_value(
            text,
            value,
        ) by {
        if spells_value(text, value) {
            let s = choose|s: Sum| spelled_by(s, text) && s.value() == value;
            theorem_spelled_value(s, text);
        }
        if evaluate(text) == Ok::<Expr, ErrorKind>(value) {
            lemma_value_spelled(text);
            let s = choose|s: Sum| spelled_by(s, text);
            theorem_spelled_value(s, text);
        }
    }
    if evaluate(text) is Ok {
        lemma_value_spelled(text);
    }
    if spells_sum(text) {
        let s = choose|s: Sum| spelled_by(s, text);
        theorem_spelled_value(s, text);
    }
}

/// A text that has a value spells a sum.
proof fn lemma_value_spelled(text: Seq<char>)
    requires
        evaluate(text) is Ok,
    ensures
        spells_sum(text),
{
    let tokens = tokenize(text)->Ok_0;
    theorem_value_iff_syntax(tokens);
    let s = choose|s: Sum| s.tokens() == tokens;
    theorem_reading(text, tokens);
    lemma_sum_spelling(s);
    assert(spelled_by(s, text));
}

} // verus!
