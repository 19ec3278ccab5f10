//! The grammar that the calculator accepts, and the proof that the three
//! stages evaluate it by the usual rules of precedence.
//!
//! ```text
//! sum     = product | sum "+" product | sum "-" product
//! product = factor  | product "*" factor | product "/" factor
//! factor  = operand | "-" operand | "+" factor | factor "!"
//! ```
//!
//! [`Sum`], [`Product`] and [`Factor`] are the derivations of this grammar.
//! Each has its tokens, its text (where its operands are literals) and its
//! value, which is defined by the derivation alone: `!` applies to the factor
//! before it, `*` and `/` bind tighter than `+` and `-`, and operators of one
//! level associate to the left. [`theorem_sum_value`] and
//! [`theorem_text_value`] state that the pipeline computes exactly that value.
use crate::calculation::evaluate;
use crate::compute::{
    evaluate_tokens,
    last_operand,
    resolve_add_sub,
    resolve_mul_div,
    resolve_unary,
    scan_add_sub,
    scan_mul_div,
    scan_unary,
};
use crate::lexical::{is_literal, lemma_scan_numeric_run, lemma_scan_operator, literal_text};
use crate::models::{ErrorKind, Expr, Operator, Token, operator_of};
use crate::parser::{scan_text, tokenize};
use vstd::prelude::*;

verus! {

/// An operand with its signs and factorials.
pub enum Factor {
    /// An operand alone.
    Operand(Expr),
    /// `-` and the operand that it negates.
    Negated(Expr),
    /// `+` before a factor: a sign without effect.
    Signed(Box<Factor>),
    /// A factor and `!` behind it.
    Factorial(Box<Factor>),
}

/// Factors joined by `*` and `/`.
pub enum Product {
    Factor(Factor),
    Multiply(Box<Product>, Factor),
    Divide(Box<Product>, Factor),
}

/// Products joined by `+` and `-`.
pub enum Sum {
    Product(Product),
    Add(Box<Sum>, Product),
    Subtract(Box<Sum>, Product),
}

/// The token of an operator.
pub open spec fn operator(op: Operator) -> Seq<Token> {
    seq![Token::Operator(op)]
}

/// The token of an operand.
pub open spec fn operand(x: Expr) -> Seq<Token> {
    seq![Token::Operand(x)]
}

impl Factor {
    /// The tokens of the factor, in the order in which they are written.
    pub open spec fn tokens(self) -> Seq<Token>
        decreases self,
    {
        match self {
            Factor::Operand(x) => operand(x),
            Factor::Negated(x) => operator(Operator::Minus) + operand(x),
            Factor::Signed(f) => operator(Operator::Add) + f.tokens(),
            Factor::Factorial(f) => f.tokens() + operator(Operator::Factorial),
        }
    }

    /// The value of the factor.
    pub open spec fn value(self) -> Expr
        decreases self,
    {
        match self {
            Factor::Operand(x) => x,
            Factor::Negated(x) => x.negated(),
            Factor::Signed(f) => f.value(),
            Factor::Factorial(f) => f.value().factorial(),
        }
    }

    /// Every operand of the factor is a decimal literal.
    pub open spec fn literal(self) -> bool
        decreases self,
    {
        match self {
            Factor::Operand(x) => is_literal(x),
            Factor::Negated(x) => is_literal(x),
            Factor::Signed(f) => f.literal(),
            Factor::Factorial(f) => f.literal(),
        }
    }

    /// The factor written out: the texts of its literals and the symbols of
    /// its operators.
    pub open spec fn text(self) -> Seq<char>
        decreases self,
    {
        match self {
            Factor::Operand(x) => literal_text(x),
            Factor::Negated(x) => seq!['-'] + literal_text(x),
            Factor::Signed(f) => seq!['+'] + f.text(),
            Factor::Factorial(f) => f.text() + seq!['!'],
        }
    }
}

impl Product {
    /// The tokens of the product, in the order in which they are written.
    pub open spec fn tokens(self) -> Seq<Token>
        decreases self,
    {
        match self {
            Product::Factor(f) => f.tokens(),
            Product::Multiply(p, f) => p.tokens() + operator(Operator::Multiply) + f.tokens(),
            Product::Divide(p, f) => p.tokens() + operator(Operator::Divide) + f.tokens(),
        }
    }

    /// The tokens of the product with each factor reduced to its value.
    pub open spec fn factors(self) -> Seq<Token>
        decreases self,
    {
        match self {
            Product::Factor(f) => operand(f.value()),
            Product::Multiply(p, f) => p.factors() + operator(Operator::Multiply) + operand(
                f.value(),
            ),
            Product::Divide(p, f) => p.factors() + operator(Operator::Divide) + operand(
                f.value(),
            ),
        }
    }

    /// The value of the product: its factors multiplied and divided from the
    /// left.
    pub open spec fn value(self) -> Expr
        decreases self,
    {
        match self {
            Product::Factor(f) => f.value(),
            Product::Multiply(p, f) => p.value().times(f.value()),
            Product::Divide(p, f) => p.value().over(f.value()),
        }
    }

    /// Every operand of the product is a decimal literal.
    pub open spec fn literal(self) -> bool
        decreases self,
    {
        match self {
            Product::Factor(f) => f.literal(),
            Product::Multiply(p, f) => p.literal() && f.literal(),
            Product::Divide(p, f) => p.literal() && f.literal(),
        }
    }

    /// The product written out.
    pub open spec fn text(self) -> Seq<char>
        decreases self,
    {
        match self {
            Product::Factor(f) => f.text(),
            Product::Multiply(p, f) => p.text() + seq!['*'] + f.text(),
            Product::Divide(p, f) => p.text() + seq!['/'] + f.text(),
        }
    }

    /// The product with a `!` behind its last factor.
    pub open spec fn with_factorial(self) -> Product {
        match self {
            Product::Factor(f) => Product::Factor(Factor::Factorial(Box::new(f))),
            Product::Multiply(p, f) => Product::Multiply(p, Factor::Factorial(Box::new(f))),
            Product::Divide(p, f) => Product::Divide(p, Factor::Factorial(Box::new(f))),
        }
    }

    /// The product multiplied by `f`, or divided by `f` where `op` is `/`.
    pub open spec fn with_factor(self, op: Operator, f: Factor) -> Product {
        if op == Operator::Divide {
            Product::Divide(Box::new(self), f)
        } else {
            Product::Multiply(Box::new(self), f)
        }
    }
}

impl Sum {
    /// The tokens of the sum, in the order in which they are written.
    pub open spec fn tokens(self) -> Seq<Token>
        decreases self,
    {
        match self {
            Sum::Product(p) => p.tokens(),
            Sum::Add(s, p) => s.tokens() + operator(Operator::Add) + p.tokens(),
            Sum::Subtract(s, p) => s.tokens() + operator(Operator::Minus) + p.tokens(),
        }
    }

    /// The tokens of the sum with each factor reduced to its value.
    pub open spec fn factors(self) -> Seq<Token>
        decreases self,
    {
        match self {
            Sum::Product(p) => p.factors(),
            Sum::Add(s, p) => s.factors() + operator(Operator::Add) + p.factors(),
            Sum::Subtract(s, p) => s.factors() + operator(Operator::Minus) + p.factors(),
        }
    }

    /// The tokens of the sum with each product reduced to its value.
    pub open spec fn products(self) -> Seq<Token>
        decreases self,
    {
        match self {
            Sum::Product(p) => operand(p.value()),
            Sum::Add(s, p) => s.products() + operator(Operator::Add) + operand(p.value()),
            Sum::Subtract(s, p) => s.products() + operator(Operator::Minus) + operand(p.value()),
        }
    }

    /// The value of the sum: its products added and subtracted from the left.
    pub open spec fn value(self) -> Expr
        decreases self,
    {
        match self {
            Sum::Product(p) => p.value(),
            Sum::Add(s, p) => s.value().plus(p.value()),
            Sum::Subtract(s, p) => s.value().minus(p.value()),
        }
    }

    /// Every operand of the sum is a decimal literal.
    pub open spec fn literal(self) -> bool
        decreases self,
    {
        match self {
            Sum::Product(p) => p.literal(),
            Sum::Add(s, p) => s.literal() && p.literal(),
            Sum::Subtract(s, p) => s.literal() && p.literal(),
        }
    }

    /// The sum written out.
    pub open spec fn text(self) -> Seq<char>
        decreases self,
    {
        match self {
            Sum::Product(p) => p.text(),
            Sum::Add(s, p) => s.text() + seq!['+'] + p.text(),
            Sum::Subtract(s, p) => s.text() + seq!['-'] + p.text(),
        }
    }

    /// The sum with a `!` behind its last factor.
    pub open spec fn with_factorial(self) -> Sum {
        match self {
            Sum::Product(p) => Sum::Product(p.with_factorial()),
            Sum::Add(s, p) => Sum::Add(s, p.with_factorial()),
            Sum::Subtract(s, p) => Sum::Subtract(s, p.with_factorial()),
        }
    }

    /// The sum with its last product multiplied by `f`, or divided by `f`
    /// where `op` is `/`.
    pub open spec fn with_factor(self, op: Operator, f: Factor) -> Sum {
        match self {
            Sum::Product(p) => Sum::Product(p.with_factor(op, f)),
            Sum::Add(s, p) => Sum::Add(s, p.with_factor(op, f)),
            Sum::Subtract(s, p) => Sum::Subtract(s, p.with_factor(op, f)),
        }
    }

    /// The sum with the factor `f` added, or subtracted where `op` is `-`.
    pub open spec fn with_product(self, op: Operator, f: Factor) -> Sum {
        if op == Operator::Minus {
            Sum::Subtract(Box::new(self), Product::Factor(f))
        } else {
            Sum::Add(Box::new(self), Product::Factor(f))
        }
    }
}

/// The tokens of a sum that has been extended at its end are the tokens of
/// the sum and those of the extension.
pub proof fn lemma_extended_tokens(s: Sum, op: Operator, f: Factor)
    ensures
        s.with_factorial().tokens() == s.tokens() + operator(Operator::Factorial),
        op == Operator::Multiply || op == Operator::Divide ==> s.with_factor(op, f).tokens()
            == s.tokens() + operator(op) + f.tokens(),
        op == Operator::Add || op == Operator::Minus ==> s.with_product(op, f).tokens()
            == s.tokens() + operator(op) + f.tokens(),
{
    let bang = operator(Operator::Factorial);
    let last = match s {
        Sum::Product(p) => p,
        Sum::Add(_, p) => p,
        Sum::Subtract(_, p) => p,
    };
    assert(last.with_factorial().tokens() =~= last.tokens() + bang) by {
        match last {
            Product::Factor(g) => {},
            Product::Multiply(q, g) => {
                assert(Product::Multiply(q, Factor::Factorial(Box::new(g))).tokens()
                    == q.tokens() + operator(Operator::Multiply) + (g.tokens() + bang));
            },
            Product::Divide(q, g) => {
                assert(Product::Divide(q, Factor::Factorial(Box::new(g))).tokens() == q.tokens()
                    + operator(Operator::Divide) + (g.tokens() + bang));
            },
        }
    }
    assert(s.with_factorial().tokens() =~= s.tokens() + bang);
    if op == Operator::Multiply || op == Operator::Divide {
        assert(last.with_factor(op, f).tokens() == last.tokens() + operator(op) + f.tokens());
        assert(s.with_factor(op, f).tokens() =~= s.tokens() + operator(op) + f.tokens());
    }
    if op == Operator::Add || op == Operator::Minus {
        assert(Product::Factor(f).tokens() == f.tokens());
    }
}

/// What the first token of a sequence and the tokens behind it are.
proof fn lemma_first<A>(t: A, rest: Seq<A>)
    ensures
        (seq![t] + rest).len() == rest.len() + 1,
        (seq![t] + rest)[0] == t,
        (seq![t] + rest).skip(1) == rest,
{
    assert((seq![t] + rest).skip(1) =~= rest);
}

/// What the first two tokens of a sequence and the tokens behind them are.
proof fn lemma_first_two<A>(t: A, u: A, rest: Seq<A>)
    ensures
        (seq![t] + seq![u] + rest).len() == rest.len() + 2,
        (seq![t] + seq![u] + rest)[0] == t,
        (seq![t] + seq![u] + rest)[1] == u,
        (seq![t] + seq![u] + rest).skip(2) == rest,
{
    assert((seq![t] + seq![u] + rest).skip(2) =~= rest);
}

/// The first stage reads a factor that does not stand behind an operand as
/// one operand: its value.
pub proof fn lemma_unary_factor(f: Factor, rest: Seq<Token>, out: Seq<Token>)
    requires
        last_operand(out) is None,
    ensures
        scan_unary(f.tokens() + rest, out) == scan_unary(rest, out + operand(f.value())),
    decreases f,
{
    match f {
        Factor::Operand(x) => {
            lemma_first(Token::Operand(x), rest);
            assert(out.push(Token::Operand(x)) =~= out + operand(x));
        },
        Factor::Negated(x) => {
            lemma_first_two(Token::Operator(Operator::Minus), Token::Operand(x), rest);
            assert(out.push(Token::Operand(f.value())) =~= out + operand(f.value()));
        },
        Factor::Signed(g) => {
            lemma_first(Token::Operator(Operator::Add), g.tokens() + rest);
            assert(f.tokens() + rest =~= operator(Operator::Add) + (g.tokens() + rest));
            lemma_unary_factor(*g, rest, out);
        },
        Factor::Factorial(g) => {
            let bang = operator(Operator::Factorial);
            assert(f.tokens() + rest =~= g.tokens() + (bang + rest));
            lemma_unary_factor(*g, bang + rest, out);
            lemma_first(Token::Operator(Operator::Factorial), rest);
            let read = out + operand(g.value());
            assert(last_operand(read) == Some(g.value()));
            assert(read.drop_last().push(Token::Operand(f.value())) =~= out + operand(
                f.value(),
            ));
        },
    }
}

/// The first stage passes a `*`, a `/`, or a `+` or `-` behind an operand on.
proof fn lemma_unary_binary(op: Operator, rest: Seq<Token>, out: Seq<Token>)
    requires
        op != Operator::Factorial,
        last_operand(out) is Some,
    ensures
        scan_unary(operator(op) + rest, out) == scan_unary(rest, out + operator(op)),
        last_operand(out + operator(op)) is None,
{
    lemma_first(Token::Operator(op), rest);
    assert(out.push(Token::Operator(op)) =~= out + operator(op));
}

/// The first stage reduces each factor of a product to its value.
pub proof fn lemma_unary_product(p: Product, rest: Seq<Token>, out: Seq<Token>)
    requires
        last_operand(out) is None,
    ensures
        scan_unary(p.tokens() + rest, out) == scan_unary(rest, out + p.factors()),
        last_operand(out + p.factors()) is Some,
    decreases p, 0nat,
{
    match p {
        Product::Factor(f) => {
            lemma_unary_factor(f, rest, out);
        },
        Product::Multiply(q, f) => {
            lemma_unary_joined(*q, Operator::Multiply, f, rest, out);
        },
        Product::Divide(q, f) => {
            lemma_unary_joined(*q, Operator::Divide, f, rest, out);
        },
    }
}

/// The first stage on a product, an operator and a factor behind them.
proof fn lemma_unary_joined(q: Product, op: Operator, f: Factor, rest: Seq<Token>, out: Seq<Token>)
    requires
        last_operand(out) is None,
        op != Operator::Factorial,
    ensures
        scan_unary(q.tokens() + operator(op) + f.tokens() + rest, out) == scan_unary(
            rest,
            out + (q.factors() + operator(op) + operand(f.value())),
        ),
        last_operand(out + (q.factors() + operator(op) + operand(f.value()))) is Some,
    decreases q, 1nat,
{
    let tail = operator(op) + (f.tokens() + rest);
    assert(q.tokens() + operator(op) + f.tokens() + rest =~= q.tokens() + tail);
    lemma_unary_product(q, tail, out);
    lemma_unary_binary(op, f.tokens() + rest, out + q.factors());
    lemma_unary_factor(f, rest, out + q.factors() + operator(op));
    assert(out + q.factors() + operator(op) + operand(f.value()) =~= out + (q.factors()
        + operator(op) + operand(f.value())));
}

/// The first stage reduces each factor of a sum to its value.
pub proof fn lemma_unary_sum(s: Sum, rest: Seq<Token>, out: Seq<Token>)
    requires
        last_operand(out) is None,
    ensures
        scan_unary(s.tokens() + rest, out) == scan_unary(rest, out + s.factors()),
        last_operand(out + s.factors()) is Some,
    decreases s, 0nat,
{
    match s {
        Sum::Product(p) => {
            lemma_unary_product(p, rest, out);
        },
        Sum::Add(r, p) => {
            lemma_unary_added(*r, Operator::Add, p, rest, out);
        },
        Sum::Subtract(r, p) => {
            lemma_unary_added(*r, Operator::Minus, p, rest, out);
        },
    }
}

/// The first stage on a sum, an operator and a product behind them.
proof fn lemma_unary_added(r: Sum, op: Operator, p: Product, rest: Seq<Token>, out: Seq<Token>)
    requires
        last_operand(out) is None,
        op != Operator::Factorial,
    ensures
        scan_unary(r.tokens() + operator(op) + p.tokens() + rest, out) == scan_unary(
            rest,
            out + (r.factors() + operator(op) + p.factors()),
        ),
        last_operand(out + (r.factors() + operator(op) + p.factors())) is Some,
    decreases r, 1nat,
{
    let tail = operator(op) + (p.tokens() + rest);
    assert(r.tokens() + operator(op) + p.tokens() + rest =~= r.tokens() + tail);
    lemma_unary_sum(r, tail, out);
    lemma_unary_binary(op, p.tokens() + rest, out + r.factors());
    lemma_unary_product(p, rest, out + r.factors() + operator(op));
    assert(out + r.factors() + operator(op) + p.factors() =~= out + (r.factors() + operator(op)
        + p.factors()));
}

/// The second stage reads the factors of a product as one operand: the value
/// of the product.
pub proof fn lemma_mul_div_product(p: Product, rest: Seq<Token>, out: Seq<Token>)
    ensures
        scan_mul_div(p.factors() + rest, out) == scan_mul_div(rest, out + operand(p.value())),
    decreases p, 0nat,
{
    match p {
        Product::Factor(f) => {
            lemma_first(Token::Operand(f.value()), rest);
            assert(out.push(Token::Operand(f.value())) =~= out + operand(f.value()));
        },
        Product::Multiply(q, f) => {
            lemma_mul_div_joined(*q, Operator::Multiply, f, rest, out);
        },
        Product::Divide(q, f) => {
            lemma_mul_div_joined(*q, Operator::Divide, f, rest, out);
        },
    }
}

/// The second stage on the factors of a product, a `*` or `/` and one more
/// factor: the three are read as their product or quotient.
proof fn lemma_mul_div_joined(
    q: Product,
    op: Operator,
    f: Factor,
    rest: Seq<Token>,
    out: Seq<Token>,
)
    requires
        op == Operator::Multiply || op == Operator::Divide,
    ensures
        scan_mul_div(q.factors() + operator(op) + operand(f.value()) + rest, out) == scan_mul_div(
            rest,
            out + operand(crate::compute::multiplied(op, q.value(), f.value())),
        ),
    decreases q, 1nat,
{
    let tail = operator(op) + operand(f.value()) + rest;
    assert(q.factors() + operator(op) + operand(f.value()) + rest =~= q.factors() + tail);
    lemma_mul_div_product(q, tail, out);
    lemma_first_two(Token::Operator(op), Token::Operand(f.value()), rest);
    let read = out + operand(q.value());
    assert(last_operand(read) == Some(q.value()));
    let joined = crate::compute::multiplied(op, q.value(), f.value());
    assert(read.drop_last().push(Token::Operand(joined)) =~= out + operand(joined));
}

/// The second stage passes a `+` or `-` on.
proof fn lemma_mul_div_additive(op: Operator, rest: Seq<Token>, out: Seq<Token>)
    requires
        op == Operator::Add || op == Operator::Minus,
    ensures
        scan_mul_div(operator(op) + rest, out) == scan_mul_div(rest, out + operator(op)),
{
    lemma_first(Token::Operator(op), rest);
    assert(out.push(Token::Operator(op)) =~= out + operator(op));
}

/// The second stage reduces each product of a sum to its value.
pub proof fn lemma_mul_div_sum(s: Sum, rest: Seq<Token>, out: Seq<Token>)
    ensures
        scan_mul_div(s.factors() + rest, out) == scan_mul_div(rest, out + s.products()),
    decreases s, 0nat,
{
    match s {
        Sum::Product(p) => {
            lemma_mul_div_product(p, rest, out);
        },
        Sum::Add(r, p) => {
            lemma_mul_div_added(*r, Operator::Add, p, rest, out);
        },
        Sum::Subtract(r, p) => {
            lemma_mul_div_added(*r, Operator::Minus, p, rest, out);
        },
    }
}

/// The second stage on the factors of a sum, a `+` or `-` and the factors of
/// one more product.
proof fn lemma_mul_div_added(r: Sum, op: Operator, p: Product, rest: Seq<Token>, out: Seq<Token>)
    requires
        op == Operator::Add || op == Operator::Minus,
    ensures
        scan_mul_div(r.factors() + operator(op) + p.factors() + rest, out) == scan_mul_div(
            rest,
            out + (r.products() + operator(op) + operand(p.value())),
        ),
    decreases r, 1nat,
{
    let tail = operator(op) + (p.factors() + rest);
    assert(r.factors() + operator(op) + p.factors() + rest =~= r.factors() + tail);
    lemma_mul_div_sum(r, tail, out);
    lemma_mul_div_additive(op, p.factors() + rest, out + r.products());
    lemma_mul_div_product(p, rest, out + r.products() + operator(op));
    assert(out + r.products() + operator(op) + operand(p.value()) =~= out + (r.products()
        + operator(op) + operand(p.value())));
}

/// The third stage reads the products of a sum as one operand: the value of
/// the sum.
pub proof fn lemma_add_sub_sum(s: Sum, rest: Seq<Token>, stack: Seq<Expr>)
    ensures
        scan_add_sub(s.products() + rest, stack) == scan_add_sub(rest, stack.push(s.value())),
    decreases s, 0nat,
{
    match s {
        Sum::Product(p) => {
            lemma_first(Token::Operand(p.value()), rest);
        },
        Sum::Add(r, p) => {
            lemma_add_sub_added(*r, Operator::Add, p, rest, stack);
        },
        Sum::Subtract(r, p) => {
            lemma_add_sub_added(*r, Operator::Minus, p, rest, stack);
        },
    }
}

/// The third stage on the products of a sum, a `+` or `-` and one more
/// product: the three are read as their sum or difference.
proof fn lemma_add_sub_added(r: Sum, op: Operator, p: Product, rest: Seq<Token>, stack: Seq<Expr>)
    requires
        op == Operator::Add || op == Operator::Minus,
    ensures
        scan_add_sub(r.products() + operator(op) + operand(p.value()) + rest, stack)
            == scan_add_sub(
            rest,
            stack.push(crate::compute::added(op, r.value(), p.value())),
        ),
    decreases r, 1nat,
{
    let tail = operator(op) + operand(p.value()) + rest;
    assert(r.products() + operator(op) + operand(p.value()) + rest =~= r.products() + tail);
    lemma_add_sub_sum(r, tail, stack);
    lemma_first_two(Token::Operator(op), Token::Operand(p.value()), rest);
    let read = stack.push(r.value());
    let joined = crate::compute::added(op, r.value(), p.value());
    assert(read.drop_last().push(joined) =~= stack.push(joined));
}

/// The stages, one by one, on the tokens of a sum: the first reduces the
/// factors, the second the products, the third the sum.
pub proof fn theorem_sum_stages(s: Sum)
    ensures
        resolve_unary(s.tokens()) == Ok::<Seq<Token>, ErrorKind>(s.factors()),
        resolve_mul_div(s.factors()) == Ok::<Seq<Token>, ErrorKind>(s.products()),
        resolve_add_sub(s.products()) == Ok::<Expr, ErrorKind>(s.value()),
{
    let none = Seq::<Token>::empty();
    lemma_unary_sum(s, none, none);
    assert(s.tokens() + none =~= s.tokens());
    assert(none + s.factors() =~= s.factors());
    lemma_mul_div_sum(s, none, none);
    assert(s.factors() + none =~= s.factors());
    assert(none + s.products() =~= s.products());
    lemma_add_sub_sum(s, none, Seq::empty());
    assert(s.products() + none =~= s.products());
}

/// Precedence. The value that the pipeline gives to the tokens of a sum is
/// the value of the sum: every `!` is applied to the factor before it, then
/// the factors of each product are multiplied and divided from the left, then
/// the products are added and subtracted from the left.
pub proof fn theorem_sum_value(s: Sum)
    ensures
        evaluate_tokens(s.tokens()) == Ok::<Expr, ErrorKind>(s.value()),
{
    theorem_sum_stages(s);
}

/// The rest of a text is empty or begins with an operator symbol, so that a
/// literal before it ends there.
pub open spec fn delimited(rest: Seq<char>) -> bool {
    rest.len() == 0 || operator_of(rest[0]) is Some
}

/// The tokenizer reads a literal that stands before an operator symbol or at
/// the end of the text as one operand.
proof fn lemma_scan_literal(x: Expr, rest: Seq<char>, out: Seq<Token>)
    requires
        is_literal(x),
        delimited(rest),
    ensures
        scan_text(literal_text(x) + rest, Seq::empty(), out) == scan_text(
            rest,
            Seq::empty(),
            out + operand(x),
        ),
{
    let run = literal_text(x);
    let none = Seq::<char>::empty();
    lemma_scan_numeric_run(run, rest, none, out);
    assert(none + run =~= run);
    if rest.len() == 0 {
        assert(out + operand(x) + Seq::<Token>::empty() =~= out + operand(x));
    } else {
        assert(rest =~= seq![rest[0]] + rest.skip(1));
        lemma_scan_operator(rest[0], rest.skip(1), run, out);
        lemma_scan_operator(rest[0], rest.skip(1), none, out + operand(x));
        assert(out + operand(x) + Seq::<Token>::empty() =~= out + operand(x));
    }
}

/// The tokenizer reads an operator symbol, with nothing pending, as its token.
proof fn lemma_scan_symbol(c: char, rest: Seq<char>, out: Seq<Token>)
    requires
        operator_of(c) is Some,
    ensures
        scan_text(seq![c] + rest, Seq::empty(), out) == scan_text(
            rest,
            Seq::empty(),
            out + operator(operator_of(c)->0),
        ),
{
    lemma_scan_operator(c, rest, Seq::empty(), out);
    assert((out + Seq::<Token>::empty()).push(Token::Operator(operator_of(c)->0)) =~= out
        + operator(operator_of(c)->0));
}

/// The tokenizer reads the text of a factor as the tokens of the factor.
pub proof fn lemma_scan_factor(f: Factor, rest: Seq<char>, out: Seq<Token>)
    requires
        f.literal(),
        delimited(rest),
    ensures
        scan_text(f.text() + rest, Seq::empty(), out) == scan_text(
            rest,
            Seq::empty(),
            out + f.tokens(),
        ),
    decreases f,
{
    match f {
        Factor::Operand(x) => {
            lemma_scan_literal(x, rest, out);
        },
        Factor::Negated(x) => {
            assert(f.text() + rest =~= seq!['-'] + (literal_text(x) + rest));
            lemma_scan_symbol('-', literal_text(x) + rest, out);
            lemma_scan_literal(x, rest, out + operator(Operator::Minus));
            assert(out + operator(Operator::Minus) + operand(x) =~= out + f.tokens());
        },
        Factor::Signed(g) => {
            assert(f.text() + rest =~= seq!['+'] + (g.text() + rest));
            lemma_scan_symbol('+', g.text() + rest, out);
            lemma_scan_factor(*g, rest, out + operator(Operator::Add));
            assert(out + operator(Operator::Add) + g.tokens() =~= out + f.tokens());
        },
        Factor::Factorial(g) => {
            assert(f.text() + rest =~= g.text() + (seq!['!'] + rest));
            assert((seq!['!'] + rest)[0] == '!');
            lemma_scan_factor(*g, seq!['!'] + rest, out);
            lemma_scan_symbol('!', rest, out + g.tokens());
            assert(out + g.tokens() + operator(Operator::Factorial) =~= out + f.tokens());
        },
    }
}

/// The tokenizer reads the text of a product as the tokens of the product.
pub proof fn lemma_scan_product(p: Product, rest: Seq<char>, out: Seq<Token>)
    requires
        p.literal(),
        delimited(rest),
    ensures
        scan_text(p.text() + rest, Seq::empty(), out) == scan_text(
            rest,
            Seq::empty(),
            out + p.tokens(),
        ),
    decreases p,
{
    match p {
        Product::Factor(f) => {
            lemma_scan_factor(f, rest, out);
        },
        Product::Multiply(q, f) => {
            let tail = seq!['*'] + (f.text() + rest);
            assert(tail[0] == '*');
            assert(p.text() + rest =~= q.text() + tail);
            lemma_scan_product(*q, tail, out);
            lemma_scan_symbol('*', f.text() + rest, out + q.tokens());
            lemma_scan_factor(f, rest, out + q.tokens() + operator(Operator::Multiply));
            assert(out + q.tokens() + operator(Operator::Multiply) + f.tokens() =~= out
                + p.tokens());
        },
        Product::Divide(q, f) => {
            let tail = seq!['/'] + (f.text() + rest);
            assert(tail[0] == '/');
            assert(p.text() + rest =~= q.text() + tail);
            lemma_scan_product(*q, tail, out);
            lemma_scan_symbol('/', f.text() + rest, out + q.tokens());
            lemma_scan_factor(f, rest, out + q.tokens() + operator(Operator::Divide));
            assert(out + q.tokens() + operator(Operator::Divide) + f.tokens() =~= out
                + p.tokens());
        },
    }
}

/// The tokenizer reads the text of a sum as the tokens of the sum.
pub proof fn lemma_scan_sum(s: Sum, rest: Seq<char>, out: Seq<Token>)
    requires
        s.literal(),
        delimited(rest),
    ensures
        scan_text(s.text() + rest, Seq::empty(), out) == scan_text(
            rest,
            Seq::empty(),
            out + s.tokens(),
        ),
    decreases s,
{
    match s {
        Sum::Product(p) => {
            lemma_scan_product(p, rest, out);
        },
        Sum::Add(r, p) => {
            let tail = seq!['+'] + (p.text() + rest);
            assert(tail[0] == '+');
            assert(s.text() + rest =~= r.text() + tail);
            lemma_scan_sum(*r, tail, out);
            lemma_scan_symbol('+', p.text() + rest, out + r.tokens());
            lemma_scan_product(p, rest, out + r.tokens() + operator(Operator::Add));
            assert(out + r.tokens() + operator(Operator::Add) + p.tokens() =~= out + s.tokens());
        },
        Sum::Subtract(r, p) => {
            let tail = seq!['-'] + (p.text() + rest);
            assert(tail[0] == '-');
            assert(s.text() + rest =~= r.text() + tail);
            lemma_scan_sum(*r, tail, out);
            lemma_scan_symbol('-', p.text() + rest, out + r.tokens());
            lemma_scan_product(p, rest, out + r.tokens() + operator(Operator::Minus));
            assert(out + r.tokens() + operator(Operator::Minus) + p.tokens() =~= out
                + s.tokens());
        },
    }
}

/// The tokens of the text of a sum are the tokens of the sum.
pub proof fn theorem_text_tokens(s: Sum)
    requires
        s.literal(),
    ensures
        tokenize(s.text()) == Ok::<Seq<Token>, ErrorKind>(s.tokens()),
{
    let none = Seq::<char>::empty();
    lemma_scan_sum(s, none, Seq::empty());
    assert(s.text() + none =~= s.text());
    assert(Seq::<Token>::empty() + s.tokens() + Seq::<Token>::empty() =~= s.tokens());
}

/// Precedence, on texts. A sum of decimal literals, written out, evaluates
/// to the value of the sum.
pub proof fn theorem_text_value(s: Sum)
    requires
        s.literal(),
    ensures
        evaluate(s.text()) == Ok::<Expr, ErrorKind>(s.value()),
{
    theorem_text_tokens(s);
    theorem_sum_value(s);
}

} // verus!
