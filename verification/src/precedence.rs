//! The rules of precedence on the shortest expressions that show them.
//!
//! Each theorem evaluates a text made of decimal literals `a`, `b`, `c` and
//! operator symbols, and follows from [`theorem_text_value`] by writing the
//! text as a sum.
use crate::calculation::evaluate;
use crate::grammar::{Factor, Product, Sum, theorem_text_value};
use crate::models::{ErrorKind, Expr, is_decimal};
use vstd::prelude::*;

verus! {

/// The operand that the decimal literal `run` is read as.
pub open spec fn literal(run: Seq<char>) -> Expr {
    Expr::Literal(run)
}

/// The literal `run` as a factor.
spec fn number(run: Seq<char>) -> Factor {
    Factor::Operand(literal(run))
}

/// The negated literal `run` as a factor.
spec fn negative(run: Seq<char>) -> Factor {
    Factor::Negated(literal(run))
}

/// `+` before the factor `f`.
spec fn positive(f: Factor) -> Factor {
    Factor::Signed(Box::new(f))
}

/// `!` behind the factor `f`.
spec fn bang(f: Factor) -> Factor {
    Factor::Factorial(Box::new(f))
}

/// The factor `f` as a product.
spec fn alone(f: Factor) -> Product {
    Product::Factor(f)
}

/// The product `p` multiplied by the factor `f`.
spec fn times(p: Product, f: Factor) -> Product {
    Product::Multiply(Box::new(p), f)
}

/// The product `p` divided by the factor `f`.
spec fn over(p: Product, f: Factor) -> Product {
    Product::Divide(Box::new(p), f)
}

/// The product `p` as a sum.
spec fn only(p: Product) -> Sum {
    Sum::Product(p)
}

/// The sum `s` with the product `p` added.
spec fn plus(s: Sum, p: Product) -> Sum {
    Sum::Add(Box::new(s), p)
}

/// The sum `s` with the product `p` subtracted.
spec fn minus(s: Sum, p: Product) -> Sum {
    Sum::Subtract(Box::new(s), p)
}

/// A literal and a negated literal as factors.
proof fn lemma_number(run: Seq<char>)
    requires
        is_decimal(run),
    ensures
        number(run).literal(),
        number(run).text() == run,
        number(run).value() == literal(run),
        negative(run).literal(),
        negative(run).text() == seq!['-'] + run,
        negative(run).value() == literal(run).negated(),
{
}

/// A factor with a `+` before it.
proof fn lemma_positive(f: Factor)
    ensures
        positive(f).literal() == f.literal(),
        positive(f).text() == seq!['+'] + f.text(),
        positive(f).value() == f.value(),
{
}

/// A factor with a `!` behind it.
proof fn lemma_bang(f: Factor)
    ensures
        bang(f).literal() == f.literal(),
        bang(f).text() == f.text() + seq!['!'],
        bang(f).value() == f.value().factorial(),
{
}

/// A factor as a product.
proof fn lemma_alone(f: Factor)
    ensures
        alone(f).literal() == f.literal(),
        alone(f).text() == f.text(),
        alone(f).value() == f.value(),
{
}

/// A product multiplied or divided by a factor.
proof fn lemma_times(p: Product, f: Factor)
    ensures
        times(p, f).literal() == (p.literal() && f.literal()),
        times(p, f).text() == p.text() + seq!['*'] + f.text(),
        times(p, f).value() == p.value().times(f.value()),
        over(p, f).literal() == (p.literal() && f.literal()),
        over(p, f).text() == p.text() + seq!['/'] + f.text(),
        over(p, f).value() == p.value().over(f.value()),
{
}

/// A product as a sum.
proof fn lemma_only(p: Product)
    ensures
        only(p).literal() == p.literal(),
        only(p).text() == p.text(),
        only(p).value() == p.value(),
{
}

/// A sum with a product added or subtracted.
proof fn lemma_plus(s: Sum, p: Product)
    ensures
        plus(s, p).literal() == (s.literal() && p.literal()),
        plus(s, p).text() == s.text() + seq!['+'] + p.text(),
        plus(s, p).value() == s.value().plus(p.value()),
        minus(s, p).literal() == (s.literal() && p.literal()),
        minus(s, p).text() == s.text() + seq!['-'] + p.text(),
        minus(s, p).value() == s.value().minus(p.value()),
{
}

/// The literal `run` as a product and as a sum.
proof fn lemma_literal(run: Seq<char>)
    requires
        is_decimal(run),
    ensures
        alone(number(run)).literal(),
        alone(number(run)).text() == run,
        alone(number(run)).value() == literal(run),
        only(alone(number(run))).literal(),
        only(alone(number(run))).text() == run,
        only(alone(number(run))).value() == literal(run),
{
    lemma_number(run);
    lemma_alone(number(run));
    lemma_only(alone(number(run)));
}

/// The factorial of the literal `run` as a factor, as a product and as a sum.
proof fn lemma_literal_factorial(run: Seq<char>)
    requires
        is_decimal(run),
    ensures
        bang(number(run)).literal(),
        bang(number(run)).text() == run + seq!['!'],
        bang(number(run)).value() == literal(run).factorial(),
        alone(bang(number(run))).literal(),
        alone(bang(number(run))).text() == run + seq!['!'],
        alone(bang(number(run))).value() == literal(run).factorial(),
        only(alone(bang(number(run)))).literal(),
        only(alone(bang(number(run)))).text() == run + seq!['!'],
        only(alone(bang(number(run)))).value() == literal(run).factorial(),
{
    lemma_number(run);
    lemma_bang(number(run));
    lemma_alone(bang(number(run)));
    lemma_only(alone(bang(number(run))));
}

/// One binary operator between two literals gives that operation on the two
/// literals, the left one first.
pub proof fn theorem_single_operator(a: Seq<char>, b: Seq<char>)
    requires
        is_decimal(a),
        is_decimal(b),
    ensures
        evaluate(a + seq!['+'] + b) == Ok::<Expr, ErrorKind>(literal(a).plus(literal(b))),
        evaluate(a + seq!['-'] + b) == Ok::<Expr, ErrorKind>(literal(a).minus(literal(b))),
        evaluate(a + seq!['*'] + b) == Ok::<Expr, ErrorKind>(literal(a).times(literal(b))),
        evaluate(a + seq!['/'] + b) == Ok::<Expr, ErrorKind>(literal(a).over(literal(b))),
{
    lemma_literal(a);
    lemma_literal(b);
    let left = only(alone(number(a)));
    lemma_plus(left, alone(number(b)));
    theorem_text_value(plus(left, alone(number(b))));
    theorem_text_value(minus(left, alone(number(b))));
    lemma_times(alone(number(a)), number(b));
    lemma_only(times(alone(number(a)), number(b)));
    lemma_only(over(alone(number(a)), number(b)));
    theorem_text_value(only(times(alone(number(a)), number(b))));
    theorem_text_value(only(over(alone(number(a)), number(b))));
}

/// `*` and `/` bind tighter than `+` and `-`: in `a+b*c` the product is
/// formed first and then added to `a`, and so for the other operators and for
/// a product on the left.
pub proof fn theorem_product_before_sum(a: Seq<char>, b: Seq<char>, c: Seq<char>)
    requires
        is_decimal(a),
        is_decimal(b),
        is_decimal(c),
    ensures
        evaluate(a + seq!['+'] + b + seq!['*'] + c) == Ok::<Expr, ErrorKind>(
            literal(a).plus(literal(b).times(literal(c))),
        ),
        evaluate(a + seq!['+'] + b + seq!['/'] + c) == Ok::<Expr, ErrorKind>(
            literal(a).plus(literal(b).over(literal(c))),
        ),
        evaluate(a + seq!['-'] + b + seq!['*'] + c) == Ok::<Expr, ErrorKind>(
            literal(a).minus(literal(b).times(literal(c))),
        ),
        evaluate(a + seq!['-'] + b + seq!['/'] + c) == Ok::<Expr, ErrorKind>(
            literal(a).minus(literal(b).over(literal(c))),
        ),
        evaluate(a + seq!['*'] + b + seq!['+'] + c) == Ok::<Expr, ErrorKind>(
            literal(a).times(literal(b)).plus(literal(c)),
        ),
{
    lemma_literal(a);
    lemma_literal(b);
    lemma_literal(c);
    let left = only(alone(number(a)));
    let product = times(alone(number(b)), number(c));
    let quotient = over(alone(number(b)), number(c));
    lemma_times(alone(number(b)), number(c));
    lemma_plus(left, product);
    lemma_plus(left, quotient);
    assert(a + seq!['+'] + b + seq!['*'] + c =~= a + seq!['+'] + (b + seq!['*'] + c));
    assert(a + seq!['+'] + b + seq!['/'] + c =~= a + seq!['+'] + (b + seq!['/'] + c));
    assert(a + seq!['-'] + b + seq!['*'] + c =~= a + seq!['-'] + (b + seq!['*'] + c));
    assert(a + seq!['-'] + b + seq!['/'] + c =~= a + seq!['-'] + (b + seq!['/'] + c));
    theorem_text_value(plus(left, product));
    theorem_text_value(plus(left, quotient));
    theorem_text_value(minus(left, product));
    theorem_text_value(minus(left, quotient));
    let first = times(alone(number(a)), number(b));
    lemma_times(alone(number(a)), number(b));
    lemma_only(first);
    lemma_plus(only(first), alone(number(c)));
    theorem_text_value(plus(only(first), alone(number(c))));
}

/// Operators of one level are applied from the left: `a-b-c` is `(a-b)-c`,
/// and `a/b/c` is `(a/b)/c`.
pub proof fn theorem_left_to_right(a: Seq<char>, b: Seq<char>, c: Seq<char>)
    requires
        is_decimal(a),
        is_decimal(b),
        is_decimal(c),
    ensures
        evaluate(a + seq!['-'] + b + seq!['-'] + c) == Ok::<Expr, ErrorKind>(
            literal(a).minus(literal(b)).minus(literal(c)),
        ),
        evaluate(a + seq!['/'] + b + seq!['/'] + c) == Ok::<Expr, ErrorKind>(
            literal(a).over(literal(b)).over(literal(c)),
        ),
{
    lemma_literal(a);
    lemma_literal(b);
    lemma_literal(c);
    let difference = minus(only(alone(number(a))), alone(number(b)));
    lemma_plus(only(alone(number(a))), alone(number(b)));
    lemma_plus(difference, alone(number(c)));
    theorem_text_value(minus(difference, alone(number(c))));
    let quotient = over(alone(number(a)), number(b));
    lemma_times(alone(number(a)), number(b));
    lemma_times(quotient, number(c));
    lemma_only(over(quotient, number(c)));
    theorem_text_value(only(over(quotient, number(c))));
}

/// A sign before a literal: `-a` is the negation of `a`, and `+a` is `a`.
pub proof fn theorem_unary_sign(a: Seq<char>)
    requires
        is_decimal(a),
    ensures
        evaluate(seq!['-'] + a) == Ok::<Expr, ErrorKind>(literal(a).negated()),
        evaluate(seq!['+'] + a) == Ok::<Expr, ErrorKind>(literal(a)),
{
    lemma_number(a);
    lemma_positive(number(a));
    lemma_alone(negative(a));
    lemma_alone(positive(number(a)));
    lemma_only(alone(negative(a)));
    lemma_only(alone(positive(number(a))));
    theorem_text_value(only(alone(negative(a))));
    theorem_text_value(only(alone(positive(number(a)))));
}

/// A `-` behind a binary operator is a sign of the operand that follows it:
/// `a*-b` is the product of `a` and the negation of `b`, and `a--b` is the
/// difference of `a` and the negation of `b`.
pub proof fn theorem_sign_behind_operator(a: Seq<char>, b: Seq<char>)
    requires
        is_decimal(a),
        is_decimal(b),
    ensures
        evaluate(a + seq!['*'] + seq!['-'] + b) == Ok::<Expr, ErrorKind>(
            literal(a).times(literal(b).negated()),
        ),
        evaluate(a + seq!['-'] + seq!['-'] + b) == Ok::<Expr, ErrorKind>(
            literal(a).minus(literal(b).negated()),
        ),
{
    lemma_literal(a);
    lemma_number(b);
    lemma_alone(negative(b));
    assert(a + seq!['*'] + seq!['-'] + b =~= a + seq!['*'] + (seq!['-'] + b));
    assert(a + seq!['-'] + seq!['-'] + b =~= a + seq!['-'] + (seq!['-'] + b));
    lemma_times(alone(number(a)), negative(b));
    lemma_only(times(alone(number(a)), negative(b)));
    theorem_text_value(only(times(alone(number(a)), negative(b))));
    lemma_plus(only(alone(number(a))), alone(negative(b)));
    theorem_text_value(minus(only(alone(number(a))), alone(negative(b))));
}

/// `!` binds tighter than the binary operators, on either side of them:
/// `a*b!` is `a*(b!)`, `b!*a` is `(b!)*a`, and so for `/`, `+` and `-`.
pub proof fn theorem_factorial_first(a: Seq<char>, b: Seq<char>)
    requires
        is_decimal(a),
        is_decimal(b),
    ensures
        evaluate(a + seq!['*'] + b + seq!['!']) == Ok::<Expr, ErrorKind>(
            literal(a).times(literal(b).factorial()),
        ),
        evaluate(a + seq!['/'] + b + seq!['!']) == Ok::<Expr, ErrorKind>(
            literal(a).over(literal(b).factorial()),
        ),
        evaluate(a + seq!['+'] + b + seq!['!']) == Ok::<Expr, ErrorKind>(
            literal(a).plus(literal(b).factorial()),
        ),
        evaluate(a + seq!['-'] + b + seq!['!']) == Ok::<Expr, ErrorKind>(
            literal(a).minus(literal(b).factorial()),
        ),
        evaluate(b + seq!['!'] + seq!['*'] + a) == Ok::<Expr, ErrorKind>(
            literal(b).factorial().times(literal(a)),
        ),
        evaluate(b + seq!['!'] + seq!['/'] + a) == Ok::<Expr, ErrorKind>(
            literal(b).factorial().over(literal(a)),
        ),
        evaluate(b + seq!['!'] + seq!['+'] + a) == Ok::<Expr, ErrorKind>(
            literal(b).factorial().plus(literal(a)),
        ),
        evaluate(b + seq!['!'] + seq!['-'] + a) == Ok::<Expr, ErrorKind>(
            literal(b).factorial().minus(literal(a)),
        ),
{
    lemma_literal(a);
    lemma_literal_factorial(b);
    let left = only(alone(number(a)));
    let first = only(alone(bang(number(b))));
    assert(a + seq!['*'] + b + seq!['!'] =~= a + seq!['*'] + (b + seq!['!']));
    assert(a + seq!['/'] + b + seq!['!'] =~= a + seq!['/'] + (b + seq!['!']));
    assert(a + seq!['+'] + b + seq!['!'] =~= a + seq!['+'] + (b + seq!['!']));
    assert(a + seq!['-'] + b + seq!['!'] =~= a + seq!['-'] + (b + seq!['!']));
    lemma_times(alone(number(a)), bang(number(b)));
    lemma_only(times(alone(number(a)), bang(number(b))));
    lemma_only(over(alone(number(a)), bang(number(b))));
    theorem_text_value(only(times(alone(number(a)), bang(number(b)))));
    theorem_text_value(only(over(alone(number(a)), bang(number(b)))));
    lemma_plus(left, alone(bang(number(b))));
    theorem_text_value(plus(left, alone(bang(number(b)))));
    theorem_text_value(minus(left, alone(bang(number(b)))));
    lemma_times(alone(bang(number(b))), number(a));
    lemma_only(times(alone(bang(number(b))), number(a)));
    lemma_only(over(alone(bang(number(b))), number(a)));
    theorem_text_value(only(times(alone(bang(number(b))), number(a))));
    theorem_text_value(only(over(alone(bang(number(b))), number(a))));
    lemma_plus(first, alone(number(a)));
    theorem_text_value(plus(first, alone(number(a))));
    theorem_text_value(minus(first, alone(number(a))));
}

/// A second `!` applies to the factorial before it: `n!!` is `(n!)!`.
pub proof fn theorem_repeated_factorial(n: Seq<char>)
    requires
        is_decimal(n),
    ensures
        evaluate(n + seq!['!'] + seq!['!']) == Ok::<Expr, ErrorKind>(
            literal(n).factorial().factorial(),
        ),
{
    lemma_literal_factorial(n);
    let twice = bang(bang(number(n)));
    lemma_bang(bang(number(n)));
    lemma_alone(twice);
    lemma_only(alone(twice));
    theorem_text_value(only(alone(twice)));
}

} // verus!
