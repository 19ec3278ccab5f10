//! The data that the calculator works on.
//!
//! A number is never evaluated here. An operand is a [`Term`]: a decimal
//! literal, or an operation applied to smaller terms. The pipeline decides
//! which operation applies to which operands; carrying the arithmetic out on
//! machine numbers is left to whoever holds the resulting term, which lists
//! its operations in the order in which they are to be carried out.
//!
//! Every executable type has a mathematical view, and the contracts of the
//! crate are stated over the views:
//!
//! | executable        | view          |
//! |-------------------|---------------|
//! | [`Literal`]       | `Seq<char>`   |
//! | [`Instruction`]   | [`Code`]      |
//! | [`Term`]          | [`Expr`]      |
//! | [`OperationUnit`] | [`Token`]     |
//! | [`ErrorList`]     | [`ErrorKind`] |
use crate::numeral::{accepts, is_numeral};
use vstd::prelude::*;

verus! {

/// The operator symbols of the expression language.
#[derive(Copy, Clone, Debug, PartialEq, Eq, Structural)]
pub enum Operator {
    Add,
    Minus,
    Multiply,
    Divide,
    Factorial,
}

/// The operator that a character stands for, if it stands for one.
pub open spec fn operator_of(c: char) -> Option<Operator> {
    if c == '+' {
        Some(Operator::Add)
    } else if c == '-' {
        Some(Operator::Minus)
    } else if c == '*' {
        Some(Operator::Multiply)
    } else if c == '/' {
        Some(Operator::Divide)
    } else if c == '!' {
        Some(Operator::Factorial)
    } else {
        None
    }
}

/// One of the ten decimal digits.
pub open spec fn is_digit(c: char) -> bool {
    c == '0' || c == '1' || c == '2' || c == '3' || c == '4' || c == '5' || c == '6' || c == '7'
        || c == '8' || c == '9'
}

/// A character that may occur in a literal: a digit or the decimal point.
pub open spec fn is_numeric_char(c: char) -> bool {
    is_digit(c) || c == '.'
}

/// A character that the tokenizer reacts to. Every other character is skipped.
pub open spec fn is_significant(c: char) -> bool {
    is_numeric_char(c) || operator_of(c) is Some
}

/// A decimal literal: digits and at most one decimal point, with at least one
/// digit. `"5"`, `"5."`, `".5"` and `"0.25"` are literals; `""`, `"."` and
/// `"1.2.3"` are not.
pub open spec fn is_decimal(s: Seq<char>) -> bool {
    &&& forall|i: int| 0 <= i < s.len() ==> is_numeric_char(#[trigger] s[i])
    &&& exists|i: int| 0 <= i < s.len() && is_digit(#[trigger] s[i])
    &&& forall|i: int, j: int|
        0 <= i < j < s.len() ==> !(#[trigger] s[i] == '.' && #[trigger] s[j] == '.')
}

/// The mathematical form of an operand: a literal, given by its text, or an
/// operation applied to operands.
pub enum Expr {
    Literal(Seq<char>),
    Negate(Box<Expr>),
    Factorial(Box<Expr>),
    Add(Box<Expr>, Box<Expr>),
    Subtract(Box<Expr>, Box<Expr>),
    Multiply(Box<Expr>, Box<Expr>),
    Divide(Box<Expr>, Box<Expr>),
}

impl Expr {
    /// `-self`.
    pub open spec fn negated(self) -> Expr {
        Expr::Negate(Box::new(self))
    }

    /// `self!`.
    pub open spec fn factorial(self) -> Expr {
        Expr::Factorial(Box::new(self))
    }

    /// `self + right`.
    pub open spec fn plus(self, right: Expr) -> Expr {
        Expr::Add(Box::new(self), Box::new(right))
    }

    /// `self - right`.
    pub open spec fn minus(self, right: Expr) -> Expr {
        Expr::Subtract(Box::new(self), Box::new(right))
    }

    /// `self * right`.
    pub open spec fn times(self, right: Expr) -> Expr {
        Expr::Multiply(Box::new(self), Box::new(right))
    }

    /// `self / right`.
    pub open spec fn over(self, right: Expr) -> Expr {
        Expr::Divide(Box::new(self), Box::new(right))
    }
}

/// The mathematical form of an [`OperationUnit`].
pub enum Token {
    Operand(Expr),
    Operator(Operator),
}

/// The mathematical form of an [`ErrorList`].
pub enum ErrorKind {
    Unknown,
    CannotParseNumber(Seq<char>),
    InvalidOperatorPosition,
    ThisOperatorShouldBeAlreadyComputed,
}

/// The text of a number. A value of this type always holds a numeral
/// ([`is_numeral`]): a text that is read as a number, such as `12`, `.5`,
/// `-1e5` or `inf`. The literals of an expression are the numerals made of
/// digits and decimal points: the decimal literals.
#[derive(Debug, PartialEq)]
pub struct Literal {
    text: String,
}

impl View for Literal {
    type V = Seq<char>;

    closed spec fn view(&self) -> Seq<char> {
        self.text@
    }
}

impl Literal {
    #[verifier::type_invariant]
    spec fn well_formed(self) -> bool {
        is_numeral(self.text@)
    }

    /// Reads `text` as a number: the literal with that text where the text
    /// is a numeral, and nothing where it is not.
    pub fn from_text(text: &str) -> (literal: Option<Literal>)
        ensures
            match literal {
                Some(l) => is_numeral(text@) && l@ == text@,
                None => !is_numeral(text@),
            },
    {
        if accepts(text) {
            Some(Literal { text: text.to_owned() })
        } else {
            None
        }
    }

    /// The characters of the literal.
    pub fn text(&self) -> (t: &String)
        ensures
            t@ == self@,
            is_numeral(t@),
    {
        proof {
            use_type_invariant(self);
        }
        &self.text
    }
}

impl Clone for Literal {
    fn clone(&self) -> (copy: Self)
        ensures
            copy == *self,
    {
        proof {
            use_type_invariant(self);
        }
        Literal { text: self.text.clone() }
    }
}

/// One instruction of a term.
#[derive(Debug, PartialEq)]
pub enum Instruction {
    /// Takes the literal as an operand.
    Push(Literal),
    /// Negates the last operand.
    Negate,
    /// Takes the factorial of the last operand.
    Factorial,
    /// Adds the last operand to the one before it.
    Add,
    /// Subtracts the last operand from the one before it.
    Subtract,
    /// Multiplies the operand before the last by the last.
    Multiply,
    /// Divides the operand before the last by the last.
    Divide,
}

/// The mathematical form of an [`Instruction`].
pub enum Code {
    Push(Seq<char>),
    Negate,
    Factorial,
    Add,
    Subtract,
    Multiply,
    Divide,
}

impl View for Instruction {
    type V = Code;

    open spec fn view(&self) -> Code {
        match self {
            Instruction::Push(l) => Code::Push(l@),
            Instruction::Negate => Code::Negate,
            Instruction::Factorial => Code::Factorial,
            Instruction::Add => Code::Add,
            Instruction::Subtract => Code::Subtract,
            Instruction::Multiply => Code::Multiply,
            Instruction::Divide => Code::Divide,
        }
    }
}

impl Clone for Instruction {
    fn clone(&self) -> (copy: Self)
        ensures
            copy == *self,
    {
        match self {
            Instruction::Push(l) => Instruction::Push(l.clone()),
            Instruction::Negate => Instruction::Negate,
            Instruction::Factorial => Instruction::Factorial,
            Instruction::Add => Instruction::Add,
            Instruction::Subtract => Instruction::Subtract,
            Instruction::Multiply => Instruction::Multiply,
            Instruction::Divide => Instruction::Divide,
        }
    }
}

/// The mathematical form of a list of instructions.
pub open spec fn codes(list: Seq<Instruction>) -> Seq<Code> {
    list.map_values(|i: Instruction| i@)
}

/// An expression in postfix order: the operands of an operation, from left to
/// right, and then the operation.
pub open spec fn postfix(e: Expr) -> Seq<Code>
    decreases e,
{
    match e {
        Expr::Literal(run) => seq![Code::Push(run)],
        Expr::Negate(a) => postfix(*a).push(Code::Negate),
        Expr::Factorial(a) => postfix(*a).push(Code::Factorial),
        Expr::Add(a, b) => (postfix(*a) + postfix(*b)).push(Code::Add),
        Expr::Subtract(a, b) => (postfix(*a) + postfix(*b)).push(Code::Subtract),
        Expr::Multiply(a, b) => (postfix(*a) + postfix(*b)).push(Code::Multiply),
        Expr::Divide(a, b) => (postfix(*a) + postfix(*b)).push(Code::Divide),
    }
}

/// What an instruction makes of the operands on the stack, if it finds the
/// operands that it needs.
pub open spec fn apply(c: Code, stack: Seq<Expr>) -> Option<Seq<Expr>> {
    let last = stack.last();
    let before = stack[stack.len() - 2];
    match c {
        Code::Push(run) => Some(stack.push(Expr::Literal(run))),
        Code::Negate => if stack.len() >= 1 {
            Some(stack.drop_last().push(last.negated()))
        } else {
            None
        },
        Code::Factorial => if stack.len() >= 1 {
            Some(stack.drop_last().push(last.factorial()))
        } else {
            None
        },
        _ => if stack.len() >= 2 {
            Some(
                stack.drop_last().drop_last().push(
                    match c {
                        Code::Add => before.plus(last),
                        Code::Subtract => before.minus(last),
                        Code::Multiply => before.times(last),
                        _ => before.over(last),
                    },
                ),
            )
        } else {
            None
        },
    }
}

/// The operands that a list of instructions leaves on the stack when it is
/// carried out from left to right, if every instruction finds the operands
/// that it needs.
pub open spec fn run(list: Seq<Code>, stack: Seq<Expr>) -> Option<Seq<Expr>>
    decreases list.len(),
{
    if list.len() == 0 {
        Some(stack)
    } else {
        match apply(list[0], stack) {
            Some(next) => run(list.skip(1), next),
            None => None,
        }
    }
}

/// One instruction at the head of a list is applied, and the rest of the
/// list is run on what it leaves behind.
proof fn lemma_run_first(c: Code, rest: Seq<Code>, stack: Seq<Expr>)
    ensures
        run(seq![c] + rest, stack) == match apply(c, stack) {
            Some(next) => run(rest, next),
            None => None,
        },
{
    let list = seq![c] + rest;
    assert(list[0] == c);
    assert(list.skip(1) =~= rest);
}

/// Running the postfix form of an expression leaves the expression behind.
proof fn lemma_run_postfix(e: Expr, rest: Seq<Code>, stack: Seq<Expr>)
    ensures
        run(postfix(e) + rest, stack) == run(rest, stack.push(e)),
    decreases e,
{
    match e {
        Expr::Literal(text) => {
            lemma_run_first(Code::Push(text), rest, stack);
        },
        Expr::Negate(a) | Expr::Factorial(a) => {
            let c = postfix(e).last();
            assert(postfix(e) + rest =~= postfix(*a) + (seq![c] + rest));
            lemma_run_postfix(*a, seq![c] + rest, stack);
            lemma_run_first(c, rest, stack.push(*a));
            assert(stack.push(*a).drop_last() =~= stack);
        },
        Expr::Add(a, b) | Expr::Subtract(a, b) | Expr::Multiply(a, b) | Expr::Divide(a, b) => {
            let c = postfix(e).last();
            let tail = seq![c] + rest;
            assert(postfix(e) + rest =~= postfix(*a) + (postfix(*b) + tail));
            lemma_run_postfix(*a, postfix(*b) + tail, stack);
            lemma_run_postfix(*b, tail, stack.push(*a));
            lemma_run_first(c, rest, stack.push(*a).push(*b));
            assert(stack.push(*a).push(*b).drop_last().drop_last() =~= stack);
        },
    }
}

/// Carried out from left to right on an empty stack, the postfix form of an
/// expression never lacks an operand, and it leaves exactly one operand
/// behind: the expression.
pub proof fn theorem_postfix_runs(e: Expr)
    ensures
        run(postfix(e), Seq::empty()) == Some(seq![e]),
{
    let none = Seq::<Code>::empty();
    lemma_run_postfix(e, none, Seq::empty());
    assert(postfix(e) + none =~= postfix(e));
    assert(Seq::<Expr>::empty().push(e) =~= seq![e]);
}

/// No two expressions have the same postfix form.
pub proof fn theorem_postfix_unique(a: Expr, b: Expr)
    requires
        postfix(a) == postfix(b),
    ensures
        a == b,
{
    theorem_postfix_runs(a);
    theorem_postfix_runs(b);
    assert(seq![a][0] == a);
    assert(seq![b][0] == b);
}

/// An operand: a literal, or an operation applied to operands.
///
/// A term holds its expression as a list of instructions in postfix order,
/// which can be read, copied and carried out from left to right, however
/// long the expression is ([`run`] says how).
#[derive(Debug, PartialEq)]
pub struct Term {
    instructions: Vec<Instruction>,
}

impl View for Term {
    type V = Expr;

    closed spec fn view(&self) -> Expr {
        choose|e: Expr| codes(self.instructions@) == postfix(e)
    }
}

impl Term {
    #[verifier::type_invariant]
    spec fn well_formed(self) -> bool {
        exists|e: Expr| codes(self.instructions@) == postfix(e)
    }

    /// A term made of the instructions `list`, where these are the postfix
    /// form of `e`.
    fn new(list: Vec<Instruction>, Ghost(e): Ghost<Expr>) -> (term: Term)
        requires
            codes(list@) == postfix(e),
        ensures
            term@ == e,
    {
        let term = Term { instructions: list };
        proof {
            theorem_postfix_unique(term@, e);
        }
        term
    }

    /// The instructions of the term: its expression in postfix order.
    pub fn instructions(&self) -> (list: &Vec<Instruction>)
        ensures
            codes(list@) == postfix(self@),
    {
        proof {
            use_type_invariant(self);
        }
        &self.instructions
    }

    /// The term that consists of a literal.
    pub fn literal(literal: Literal) -> (term: Term)
        ensures
            term@ == Expr::Literal(literal@),
    {
        let mut list: Vec<Instruction> = Vec::new();
        list.push(Instruction::Push(literal));
        proof {
            assert(codes(list@) =~= postfix(Expr::Literal(literal@)));
        }
        Term::new(list, Ghost(Expr::Literal(literal@)))
    }

    /// The term with `instruction` applied to it.
    fn extended(self, instruction: Instruction, Ghost(e): Ghost<Expr>) -> (term: Term)
        requires
            postfix(e) == postfix(self@).push(instruction@),
        ensures
            term@ == e,
    {
        proof {
            use_type_invariant(&self);
        }
        let mut list = self.instructions;
        list.push(instruction);
        proof {
            assert(codes(list@) =~= postfix(e));
        }
        Term::new(list, Ghost(e))
    }

    /// The term with `right` behind it and `instruction` applied to both.
    fn joined(self, right: Term, instruction: Instruction, Ghost(e): Ghost<Expr>) -> (term: Term)
        requires
            postfix(e) == (postfix(self@) + postfix(right@)).push(instruction@),
        ensures
            term@ == e,
    {
        proof {
            use_type_invariant(&self);
            use_type_invariant(&right);
        }
        let mut list = self.instructions;
        let mut other = right.instructions;
        list.append(&mut other);
        list.push(instruction);
        proof {
            assert(codes(list@) =~= postfix(e));
        }
        Term::new(list, Ghost(e))
    }

    /// The negation of the term.
    pub fn negated(self) -> (term: Term)
        ensures
            term@ == self@.negated(),
    {
        let ghost e = self@.negated();
        self.extended(Instruction::Negate, Ghost(e))
    }

    /// The factorial of the term.
    pub fn factorial(self) -> (term: Term)
        ensures
            term@ == self@.factorial(),
    {
        let ghost e = self@.factorial();
        self.extended(Instruction::Factorial, Ghost(e))
    }

    /// The sum of the term and `right`.
    pub fn plus(self, right: Term) -> (term: Term)
        ensures
            term@ == self@.plus(right@),
    {
        let ghost e = self@.plus(right@);
        self.joined(right, Instruction::Add, Ghost(e))
    }

    /// The difference of the term and `right`.
    pub fn minus(self, right: Term) -> (term: Term)
        ensures
            term@ == self@.minus(right@),
    {
        let ghost e = self@.minus(right@);
        self.joined(right, Instruction::Subtract, Ghost(e))
    }

    /// The product of the term and `right`.
    pub fn times(self, right: Term) -> (term: Term)
        ensures
            term@ == self@.times(right@),
    {
        let ghost e = self@.times(right@);
        self.joined(right, Instruction::Multiply, Ghost(e))
    }

    /// The quotient of the term and `right`.
    pub fn over(self, right: Term) -> (term: Term)
        ensures
            term@ == self@.over(right@),
    {
        let ghost e = self@.over(right@);
        self.joined(right, Instruction::Divide, Ghost(e))
    }
}

impl Clone for Term {
    fn clone(&self) -> (copy: Self)
        ensures
            copy@ == self@,
    {
        proof {
            use_type_invariant(self);
        }
        let list = self.instructions.clone();
        proof {
            assert(list@ =~= self.instructions@);
        }
        Term::new(list, Ghost(self@))
    }
}

/// One item of an expression: an operand or an operator.
#[derive(Debug, PartialEq)]
pub enum OperationUnit {
    Operand(Term),
    Operator(Operator),
}

impl View for OperationUnit {
    type V = Token;

    open spec fn view(&self) -> Token {
        match self {
            OperationUnit::Operand(t) => Token::Operand(t@),
            OperationUnit::Operator(op) => Token::Operator(*op),
        }
    }
}

impl Clone for OperationUnit {
    fn clone(&self) -> (copy: Self)
        ensures
            copy@ == self@,
    {
        match self {
            OperationUnit::Operand(t) => OperationUnit::Operand(t.clone()),
            OperationUnit::Operator(op) => OperationUnit::Operator(*op),
        }
    }
}

impl OperationUnit {
    /// The operator that `char_op` stands for: `+`, `-`, `*`, `/` and `!` stand
    /// for one, no other character does.
    #[inline]
    pub fn from_char(char_op: char) -> (op: Option<Operator>)
        ensures
            op == operator_of(char_op),
    {
        match char_op {
            '+' => Some(Operator::Add),
            '-' => Some(Operator::Minus),
            '*' => Some(Operator::Multiply),
            '/' => Some(Operator::Divide),
            '!' => Some(Operator::Factorial),
            _ => None,
        }
    }
}

/// The tokens that a sequence of units stands for.
pub open spec fn tokens_of(units: Seq<OperationUnit>) -> Seq<Token> {
    units.map_values(|u: OperationUnit| u@)
}

/// Why an expression has no value.
#[derive(Debug, PartialEq)]
pub enum ErrorList {
    /// The expression is empty, or operands are left without an operator
    /// between them, or a trailing `+` or `-` lacks its right operand.
    Unknown,
    /// A run of digits and decimal points is no decimal literal. Holds the run.
    CannotParseNumber(String),
    /// An operator stands where an operand that it needs is missing.
    InvalidOperatorPosition,
    /// An operator reached a stage that expects an earlier stage to have
    /// resolved it.
    ThisOperatorShouldBeAlreadyComputed,
}

impl View for ErrorList {
    type V = ErrorKind;

    open spec fn view(&self) -> ErrorKind {
        match self {
            ErrorList::Unknown => ErrorKind::Unknown,
            ErrorList::CannotParseNumber(text) => ErrorKind::CannotParseNumber(text@),
            ErrorList::InvalidOperatorPosition => ErrorKind::InvalidOperatorPosition,
            ErrorList::ThisOperatorShouldBeAlreadyComputed =>
                ErrorKind::ThisOperatorShouldBeAlreadyComputed,
        }
    }
}

} // verus!
