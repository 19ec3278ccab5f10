//! Theorems about the tokenizer.
//!
//! The tokenizer is defined as a scan with a pending run and an output. The
//! theorems here say what that scan amounts to: a run of digits and decimal
//! points is read as one literal, an operator symbol cuts the text in two
//! parts that are tokenized independently, and every other character might
//! as well not be there.
use crate::calculation::evaluate;
use crate::models::{
    ErrorKind,
    Expr,
    Operator,
    Token,
    is_decimal,
    is_numeric_char,
    is_significant,
    operator_of,
};
use crate::parser::{flush, scan_text, tokenize};
use vstd::prelude::*;

verus! {

/// Every character of `run` is a digit or a decimal point.
pub open spec fn all_numeric(run: Seq<char>) -> bool {
    forall|i: int| 0 <= i < run.len() ==> is_numeric_char(#[trigger] run[i])
}

/// `text` without the characters that the tokenizer skips.
pub open spec fn significant(text: Seq<char>) -> Seq<char> {
    text.filter(|c: char| is_significant(c))
}

/// The tokenizer's result after an operator symbol `c` has ended the pending
/// run `pending`: the scan of `rest` goes on behind the flushed run and the
/// operator.
pub open spec fn scan_behind_operator(
    c: char,
    rest: Seq<char>,
    pending: Seq<char>,
    out: Seq<Token>,
) -> Result<Seq<Token>, ErrorKind> {
    match flush(pending) {
        Ok(literal) => scan_text(
            rest,
            Seq::empty(),
            (out + literal).push(Token::Operator(operator_of(c)->0)),
        ),
        Err(e) => Err(e),
    }
}

/// A run of digits and decimal points at the head of the text joins the
/// pending run as a whole.
pub proof fn lemma_scan_numeric_run(
    run: Seq<char>,
    rest: Seq<char>,
    pending: Seq<char>,
    out: Seq<Token>,
)
    requires
        all_numeric(run),
    ensures
        scan_text(run + rest, pending, out) == scan_text(rest, pending + run, out),
    decreases run.len(),
{
    if run.len() == 0 {
        assert(run + rest =~= rest);
        assert(pending + run =~= pending);
    } else {
        let text = run + rest;
        assert(text[0] == run[0]);
        assert(text.skip(1) =~= run.skip(1) + rest);
        assert(all_numeric(run.skip(1))) by {
            assert forall|i: int| 0 <= i < run.skip(1).len() implies is_numeric_char(
                #[trigger] run.skip(1)[i],
            ) by {
                assert(run.skip(1)[i] == run[i + 1]);
            }
        }
        lemma_scan_numeric_run(run.skip(1), rest, pending.push(run[0]), out);
        assert(pending.push(run[0]) + run.skip(1) =~= pending + run);
    }
}

/// An operator symbol at the head of the text ends the pending run and becomes
/// a token.
pub proof fn lemma_scan_operator(c: char, rest: Seq<char>, pending: Seq<char>, out: Seq<Token>)
    requires
        operator_of(c) is Some,
    ensures
        scan_text(seq![c] + rest, pending, out) == scan_behind_operator(c, rest, pending, out),
{
    let text = seq![c] + rest;
    assert(text[0] == c);
    assert(text.skip(1) =~= rest);
}

/// The scan of a text equals the scan of its significant characters, whatever
/// the state it starts in.
pub proof fn lemma_scan_significant(text: Seq<char>, pending: Seq<char>, out: Seq<Token>)
    ensures
        scan_text(text, pending, out) == scan_text(significant(text), pending, out),
    decreases text.len(),
{
    if text.len() == 0 {
        assert(significant(text) =~= text) by {
            reveal(Seq::filter);
        }
    } else {
        let c = text[0];
        let rest = text.skip(1);
        lemma_significant_first(text);
        if is_numeric_char(c) {
            lemma_scan_significant(rest, pending.push(c), out);
            let kept = seq![c] + significant(rest);
            assert(kept[0] == c);
            assert(kept.skip(1) =~= significant(rest));
        } else if operator_of(c) is Some {
            lemma_scan_operator(c, significant(rest), pending, out);
            match flush(pending) {
                Ok(literal) => {
                    lemma_scan_significant(
                        rest,
                        Seq::empty(),
                        (out + literal).push(Token::Operator(operator_of(c)->0)),
                    );
                },
                Err(_) => {},
            }
        } else {
            lemma_scan_significant(rest, pending, out);
            assert(Seq::<char>::empty() + significant(rest) =~= significant(rest));
        }
    }
}

/// Characters other than digits, the decimal point and the operator symbols
/// are without effect: a text and its significant characters have the same
/// tokens and the same value. Two texts with the same significant characters
/// are therefore evaluated alike, wherever blanks or letters stand in them.
pub proof fn theorem_insignificant_characters(text: Seq<char>)
    ensures
        tokenize(text) == tokenize(significant(text)),
        evaluate(text) == evaluate(significant(text)),
{
    lemma_scan_significant(text, Seq::empty(), Seq::empty());
}

/// An operator symbol cuts the scan in two: what stands before it is scanned
/// to its end, and the scan of what stands behind it starts afresh after the
/// tokens of the first part and the operator.
pub proof fn lemma_scan_through_operator(
    before: Seq<char>,
    c: char,
    after: Seq<char>,
    pending: Seq<char>,
    out: Seq<Token>,
)
    requires
        operator_of(c) is Some,
    ensures
        scan_text(before + seq![c] + after, pending, out) == match scan_text(
            before,
            pending,
            out,
        ) {
            Ok(tokens) => scan_text(
                after,
                Seq::empty(),
                tokens.push(Token::Operator(operator_of(c)->0)),
            ),
            Err(e) => Err(e),
        },
    decreases before.len(),
{
    let text = before + seq![c] + after;
    if before.len() == 0 {
        assert(text =~= seq![c] + after);
        lemma_scan_operator(c, after, pending, out);
    } else {
        let head = before[0];
        assert(text[0] == head);
        assert(text.skip(1) =~= before.skip(1) + seq![c] + after);
        if is_numeric_char(head) {
            lemma_scan_through_operator(before.skip(1), c, after, pending.push(head), out);
        } else if operator_of(head) is Some {
            match flush(pending) {
                Ok(literal) => {
                    lemma_scan_through_operator(
                        before.skip(1),
                        c,
                        after,
                        Seq::empty(),
                        (out + literal).push(Token::Operator(operator_of(head)->0)),
                    );
                },
                Err(_) => {},
            }
        } else {
            lemma_scan_through_operator(before.skip(1), c, after, pending, out);
        }
    }
}

/// The tokens of a text around an operator symbol: the tokens of the part
/// before it, the operator, and the tokens of the part behind it. An error in
/// the first part comes before one in the second.
pub proof fn theorem_operator_splits_text(before: Seq<char>, c: char, after: Seq<char>)
    requires
        operator_of(c) is Some,
    ensures
        tokenize(before + seq![c] + after) == match (tokenize(before), tokenize(after)) {
            (Err(e), _) => Err(e),
            (Ok(_), Err(e)) => Err(e),
            (Ok(first), Ok(second)) => Ok(
                first.push(Token::Operator(operator_of(c)->0)) + second,
            ),
        },
{
    lemma_scan_through_operator(before, c, after, Seq::empty(), Seq::empty());
    match tokenize(before) {
        Ok(first) => {
            lemma_scan_output(
                after,
                Seq::empty(),
                first.push(Token::Operator(operator_of(c)->0)),
            );
        },
        Err(_) => {},
    }
}

/// The tokens produced so far are only handed on: a scan that starts with the
/// output `out` gives `out` followed by what it gives with no output.
pub proof fn lemma_scan_output(rest: Seq<char>, pending: Seq<char>, out: Seq<Token>)
    ensures
        scan_text(rest, pending, out) == match scan_text(rest, pending, Seq::empty()) {
            Ok(tokens) => Ok(out + tokens),
            Err(e) => Err(e),
        },
    decreases rest.len(),
{
    let none = Seq::<Token>::empty();
    if rest.len() == 0 {
        match flush(pending) {
            Ok(literal) => {
                assert(none + literal =~= literal);
            },
            Err(_) => {},
        }
    } else if is_numeric_char(rest[0]) {
        lemma_scan_output(rest.skip(1), pending.push(rest[0]), out);
    } else {
        match operator_of(rest[0]) {
            Some(op) => match flush(pending) {
                Ok(literal) => {
                    let fresh = (none + literal).push(Token::Operator(op));
                    lemma_scan_output(
                        rest.skip(1),
                        Seq::empty(),
                        (out + literal).push(Token::Operator(op)),
                    );
                    lemma_scan_output(rest.skip(1), Seq::empty(), fresh);
                    match scan_text(rest.skip(1), Seq::empty(), none) {
                        Ok(tokens) => {
                            assert((out + literal).push(Token::Operator(op)) + tokens =~= out + (
                            fresh + tokens));
                        },
                        Err(_) => {},
                    }
                },
                Err(_) => {},
            },
            None => {
                lemma_scan_output(rest.skip(1), pending, out);
            },
        }
    }
}

/// A decimal literal alone is one operand.
pub proof fn theorem_literal_token(literal: Seq<char>)
    requires
        is_decimal(literal),
    ensures
        tokenize(literal) == Ok::<Seq<Token>, ErrorKind>(
            seq![Token::Operand(Expr::Literal(literal))],
        ),
{
    let none = Seq::<char>::empty();
    lemma_scan_numeric_run(literal, none, none, Seq::empty());
    assert(literal + none =~= literal);
    assert(none + literal =~= literal);
    assert(Seq::<Token>::empty() + seq![Token::Operand(Expr::Literal(literal))]
        =~= seq![Token::Operand(Expr::Literal(literal))]);
}

/// A run of digits and decimal points that is no decimal literal makes the
/// evaluation fail with `CannotParseNumber`, which holds the run.
///
/// The run stands between `before` and `after`. It is a whole run: `before`
/// is empty or ends with an operator symbol, `after` is empty or begins with
/// one. And it is the first that fails: `before` can be tokenized.
pub proof fn theorem_malformed_literal(before: Seq<char>, run: Seq<char>, after: Seq<char>)
    requires
        before.len() == 0 || operator_of(before.last()) is Some,
        tokenize(before) is Ok,
        run.len() > 0,
        all_numeric(run),
        !is_decimal(run),
        after.len() == 0 || operator_of(after[0]) is Some,
    ensures
        tokenize(before + run + after) == Err::<Seq<Token>, ErrorKind>(
            ErrorKind::CannotParseNumber(run),
        ),
        evaluate(before + run + after) == Err::<Expr, ErrorKind>(
            ErrorKind::CannotParseNumber(run),
        ),
{
    let none = Seq::<char>::empty();
    let failure = Err::<Seq<Token>, ErrorKind>(ErrorKind::CannotParseNumber(run));
    assert forall|out: Seq<Token>| scan_text(run + after, none, out) == failure by {
        lemma_scan_numeric_run(run, after, none, out);
        assert(none + run =~= run);
        if after.len() > 0 {
            assert(after =~= seq![after[0]] + after.skip(1));
            lemma_scan_operator(after[0], after.skip(1), run, out);
        }
    }
    if before.len() == 0 {
        assert(before + run + after =~= run + after);
    } else {
        let c = before.last();
        let start = before.drop_last();
        assert(before + run + after =~= start + seq![c] + (run + after));
        assert(before =~= start + seq![c] + none);
        lemma_scan_through_operator(start, c, run + after, none, Seq::empty());
        lemma_scan_through_operator(start, c, none, none, Seq::empty());
    }
}

/// The tokenizer fails on nothing but a malformed literal: its error holds a
/// run of digits and decimal points that is not empty and is no decimal
/// literal.
pub proof fn theorem_tokenizer_failure(text: Seq<char>)
    ensures
        match tokenize(text) {
            Ok(_) => true,
            Err(ErrorKind::CannotParseNumber(run)) => run.len() > 0 && all_numeric(run)
                && !is_decimal(run),
            Err(_) => false,
        },
{
    lemma_scan_failure(text, Seq::empty(), Seq::empty());
}

/// The scan fails on nothing but a malformed literal, whatever the state it
/// starts in, as long as the pending run holds digits and decimal points
/// only.
pub proof fn lemma_scan_failure(rest: Seq<char>, pending: Seq<char>, out: Seq<Token>)
    requires
        all_numeric(pending),
    ensures
        match scan_text(rest, pending, out) {
            Ok(_) => true,
            Err(ErrorKind::CannotParseNumber(run)) => run.len() > 0 && all_numeric(run)
                && !is_decimal(run),
            Err(_) => false,
        },
    decreases rest.len(),
{
    if rest.len() == 0 {
    } else if is_numeric_char(rest[0]) {
        lemma_scan_failure(rest.skip(1), pending.push(rest[0]), out);
    } else {
        match operator_of(rest[0]) {
            Some(op) => match flush(pending) {
                Ok(literal) => {
                    lemma_scan_failure(
                        rest.skip(1),
                        Seq::empty(),
                        (out + literal).push(Token::Operator(op)),
                    );
                },
                Err(_) => {},
            },
            None => {
                lemma_scan_failure(rest.skip(1), pending, out);
            },
        }
    }
}

/// The text of an operand that is a literal.
pub open spec fn literal_text(x: Expr) -> Seq<char> {
    match x {
        Expr::Literal(run) => run,
        _ => Seq::empty(),
    }
}

/// The operand is a decimal literal.
pub open spec fn is_literal(x: Expr) -> bool {
    x matches Expr::Literal(run) && is_decimal(run)
}

/// The symbol that stands for an operator in a text.
pub open spec fn symbol(op: Operator) -> char {
    match op {
        Operator::Add => '+',
        Operator::Minus => '-',
        Operator::Multiply => '*',
        Operator::Divide => '/',
        Operator::Factorial => '!',
    }
}

/// The characters that a token is written with: the text of a literal, the
/// symbol of an operator.
pub open spec fn spell_token(t: Token) -> Seq<char> {
    match t {
        Token::Operand(x) => literal_text(x),
        Token::Operator(op) => seq![symbol(op)],
    }
}

/// The characters that a sequence of tokens is written with.
pub open spec fn spell(tokens: Seq<Token>) -> Seq<char>
    decreases tokens.len(),
{
    if tokens.len() == 0 {
        Seq::empty()
    } else {
        spell(tokens.drop_last()) + spell_token(tokens.last())
    }
}

/// Every operand of the sequence is a decimal literal.
pub open spec fn all_literal(tokens: Seq<Token>) -> bool {
    forall|j: int|
        0 <= j < tokens.len() ==> (#[trigger] tokens[j] matches Token::Operand(x) ==> is_literal(
            x,
        ))
}

/// One token is written with its own characters.
pub proof fn lemma_spell_one(t: Token)
    ensures
        spell(seq![t]) == spell_token(t),
{
    assert(seq![t].drop_last() =~= Seq::<Token>::empty());
    assert(spell(seq![t].drop_last()) + spell_token(t) =~= spell_token(t));
}

/// Two sequences of tokens, one after the other, are written with the
/// characters of the first and then those of the second.
pub proof fn lemma_spell_joined(a: Seq<Token>, b: Seq<Token>)
    ensures
        spell(a + b) == spell(a) + spell(b),
    decreases b.len(),
{
    if b.len() == 0 {
        assert(a + b =~= a);
        assert(spell(a) + spell(b) =~= spell(a));
    } else {
        assert((a + b).drop_last() =~= a + b.drop_last());
        lemma_spell_joined(a, b.drop_last());
        assert(spell(a + b) =~= spell(a) + spell(b));
    }
}

/// No two operands of the sequence stand next to each other.
pub open spec fn separated(tokens: Seq<Token>) -> bool {
    forall|j: int|
        0 <= j < tokens.len() - 1 ==> !(#[trigger] tokens[j] is Operand && tokens[j + 1]
            is Operand)
}

/// The tokens are a reading of the text: written out they are the
/// significant characters of the text, their operands are decimal literals,
/// and no two operands stand next to each other, so that every operand is a
/// whole run of digits and decimal points.
pub open spec fn is_reading(tokens: Seq<Token>, text: Seq<char>) -> bool {
    &&& spell(tokens) == significant(text)
    &&& all_literal(tokens)
    &&& separated(tokens)
}

/// The scan gives a reading of what it has read.
proof fn lemma_scan_spelling(rest: Seq<char>, pending: Seq<char>, out: Seq<Token>)
    requires
        scan_text(rest, pending, out) is Ok,
        all_literal(out),
        separated(out),
        out.len() == 0 || out.last() is Operator,
    ensures
        spell(scan_text(rest, pending, out)->Ok_0) == spell(out) + pending + significant(rest),
        all_literal(scan_text(rest, pending, out)->Ok_0),
        separated(scan_text(rest, pending, out)->Ok_0),
    decreases rest.len(),
{
    let tokens = scan_text(rest, pending, out)->Ok_0;
    let flushed = out + flush(pending)->Ok_0;
    if rest.len() == 0 || operator_of(rest[0]) is Some {
        assert(spell(flushed) == spell(out) + pending && all_literal(flushed) && separated(
            flushed,
        )) by {
            if pending.len() == 0 {
                assert(flushed =~= out);
                assert(spell(out) + pending =~= spell(out));
            } else {
                lemma_spell_joined(out, flush(pending)->Ok_0);
                lemma_spell_one(Token::Operand(Expr::Literal(pending)));
            }
        }
    }
    if rest.len() == 0 {
        assert(significant(rest) =~= rest) by {
            reveal(Seq::filter);
        }
        assert(spell(out) + pending + significant(rest) =~= spell(out) + pending);
    } else {
        lemma_significant_first(rest);
        let c = rest[0];
        let tail = significant(rest.skip(1));
        if is_numeric_char(c) {
            lemma_scan_spelling(rest.skip(1), pending.push(c), out);
            assert(spell(out) + pending.push(c) + tail =~= spell(out) + pending + (seq![c]
                + tail));
        } else if operator_of(c) is Some {
            let op = operator_of(c)->0;
            let grown = flushed.push(Token::Operator(op));
            assert(spell(grown) == spell(out) + pending + seq![c]) by {
                assert(grown.drop_last() =~= flushed);
            }
            lemma_scan_spelling(rest.skip(1), Seq::empty(), grown);
            assert(spell(grown) + Seq::<char>::empty() + tail =~= spell(out) + pending + (seq![c]
                + tail));
        } else {
            lemma_scan_spelling(rest.skip(1), pending, out);
        }
    }
}

/// A reading of a text, written out, is split into the tokens of the reading.
proof fn lemma_reading_tokens(tokens: Seq<Token>)
    requires
        all_literal(tokens),
        separated(tokens),
    ensures
        tokenize(spell(tokens)) == Ok::<Seq<Token>, ErrorKind>(tokens),
    decreases tokens.len(),
{
    let none = Seq::<char>::empty();
    if tokens.len() == 0 {
        assert(Seq::<Token>::empty() + Seq::<Token>::empty() =~= tokens);
    } else {
        let before = tokens.drop_last();
        assert(all_literal(before) && separated(before)) by {
            assert forall|j: int| 0 <= j < before.len() implies before[j] == tokens[j] by {}
        }
        match tokens.last() {
            Token::Operator(op) => {
                lemma_reading_tokens(before);
                theorem_operator_splits_text(spell(before), symbol(op), none);
                assert(spell(before) + seq![symbol(op)] + none =~= spell(tokens));
                assert(tokenize(none) == Ok::<Seq<Token>, ErrorKind>(Seq::empty())) by {
                    assert(Seq::<Token>::empty() + Seq::<Token>::empty() =~= Seq::<
                        Token,
                    >::empty());
                }
                assert(before.push(tokens.last()) + Seq::<Token>::empty() =~= tokens);
            },
            Token::Operand(x) => {
                let run = literal_text(x);
                assert(tokens[tokens.len() - 1] == tokens.last());
                theorem_literal_token(run);
                if before.len() == 0 {
                    assert(spell(tokens) =~= run);
                    assert(tokens =~= seq![Token::Operand(x)]);
                } else {
                    assert(tokens[tokens.len() - 2] == before.last());
                    let op = before.last()->Operator_0;
                    let start = before.drop_last();
                    assert(all_literal(start) && separated(start)) by {
                        assert forall|j: int| 0 <= j < start.len() implies start[j]
                            == tokens[j] by {}
                    }
                    lemma_reading_tokens(start);
                    theorem_operator_splits_text(spell(start), symbol(op), run);
                    assert(spell(start) + seq![symbol(op)] + run =~= spell(tokens));
                    assert(start.push(before.last()) + seq![Token::Operand(x)] =~= tokens);
                }
            },
        }
    }
}

/// The tokens of a text are its reading, and a text that has a reading has
/// no other tokens: the tokenizer succeeds exactly on the texts that have a
/// reading, and returns it.
pub proof fn theorem_reading(text: Seq<char>, tokens: Seq<Token>)
    ensures
        tokenize(text) == Ok::<Seq<Token>, ErrorKind>(tokens) <==> is_reading(tokens, text),
{
    let none = Seq::<Token>::empty();
    if tokenize(text) is Ok {
        lemma_scan_spelling(text, Seq::empty(), none);
        assert(spell(none) + Seq::<char>::empty() + significant(text) =~= significant(text));
    }
    if is_reading(tokens, text) {
        lemma_reading_tokens(tokens);
        theorem_insignificant_characters(text);
    }
}

/// `run` is the first literal of `text` that is malformed: the text is
/// `before`, `run` and `after`, one after the other, where `run` is a whole
/// run of digits and decimal points that is no decimal literal, and `before`
/// can be split into tokens.
pub open spec fn malformed_between(
    text: Seq<char>,
    before: Seq<char>,
    run: Seq<char>,
    after: Seq<char>,
) -> bool {
    &&& text == before + run + after
    &&& before.len() == 0 || operator_of(before.last()) is Some
    &&& tokenize(before) is Ok
    &&& run.len() > 0
    &&& all_numeric(run)
    &&& !is_decimal(run)
    &&& after.len() == 0 || operator_of(after[0]) is Some
}

/// `run` is the first malformed literal among the significant characters of
/// `text`.
pub open spec fn first_malformed(text: Seq<char>, run: Seq<char>) -> bool {
    exists|before: Seq<char>, after: Seq<char>|
        malformed_between(significant(text), before, run, after)
}

/// Behind a text that ends with an operator symbol, or behind no text, the
/// scan starts afresh behind the tokens of that text.
proof fn lemma_scan_behind(head: Seq<char>, rest: Seq<char>)
    requires
        head.len() == 0 || operator_of(head.last()) is Some,
        tokenize(head) is Ok,
    ensures
        tokenize(head + rest) == scan_text(rest, Seq::empty(), tokenize(head)->Ok_0),
{
    let none = Seq::<char>::empty();
    if head.len() == 0 {
        assert(head + rest =~= rest);
        assert(tokenize(head)->Ok_0 =~= Seq::<Token>::empty());
    } else {
        let c = head.last();
        let start = head.drop_last();
        assert(head + rest =~= start + seq![c] + rest);
        assert(head =~= start + seq![c] + none);
        lemma_scan_through_operator(start, c, rest, none, Seq::empty());
        lemma_scan_through_operator(start, c, none, none, Seq::empty());
        let tokens = scan_text(start, none, Seq::empty())->Ok_0.push(
            Token::Operator(operator_of(c)->0),
        );
        assert(tokens + Seq::<Token>::empty() =~= tokens);
    }
}

/// The first character of a text is kept among its significant characters
/// where it is significant, and the rest of the text is treated alike.
pub proof fn lemma_significant_first(text: Seq<char>)
    requires
        text.len() > 0,
    ensures
        significant(text) == if is_significant(text[0]) {
            seq![text[0]] + significant(text.skip(1))
        } else {
            significant(text.skip(1))
        },
{
    let keep = |c: char| is_significant(c);
    let c = text[0];
    assert(text =~= seq![c] + text.skip(1));
    Seq::filter_distributes_over_add(seq![c], text.skip(1), keep);
    reveal_with_fuel(Seq::filter, 2);
    assert(seq![c].drop_last() =~= Seq::<char>::empty());
    assert(Seq::<char>::empty() + significant(text.skip(1)) =~= significant(text.skip(1)));
}

/// A text that can be split into tokens, a pending run that can be flushed
/// and an operator symbol make a text that can be split into tokens.
proof fn lemma_scan_ahead(head: Seq<char>, pending: Seq<char>, c: char)
    requires
        head.len() == 0 || operator_of(head.last()) is Some,
        tokenize(head) is Ok,
        all_numeric(pending),
        flush(pending) is Ok,
        operator_of(c) is Some,
    ensures
        tokenize(head + pending + seq![c]) == Ok::<Seq<Token>, ErrorKind>(
            (tokenize(head)->Ok_0 + flush(pending)->Ok_0).push(
                Token::Operator(operator_of(c)->0),
            ),
        ),
{
    let out = tokenize(head)->Ok_0;
    let grown = (out + flush(pending)->Ok_0).push(Token::Operator(operator_of(c)->0));
    lemma_scan_behind(head, pending + seq![c]);
    assert(head + (pending + seq![c]) =~= head + pending + seq![c]);
    lemma_scan_numeric_run(pending, seq![c], Seq::empty(), out);
    assert(Seq::<char>::empty() + pending =~= pending);
    lemma_scan_operator(c, Seq::empty(), pending, out);
    assert(grown + Seq::<Token>::empty() =~= grown);
}

/// Where the scan fails, the parts of the text before and behind the run
/// that it fails on.
proof fn lemma_scan_first_malformed(
    head: Seq<char>,
    rest: Seq<char>,
    pending: Seq<char>,
    run: Seq<char>,
) -> (parts: (Seq<char>, Seq<char>))
    requires
        head.len() == 0 || operator_of(head.last()) is Some,
        tokenize(head) is Ok,
        all_numeric(pending),
        scan_text(rest, pending, tokenize(head)->Ok_0) == Err::<Seq<Token>, ErrorKind>(
            ErrorKind::CannotParseNumber(run),
        ),
    ensures
        malformed_between(head + pending + significant(rest), parts.0, run, parts.1),
    decreases rest.len(),
{
    let out = tokenize(head)->Ok_0;
    let all = head + pending + significant(rest);
    let none = Seq::<char>::empty();
    if rest.len() == 0 {
        assert(significant(rest) =~= none) by {
            reveal(Seq::filter);
        }
        assert(all =~= head + run + none);
        (head, none)
    } else {
        let c = rest[0];
        let tail = rest.skip(1);
        lemma_significant_first(rest);
        if is_numeric_char(c) {
            assert(head + pending.push(c) + significant(tail) =~= all);
            lemma_scan_first_malformed(head, tail, pending.push(c), run)
        } else if operator_of(c) is Some {
            if flush(pending) is Ok {
                let read = head + pending + seq![c];
                lemma_scan_ahead(head, pending, c);
                assert(read + none + significant(tail) =~= all);
                lemma_scan_first_malformed(read, tail, none, run)
            } else {
                assert(all =~= head + run + (seq![c] + significant(tail)));
                (head, seq![c] + significant(tail))
            }
        } else {
            lemma_scan_first_malformed(head, tail, pending, run)
        }
    }
}

/// The tokenizer fails with `CannotParseNumber` and a run if and only if
/// that run is the first malformed literal of the text.
pub proof fn theorem_first_malformed(text: Seq<char>, run: Seq<char>)
    ensures
        tokenize(text) == Err::<Seq<Token>, ErrorKind>(ErrorKind::CannotParseNumber(run))
            <==> first_malformed(text, run),
{
    let none = Seq::<char>::empty();
    if tokenize(text) == Err::<Seq<Token>, ErrorKind>(ErrorKind::CannotParseNumber(run)) {
        assert(tokenize(none) == Ok::<Seq<Token>, ErrorKind>(Seq::empty())) by {
            assert(Seq::<Token>::empty() + Seq::<Token>::empty() =~= Seq::<Token>::empty());
        }
        let parts = lemma_scan_first_malformed(none, text, none, run);
        assert(none + none + significant(text) =~= significant(text));
        assert(malformed_between(significant(text), parts.0, run, parts.1));
    }
    if first_malformed(text, run) {
        let (before, after) = choose|before: Seq<char>, after: Seq<char>|
            malformed_between(significant(text), before, run, after);
        theorem_malformed_literal(before, run, after);
        theorem_insignificant_characters(text);
    }
}

} // verus!
