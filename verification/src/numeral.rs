//! Numerals: the texts that are read as a number.
//!
//! ```text
//! numeral  = sign? ( number | word )
//! number   = decimal exponent?
//! decimal  = digits and at most one decimal point, with at least one digit
//! exponent = ( "e" | "E" ) sign? digit+
//! word     = "inf" | "infinity" | "nan", in small or capital letters
//! sign     = "+" | "-"
//! ```
//!
//! This is the grammar by which the standard library reads a text as a
//! floating-point number. [`is_numeral`] states it, and [`accepts`] decides
//! it. Within an expression a literal is a run of digits and decimal points,
//! and on such a run a numeral is a decimal literal
//! ([`theorem_numeric_numeral`]).
use crate::lexical::all_numeric;
use crate::models::{is_decimal, is_digit, is_numeric_char};
use vstd::prelude::*;

verus! {

/// `+` or `-`.
pub open spec fn is_sign(c: char) -> bool {
    c == '+' || c == '-'
}

/// One digit or more, and nothing else.
pub open spec fn is_digits(s: Seq<char>) -> bool {
    s.len() > 0 && forall|i: int| 0 <= i < s.len() ==> is_digit(#[trigger] s[i])
}

/// An exponent: `e` or `E`, a sign or none, and digits.
pub open spec fn is_exponent(s: Seq<char>) -> bool {
    &&& s.len() > 0
    &&& s[0] == 'e' || s[0] == 'E'
    &&& is_digits(s.skip(1)) || (s.len() > 1 && is_sign(s[1]) && is_digits(s.skip(2)))
}

/// A number: a decimal literal, and an exponent behind it or none.
pub open spec fn is_number(s: Seq<char>) -> bool {
    exists|k: int|
        0 <= k <= s.len() && is_decimal(#[trigger] s.take(k)) && (k == s.len() || is_exponent(
            s.skip(k),
        ))
}

/// `c` is the letter `small`, written small or capital. The letters are those
/// of the words that are numerals.
pub open spec fn is_letter(c: char, small: char) -> bool {
    c == small || (small == 'a' && c == 'A') || (small == 'f' && c == 'F') || (small == 'i' && c
        == 'I') || (small == 'n' && c == 'N') || (small == 't' && c == 'T') || (small == 'y' && c
        == 'Y')
}

/// `s` is `word`, letter by letter, each written small or capital.
pub open spec fn spells_word(s: Seq<char>, word: Seq<char>) -> bool {
    s.len() == word.len() && forall|i: int|
        0 <= i < s.len() ==> is_letter(#[trigger] s[i], word[i])
}

/// One of the words that are numerals: `inf`, `infinity` and `nan`.
pub open spec fn is_word(s: Seq<char>) -> bool {
    spells_word(s, seq!['i', 'n', 'f']) || spells_word(s, seq!['n', 'a', 'n']) || spells_word(
        s,
        seq!['i', 'n', 'f', 'i', 'n', 'i', 't', 'y'],
    )
}

/// A numeral without a sign: a number or a word.
pub open spec fn is_unsigned(s: Seq<char>) -> bool {
    is_number(s) || is_word(s)
}

/// A numeral: a number or a word, with a sign before it or none.
pub open spec fn is_numeral(s: Seq<char>) -> bool {
    is_unsigned(s) || (s.len() > 0 && is_sign(s[0]) && is_unsigned(s.skip(1)))
}

/// Where the decimal literal of a number ends: at the first character that
/// is no digit and no decimal point.
pub proof fn lemma_number_split(s: Seq<char>, n: int)
    requires
        0 <= n <= s.len(),
        all_numeric(s.take(n)),
        n == s.len() || !is_numeric_char(s[n]),
    ensures
        is_number(s) <==> is_decimal(s.take(n)) && (n == s.len() || is_exponent(s.skip(n))),
{
    if is_number(s) {
        let k = choose|k: int|
            0 <= k <= s.len() && is_decimal(#[trigger] s.take(k)) && (k == s.len() || is_exponent(
                s.skip(k),
            ));
        if n < k {
            assert(s.take(k)[n] == s[n]);
        }
        if k < n {
            assert(s.skip(k)[0] == s[k]);
            assert(s.take(n)[k] == s[k]);
        }
        assert(k == n);
    }
}

/// A text that begins with a sign is no numeral without a sign.
proof fn lemma_sign_first(s: Seq<char>)
    requires
        s.len() > 0,
        is_sign(s[0]),
    ensures
        !is_unsigned(s),
{
    assert(all_numeric(s.take(0)));
    lemma_number_split(s, 0);
    assert(!is_decimal(s.take(0)));
    if is_word(s) {
        assert(s[0] == s[0]);
    }
}

/// Within digits and decimal points the numerals are the decimal literals.
pub proof fn theorem_numeric_numeral(s: Seq<char>)
    requires
        all_numeric(s),
    ensures
        is_numeral(s) <==> is_decimal(s),
{
    assert(s.take(s.len() as int) =~= s);
    lemma_number_split(s, s.len() as int);
    if s.len() > 0 {
        assert(is_numeric_char(s[0]));
    }
}

/// Whether `c` is the letter `small`, written small or capital.
fn letter(c: char, small: char) -> (b: bool)
    ensures
        b == is_letter(c, small),
{
    c == small || (small == 'a' && c == 'A') || (small == 'f' && c == 'F') || (small == 'i' && c
        == 'I') || (small == 'n' && c == 'N') || (small == 't' && c == 'T') || (small == 'y' && c
        == 'Y')
}

/// Whether the characters from `from` on are one of the words.
fn word_from(text: &Vec<char>, from: usize) -> (b: bool)
    requires
        from <= text.len(),
    ensures
        b == is_word(text@.skip(from as int)),
{
    let ghost s = text@.skip(from as int);
    let ghost inf = seq!['i', 'n', 'f'];
    let ghost nan = seq!['n', 'a', 'n'];
    let ghost infinity = seq!['i', 'n', 'f', 'i', 'n', 'i', 't', 'y'];
    let length = text.len() - from;
    if length == 3 {
        let first = text[from];
        let second = text[from + 1];
        let third = text[from + 2];
        proof {
            assert(s[0] == first && s[1] == second && s[2] == third);
            assert(inf[0] == 'i' && inf[1] == 'n' && inf[2] == 'f');
            assert(nan[0] == 'n' && nan[1] == 'a' && nan[2] == 'n');
        }
        (letter(first, 'i') && letter(second, 'n') && letter(third, 'f')) || (letter(first, 'n')
            && letter(second, 'a') && letter(third, 'n'))
    } else if length == 8 {
        proof {
            assert(s[0] == text@[from + 0] && s[1] == text@[from + 1] && s[2] == text@[from + 2]
                && s[3] == text@[from + 3] && s[4] == text@[from + 4] && s[5] == text@[from + 5]
                && s[6] == text@[from + 6] && s[7] == text@[from + 7]);
            assert(infinity[0] == 'i' && infinity[1] == 'n' && infinity[2] == 'f' && infinity[3]
                == 'i' && infinity[4] == 'n' && infinity[5] == 'i' && infinity[6] == 't'
                && infinity[7] == 'y');
        }
        letter(text[from], 'i') && letter(text[from + 1], 'n') && letter(text[from + 2], 'f')
            && letter(text[from + 3], 'i') && letter(text[from + 4], 'n') && letter(
            text[from + 5],
            'i',
        ) && letter(text[from + 6], 't') && letter(text[from + 7], 'y')
    } else {
        false
    }
}

/// Whether `c` is a digit.
fn digit(c: char) -> (b: bool)
    ensures
        b == is_digit(c),
{
    match c {
        '0' | '1' | '2' | '3' | '4' | '5' | '6' | '7' | '8' | '9' => true,
        _ => false,
    }
}

/// Where the run of digits and decimal points that begins at `from` ends,
/// and whether the run is a decimal literal.
fn decimal_prefix(text: &Vec<char>, from: usize) -> (found: (usize, bool))
    requires
        from <= text.len(),
    ensures
        from <= found.0 <= text.len(),
        all_numeric(text@.subrange(from as int, found.0 as int)),
        found.0 == text.len() || !is_numeric_char(text@[found.0 as int]),
        found.1 == is_decimal(text@.subrange(from as int, found.0 as int)),
{
    let mut end = from;
    let mut has_digit = false;
    let mut points: u8 = 0;
    let ghost mut digit_at: int = 0;
    let ghost mut first_point: int = 0;
    let ghost mut second_point: int = 0;
    while end < text.len() && (digit(text[end]) || text[end] == '.')
        invariant
            from <= end <= text.len(),
            forall|i: int| from <= i < end ==> is_numeric_char(#[trigger] text@[i]),
            has_digit ==> from <= digit_at < end && is_digit(text@[digit_at]),
            !has_digit ==> forall|i: int| from <= i < end ==> !is_digit(#[trigger] text@[i]),
            points <= 2,
            points == 0 ==> forall|i: int| from <= i < end ==> #[trigger] text@[i] != '.',
            points >= 1 ==> from <= first_point < end && text@[first_point] == '.',
            points == 1 ==> forall|i: int|
                from <= i < end && i != first_point ==> #[trigger] text@[i] != '.',
            points == 2 ==> first_point < second_point < end && text@[second_point] == '.',
        decreases text.len() - end,
    {
        if text[end] == '.' {
            if points == 0 {
                points = 1;
                proof {
                    first_point = end as int;
                }
            } else if points == 1 {
                points = 2;
                proof {
                    second_point = end as int;
                }
            }
        } else {
            has_digit = true;
            proof {
                digit_at = end as int;
            }
        }
        end += 1;
    }
    proof {
        let run = text@.subrange(from as int, end as int);
        assert forall|i: int| 0 <= i < run.len() implies run[i] == text@[from + i] by {}
        if has_digit {
            assert(is_digit(run[digit_at - from]));
        }
        if points == 2 {
            assert(run[first_point - from] == '.' && run[second_point - from] == '.');
        }
        if has_digit && points <= 1 {
            assert forall|i: int, j: int| 0 <= i < j < run.len() implies !(#[trigger] run[i] == '.'
                && #[trigger] run[j] == '.') by {
                assert(run[i] == text@[from + i] && run[j] == text@[from + j]);
            }
        }
    }
    (end, has_digit && points <= 1)
}

/// Whether the characters from `from` on are digits, one or more.
fn digits_from(text: &Vec<char>, from: usize) -> (b: bool)
    requires
        from <= text.len(),
    ensures
        b == is_digits(text@.skip(from as int)),
{
    let ghost s = text@.skip(from as int);
    if from == text.len() {
        return false;
    }
    let mut at = from;
    while at < text.len()
        invariant
            from <= at <= text.len(),
            s == text@.skip(from as int),
            forall|i: int| 0 <= i < at - from ==> is_digit(#[trigger] s[i]),
        decreases text.len() - at,
    {
        if !digit(text[at]) {
            proof {
                assert(s[at - from] == text@[at as int]);
            }
            return false;
        }
        proof {
            assert(s[at - from] == text@[at as int]);
        }
        at += 1;
    }
    true
}

/// Whether the characters from `at` on are an exponent.
fn exponent_from(text: &Vec<char>, at: usize) -> (b: bool)
    requires
        at < text.len(),
    ensures
        b == is_exponent(text@.skip(at as int)),
{
    let ghost s = text@.skip(at as int);
    proof {
        assert(s[0] == text@[at as int]);
        assert(s.skip(1) =~= text@.skip(at + 1));
    }
    if text[at] != 'e' && text[at] != 'E' {
        return false;
    }
    let next = at + 1;
    if next < text.len() && (text[next] == '+' || text[next] == '-') {
        proof {
            assert(s[1] == text@[next as int]);
            assert(s.skip(2) =~= text@.skip(next + 1));
            assert(s.skip(1)[0] == s[1]);
        }
        digits_from(text, next + 1)
    } else {
        proof {
            if s.len() > 1 {
                assert(s[1] == text@[next as int]);
            }
        }
        digits_from(text, next)
    }
}

/// Whether the characters from `from` on are a number or a word.
fn unsigned_from(text: &Vec<char>, from: usize) -> (b: bool)
    requires
        from <= text.len(),
    ensures
        b == is_unsigned(text@.skip(from as int)),
{
    let ghost s = text@.skip(from as int);
    if word_from(text, from) {
        return true;
    }
    let (end, decimal) = decimal_prefix(text, from);
    proof {
        assert(s.take(end - from) =~= text@.subrange(from as int, end as int));
        assert(s.skip(end - from) =~= text@.skip(end as int));
        if end < text.len() {
            assert(s[end - from] == text@[end as int]);
        }
        lemma_number_split(s, end - from);
    }
    if !decimal {
        false
    } else if end == text.len() {
        true
    } else {
        exponent_from(text, end)
    }
}

/// Whether `text` is a numeral.
pub fn accepts(text: &str) -> (b: bool)
    ensures
        b == is_numeral(text@),
{
    let mut characters: Vec<char> = Vec::new();
    for c in it: text.chars()
        invariant
            it.seq() == text@,
            characters@ == text@.take(it.index() as int),
    {
        characters.push(c);
    }
    proof {
        assert(characters@ =~= text@);
        assert(text@.skip(0) =~= text@);
    }
    if characters.len() > 0 && (characters[0] == '+' || characters[0] == '-') {
        proof {
            lemma_sign_first(text@);
        }
        unsigned_from(&characters, 1)
    } else {
        unsigned_from(&characters, 0)
    }
}

} // verus!
