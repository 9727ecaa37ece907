use vstd::prelude::*;
use crate::decimal::{digits_of, lemma_digits_of};
use crate::parser::ast::ExpressionModel;
use crate::parser::error::SyntaxError;
use crate::parser::grammar::{
    digits_len, exponent_len, float_len, spec_identifier, spec_integer_decimal, with_unit,
    without_underscores, word_len,
};
use crate::parser::scan::{at, at_class, in_class, is_digit, lemma_run, run, CharClass};
use crate::roundtrip::shape::{is_count, is_float_literal, is_identifier, is_word};
use crate::roundtrip::text::{holds, lemma_holds_char, lemma_run_over};

verus! {

/// Where `s` holds a word and no word character behind it, the word at that
/// place is it.
pub proof fn lemma_word(s: Seq<char>, p: int, t: Seq<char>)
    requires
        holds(s, p, t),
        is_word(t),
        !at_class(s, p + t.len(), CharClass::IdentChar),
    ensures
        word_len(s, p) == t.len(),
{
    lemma_run_over(s, p, t, CharClass::IdentChar);
    lemma_holds_char(s, p, t, 0);
}

/// Where `s` holds an identifier and no word character behind it, the
/// grammar reads it there.
pub proof fn lemma_identifier(s: Seq<char>, p: int, t: Seq<char>)
    requires
        holds(s, p, t),
        is_identifier(t),
        !at_class(s, p + t.len(), CharClass::IdentChar),
    ensures
        spec_identifier(s, p) == Ok::<(Seq<char>, nat), SyntaxError>((t, t.len())),
{
    lemma_word(s, p, t);
}

/// Whether the character at `pos` could carry a number on.
pub open spec fn extends_number(s: Seq<char>, pos: int) -> bool {
    at_class(s, pos, CharClass::DigitOrUnderscore) || at(s, pos, '.') || at(s, pos, 'e') || at(
        s,
        pos,
        'E',
    ) || at(s, pos, '+') || at(s, pos, '-')
}

/// A run inside a text that `s` holds is the run in `s`, where the class
/// ends with the text.
pub proof fn lemma_run_local(s: Seq<char>, p: int, t: Seq<char>, j: int, class: CharClass)
    requires
        holds(s, p, t),
        0 <= j <= t.len(),
        !at_class(s, p + t.len(), class),
    ensures
        run(s, p + j, class) == run(t, j, class),
    decreases t.len() - j,
{
    if j < t.len() {
        lemma_holds_char(s, p, t, j);
        lemma_run_local(s, p, t, j + 1, class);
    }
}

/// A digit run inside a text that `s` holds is the digit run in `s`, where
/// nothing behind the text could carry a number on.
pub proof fn lemma_digits_local(s: Seq<char>, p: int, t: Seq<char>, j: int)
    requires
        holds(s, p, t),
        0 <= j <= t.len(),
        !extends_number(s, p + t.len()),
    ensures
        digits_len(s, p + j) == digits_len(t, j),
        j + digits_len(t, j) <= t.len(),
{
    lemma_run_local(s, p, t, j, CharClass::DigitOrUnderscore);
    lemma_run(t, j, CharClass::DigitOrUnderscore);
    if j < t.len() {
        lemma_holds_char(s, p, t, j);
    }
}

/// A character inside a text that `s` holds stands in `s`, and none behind the
/// text where `s` has another.
pub proof fn lemma_at_local(s: Seq<char>, p: int, t: Seq<char>, j: int, c: char)
    requires
        holds(s, p, t),
        0 <= j <= t.len(),
        !at(s, p + t.len(), c),
    ensures
        at(s, p + j, c) == at(t, j, c),
{
    if j < t.len() {
        lemma_holds_char(s, p, t, j);
    }
}

/// An exponent inside a text that `s` holds is the exponent in `s`, where
/// nothing behind the text could carry a number on.
pub proof fn lemma_exponent_local(s: Seq<char>, p: int, t: Seq<char>, j: int)
    requires
        holds(s, p, t),
        0 <= j <= t.len(),
        !extends_number(s, p + t.len()),
    ensures
        exponent_len(s, p + j) == exponent_len(t, j),
        j + exponent_len(t, j) <= t.len(),
{
    lemma_at_local(s, p, t, j, 'e');
    lemma_at_local(s, p, t, j, 'E');
    if at(t, j, 'e') || at(t, j, 'E') {
        lemma_at_local(s, p, t, j + 1, '+');
        lemma_at_local(s, p, t, j + 1, '-');
        let sign: int = if at(t, j + 1, '+') || at(t, j + 1, '-') {
            1
        } else {
            0
        };
        lemma_digits_local(s, p, t, j + 1 + sign);
    }
}

/// The float literal at the start of a text that `s` holds is the float
/// literal in `s`, where nothing behind the text could carry a number on.
pub proof fn lemma_float_local(s: Seq<char>, p: int, t: Seq<char>)
    requires
        holds(s, p, t),
        !extends_number(s, p + t.len()),
    ensures
        float_len(s, p) == float_len(t, 0),
{
    lemma_at_local(s, p, t, 0, '.');
    if at(t, 0, '.') {
        lemma_digits_local(s, p, t, 1);
        let d = digits_len(t, 1) as int;
        if d > 0 {
            lemma_exponent_local(s, p, t, 1 + d);
        }
    } else {
        lemma_digits_local(s, p, t, 0);
        let i = digits_len(t, 0) as int;
        if i > 0 {
            lemma_at_local(s, p, t, i, '.');
            if at(t, i, '.') {
                lemma_digits_local(s, p, t, i + 1);
                let d = digits_len(t, i + 1) as int;
                if d > 0 {
                    lemma_exponent_local(s, p, t, i + 1 + d);
                }
            } else {
                lemma_exponent_local(s, p, t, i);
            }
        }
    }
}

/// A text without `_` loses nothing when its `_` are taken out.
pub proof fn lemma_without_underscores(t: Seq<char>)
    requires
        forall|j: int| 0 <= j < t.len() ==> #[trigger] t[j] != '_',
    ensures
        without_underscores(t) == t,
    decreases t.len(),
{
    if t.len() > 0 {
        lemma_without_underscores(t.drop_last());
        assert(t.drop_last().push(t.last()) =~= t);
    }
}

/// Where `s` holds the text of a float literal and nothing behind it could
/// carry a number on, the grammar finds that literal there.
pub proof fn lemma_float_head(s: Seq<char>, p: int, t: Seq<char>)
    requires
        holds(s, p, t),
        is_float_literal(t),
        !extends_number(s, p + t.len()),
    ensures
        float_len(s, p) == t.len(),
        without_underscores(s.subrange(p, p + t.len())) == t,
{
    lemma_float_local(s, p, t);
    lemma_without_underscores(t);
}

/// Where `s` holds the digits of a number that fits and nothing behind
/// them could carry a number on, the grammar finds an integer literal
/// there, and no float literal.
pub proof fn lemma_int_head(s: Seq<char>, p: int, v: int)
    requires
        is_count(v),
        holds(s, p, digits_of(v as nat)),
        !extends_number(s, p + digits_of(v as nat).len()),
    ensures
        float_len(s, p) == 0,
        digits_len(s, p) == digits_of(v as nat).len(),
        digits_len(s, p) > 0,
        spec_integer_decimal(s, p) == Ok::<(int, nat), SyntaxError>(
            (v, digits_of(v as nat).len()),
        ),
{
    let t = digits_of(v as nat);
    lemma_digits_of(v as nat);
    lemma_holds_char(s, p, t, 0);
    assert forall|j: int| 0 <= j < t.len() implies in_class(
        CharClass::DigitOrUnderscore,
        #[trigger] t[j],
    ) by {
        assert(is_digit(t[j]));
    }
    lemma_run_over(s, p, t, CharClass::DigitOrUnderscore);
}

/// A number with no space or tab behind it has no unit.
pub proof fn lemma_no_unit(s: Seq<char>, end: int, number: ExpressionModel, n: nat)
    requires
        !at_class(s, end, CharClass::InlineSpace),
    ensures
        with_unit(s, end, number, n) == (number, n),
{
}

/// A number with one space and an identifier behind it has that unit.
pub proof fn lemma_unit(s: Seq<char>, end: int, number: ExpressionModel, n: nat, unit: Seq<char>)
    requires
        0 <= end,
        at(s, end, ' '),
        holds(s, end + 1, unit),
        is_identifier(unit),
        !at_class(s, end + 1 + unit.len(), CharClass::IdentChar),
    ensures
        with_unit(s, end, number, n) == (
            ExpressionModel::Unit(Box::new(number), unit),
            n + 1 + unit.len(),
        ),
{
    lemma_identifier(s, end + 1, unit);
    lemma_holds_char(s, end + 1, unit, 0);
    assert(run(s, end + 1, CharClass::InlineSpace) == 0);
    assert(run(s, end, CharClass::InlineSpace) == 1);
}

} // verus!
