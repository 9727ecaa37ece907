use vstd::prelude::*;
use crate::parser::ast::{ExpressionModel, TextPartModel};
use crate::parser::grammar::{
    digits_len, float_len, is_false_word, is_keyword, is_true_word, remaining, spec_call_args,
    spec_expression, spec_identifier, spec_integer_decimal, spec_symbol_rest, spec_text_parts,
    with_unit, without_underscores, word_len,
};
use crate::parser::scan::{at, at_class, in_class, lemma_run, run, CharClass};
use crate::roundtrip::floats::lemma_float_yielded;
use crate::roundtrip::shape::{
    is_identifier, is_number, is_word, printable_expression, printable_text,
};

verus! {

/// The word at `pos` is a word.
pub proof fn lemma_yields_word(s: Seq<char>, p: int)
    requires
        word_len(s, p) > 0,
    ensures
        is_word(s.subrange(p, p + word_len(s, p))),
        0 <= p,
        p + word_len(s, p) <= s.len(),
{
    lemma_run(s, p, CharClass::IdentChar);
    let t = s.subrange(p, p + word_len(s, p));
    assert forall|j: int| 0 <= j < t.len() implies in_class(
        CharClass::IdentChar,
        #[trigger] t[j],
    ) by {
        assert(t[j] == s[p + j]);
    }
}

/// An identifier that the grammar yields is an identifier.
pub proof fn lemma_yields_identifier(s: Seq<char>, p: int)
    ensures
        match spec_identifier(s, p) {
            Ok((t, n)) => is_identifier(t) && n == t.len() && n > 0 && 0 <= p && p + n
                <= s.len(),
            Err(_) => true,
        },
{
    if word_len(s, p) > 0 {
        lemma_yields_word(s, p);
    }
}

/// A number with the unit that the grammar finds behind it is an
/// expression that the grammar yields.
pub proof fn lemma_yields_unit(s: Seq<char>, end: int, number: ExpressionModel, n: nat)
    requires
        is_number(number),
    ensures
        printable_expression(with_unit(s, end, number, n).0),
{
    lemma_yields_identifier(s, end + run(s, end, CharClass::InlineSpace));
}

/// The segments that the grammar yields behind the first of a symbol are
/// identifiers.
pub proof fn lemma_yields_symbol_rest(s: Seq<char>, p: int)
    ensures
        forall|j: int|
            0 <= j < spec_symbol_rest(s, p).0.len() ==> is_identifier(
                #[trigger] spec_symbol_rest(s, p).0[j],
            ),
    decreases remaining(s, p),
{
    if at(s, p, '.') {
        lemma_yields_identifier(s, p + 1);
        match spec_identifier(s, p + 1) {
            Ok((word, n)) => {
                lemma_yields_symbol_rest(s, p + 1 + n);
                let rest = spec_symbol_rest(s, p + 1 + n).0;
                let all = spec_symbol_rest(s, p).0;
                assert(all == seq![word] + rest);
                assert forall|j: int| 0 <= j < all.len() implies is_identifier(
                    #[trigger] all[j],
                ) by {
                    if j > 0 {
                        assert(all[j] == rest[j - 1]);
                    }
                }
            },
            Err(_) => {},
        }
    }
}

/// What the grammar yields for an expression is an expression of the shape
/// that prints and reads back.
pub proof fn lemma_yields_expression(s: Seq<char>, p: int)
    ensures
        match spec_expression(s, p) {
            Ok((e, _)) => printable_expression(e),
            Err(_) => true,
        },
    decreases remaining(s, p), 0nat,
{
    let f = float_len(s, p);
    let d = digits_len(s, p);
    let w = word_len(s, p);
    let word = s.subrange(p, p + w);
    if f > 0 {
        lemma_float_yielded(s, p);
        let number = ExpressionModel::Float(without_underscores(s.subrange(p, p + f)));
        lemma_yields_unit(s, p + f, number, f);
    } else if d > 0 {
        match spec_integer_decimal(s, p) {
            Ok((value, _)) => {
                lemma_yields_unit(s, p + d, ExpressionModel::Int(value), d);
            },
            Err(_) => {},
        }
    } else if at(s, p, '"') {
        lemma_yields_text(s, p + 1, CharClass::StringText);
    } else if w == 0 || is_keyword(word) {
    } else if is_true_word(word) {
    } else if is_false_word(word) {
    } else if at(s, p + w, '(') {
        lemma_yields_word(s, p);
        lemma_yields_args(s, p + w + 1, true);
    } else {
        lemma_yields_word(s, p);
        lemma_yields_symbol_rest(s, p + w);
        let rest = spec_symbol_rest(s, p + w).0;
        let path = seq![word] + rest;
        assert forall|j: int| 0 < j < path.len() implies is_identifier(#[trigger] path[j]) by {
            assert(path[j] == rest[j - 1]);
        }
    }
}

/// What the grammar yields for a text is a text of the shape that prints
/// and reads back; it has a part where a part starts, and starts with a
/// fragment just where a character of the class stands.
pub proof fn lemma_yields_text(s: Seq<char>, p: int, class: CharClass)
    requires
        class == CharClass::StringText || class == CharClass::LineText,
    ensures
        match spec_text_parts(s, p, class) {
            Ok((parts, _)) => {
                &&& printable_text(parts, class)
                &&& at_class(s, p, class) || at(s, p, '{') ==> parts.len() > 0
                &&& parts.len() > 0 ==> match parts[0] {
                    TextPartModel::Text(t) => at_class(s, p, class) && t.len() > 0 && t[0]
                        == s[p],
                    TextPartModel::Expression(_) => !at_class(s, p, class),
                }
            },
            Err(_) => true,
        },
    decreases remaining(s, p), 1nat,
{
    if at_class(s, p, class) {
        let r = 1 + run(s, p + 1, class);
        lemma_run(s, p + 1, class);
        lemma_yields_text(s, p + r, class);
        match spec_text_parts(s, p + r, class) {
            Ok((rest, _)) => {
                let t = s.subrange(p, p + r);
                let parts = seq![TextPartModel::Text(t)] + rest;
                assert forall|j: int| 0 <= j < t.len() implies in_class(class, #[trigger] t[j]) by {
                    assert(t[j] == s[p + j]);
                }
                assert forall|i: int| 0 <= i < parts.len() implies match #[trigger] parts[i] {
                    TextPartModel::Text(t) => {
                        &&& t.len() > 0
                        &&& forall|j: int| 0 <= j < t.len() ==> in_class(class, #[trigger] t[j])
                        &&& i > 0 ==> parts[i - 1] is Expression
                    },
                    TextPartModel::Expression(e) => printable_expression(e),
                } by {
                    if i > 0 {
                        assert(parts[i] == rest[i - 1]);
                        if i > 1 {
                            assert(parts[i - 1] == rest[i - 2]);
                        }
                    }
                }
            },
            Err(_) => {},
        }
    } else if at(s, p, '{') {
        let open = 1 + run(s, p + 1, CharClass::Space);
        lemma_yields_expression(s, p + open);
        match spec_expression(s, p + open) {
            Ok((e, n)) => {
                let close = open + n + run(s, p + open + n, CharClass::Space);
                if at(s, p + close, '}') {
                    lemma_yields_text(s, p + close + 1, class);
                    match spec_text_parts(s, p + close + 1, class) {
                        Ok((rest, _)) => {
                            let parts = seq![TextPartModel::Expression(e)] + rest;
                            assert forall|i: int| 0 <= i < parts.len() implies match #[trigger] parts[i] {
                                TextPartModel::Text(t) => {
                                    &&& t.len() > 0
                                    &&& forall|j: int|
                                        0 <= j < t.len() ==> in_class(class, #[trigger] t[j])
                                    &&& i > 0 ==> parts[i - 1] is Expression
                                },
                                TextPartModel::Expression(e) => printable_expression(e),
                            } by {
                                if i > 0 {
                                    assert(parts[i] == rest[i - 1]);
                                    if i > 1 {
                                        assert(parts[i - 1] == rest[i - 2]);
                                    }
                                }
                            }
                        },
                        Err(_) => {},
                    }
                }
            },
            Err(_) => {},
        }
    }
}

/// The arguments that the grammar yields for a call are expressions of the
/// shape that prints and reads back.
pub proof fn lemma_yields_args(s: Seq<char>, p: int, first: bool)
    ensures
        match spec_call_args(s, p, first) {
            Ok((args, _)) => forall|j: int|
                0 <= j < args.len() ==> printable_expression(#[trigger] args[j]),
            Err(_) => true,
        },
    decreases remaining(s, p), 1nat,
{
    let w = run(s, p, CharClass::Space);
    if first && at(s, p + w, ')') {
    } else {
        lemma_yields_expression(s, p + w);
        match spec_expression(s, p + w) {
            Ok((arg, n)) => {
                let end = w + n + run(s, p + w + n, CharClass::Space);
                if at(s, p + end, ',') {
                    lemma_yields_args(s, p + end + 1, false);
                    match spec_call_args(s, p + end + 1, false) {
                        Ok((rest, _)) => {
                            let args = seq![arg] + rest;
                            assert forall|j: int| 0 <= j < args.len() implies printable_expression(
                                #[trigger] args[j],
                            ) by {
                                if j > 0 {
                                    assert(args[j] == rest[j - 1]);
                                }
                            }
                        },
                        Err(_) => {},
                    }
                }
            },
            Err(_) => {},
        }
    }
}

} // verus!
