use vstd::prelude::*;
use crate::parser::ast::{
    expressions_model, lemma_expressions_push, lemma_strings_push, lemma_text_parts_push,
    strings_view, text_parts_model, Expression, Symbol, TextPart,
};
use crate::parser::error::{fail, Expected, SyntaxError};
use crate::parser::grammar::{
    after, decimal_value, digit_value, digits_len, exponent_len, float_len, is_keyword, keyword_at,
    lemma_after_end, lemma_after_nothing, lemma_after_one, spec_call_args, spec_expression,
    spec_float, spec_identifier, spec_integer_decimal, spec_string, spec_symbol, spec_symbol_rest,
    spec_text_part, spec_text_parts, with_unit, without_underscores, word_len,
};
use crate::parser::scan::{
    at, at_class, is_at, is_at_class, is_digit, is_digit_char, is_ident_start_char, lemma_run, run,
    scan, slice_to_string, starts_with, CharClass,
};

verus! {

/// Whether the characters from `from` up to `to` spell `word`.
pub fn word_is(input: &Vec<char>, from: usize, to: usize, word: &str) -> (r: bool)
    requires
        from <= to <= input.len(),
    ensures
        r == (input@.subrange(from as int, to as int) == word@),
{
    let n = word.unicode_len();
    if to - from != n {
        return false;
    }
    starts_with(input, from, word)
}

/// End of the word that starts at `pos`; `pos` itself where none starts.
pub fn word_end(input: &Vec<char>, pos: usize) -> (end: usize)
    requires
        pos <= input.len(),
    ensures
        end == pos + word_len(input@, pos as int),
        pos <= end <= input.len(),
{
    if pos < input.len() && is_ident_start_char(input[pos]) {
        scan(input, pos, CharClass::IdentChar)
    } else {
        pos
    }
}

/// Whether the word at `pos` is exactly `keyword`.
pub fn at_keyword(input: &Vec<char>, pos: usize, keyword: &str) -> (r: bool)
    requires
        pos <= input.len(),
    ensures
        r == keyword_at(input@, pos as int, keyword@),
{
    let end = word_end(input, pos);
    let n = keyword.unicode_len();
    end - pos == n && starts_with(input, pos, keyword)
}

/// Whether the characters from `from` up to `to` spell a reserved word.
pub fn is_reserved(input: &Vec<char>, from: usize, to: usize) -> (r: bool)
    requires
        from <= to <= input.len(),
    ensures
        r == is_keyword(input@.subrange(from as int, to as int)),
{
    word_is(input, from, to, "scene") || word_is(input, from, to, "end") || word_is(
        input,
        from,
        to,
        "prompt",
    ) || word_is(input, from, to, "option")
}

/// The identifier at `pos`, and where it ends.
pub fn p_identifier(input: &Vec<char>, pos: usize) -> (r: Result<(String, usize), SyntaxError>)
    requires
        pos <= input.len(),
    ensures
        match (r, spec_identifier(input@, pos as int)) {
            (Ok((word, end)), Ok((m, n))) => word@ == m && end == pos + n && end <= input.len(),
            (Err(e), Err(f)) => e == f,
            _ => false,
        },
{
    let end = word_end(input, pos);
    if end == pos || is_reserved(input, pos, end) {
        Err(SyntaxError { offset: pos, expected: Expected::Identifier })
    } else {
        Ok((slice_to_string(input, pos, end), end))
    }
}

/// End of the digit run that starts at `pos`; `pos` itself where none starts.
pub fn digits_end(input: &Vec<char>, pos: usize) -> (end: usize)
    requires
        pos <= input.len(),
    ensures
        end == pos + digits_len(input@, pos as int),
        pos <= end <= input.len(),
{
    if pos < input.len() && is_digit_char(input[pos]) {
        scan(input, pos, CharClass::DigitOrUnderscore)
    } else {
        pos
    }
}

/// The first digits of a run stand for no more than the whole run.
pub proof fn lemma_decimal_value_grows(digits: Seq<char>, k: int)
    requires
        0 <= k <= digits.len(),
    ensures
        decimal_value(digits.subrange(0, k)) <= decimal_value(digits),
    decreases digits.len(),
{
    if k == digits.len() {
        assert(digits.subrange(0, k) =~= digits);
    } else {
        lemma_decimal_value_grows(digits.drop_last(), k);
        assert(digits.drop_last().subrange(0, k) =~= digits.subrange(0, k));
    }
}

/// The number that a digit stands for.
pub fn digit_of(c: char) -> (d: u64)
    requires
        is_digit(c),
    ensures
        d == digit_value(c),
        d <= 9,
{
    (c as u32 - '0' as u32) as u64
}

/// The value of the digit run from `from` up to `to`, where it fits in `i32`.
pub fn decimal_of(input: &Vec<char>, from: usize, to: usize) -> (r: Option<i32>)
    requires
        from <= to <= input.len(),
        forall|i: int| from <= i < to ==> in_run(#[trigger] input@[i]),
    ensures
        match r {
            Some(v) => v == decimal_value(input@.subrange(from as int, to as int)),
            None => decimal_value(input@.subrange(from as int, to as int)) > i32::MAX,
        },
{
    let ghost digits = input@.subrange(from as int, to as int);
    let mut value: u64 = 0;
    let mut i: usize = from;
    while i < to
        invariant
            from <= i <= to <= input.len(),
            digits == input@.subrange(from as int, to as int),
            forall|i: int| from <= i < to ==> in_run(#[trigger] input@[i]),
            value == decimal_value(digits.subrange(0, i - from)),
            value <= i32::MAX,
        decreases to - i,
    {
        let c = input[i];
        proof {
            assert(in_run(input@[i as int]));
            assert(digits.subrange(0, i + 1 - from).drop_last() =~= digits.subrange(
                0,
                i - from,
            ));
            assert(digits.subrange(0, i + 1 - from).last() == c);
        }
        if c != '_' {
            value = value * 10 + digit_of(c);
            if value > 2147483647 {
                proof {
                    lemma_decimal_value_grows(digits, i + 1 - from);
                }
                return None;
            }
        }
        i += 1;
    }
    assert(digits.subrange(0, to - from) =~= digits);
    Some(value as i32)
}

/// Whether a character can stand in a digit run: a digit or `_`.
pub open spec fn in_run(c: char) -> bool {
    is_digit(c) || c == '_'
}

/// The integer literal at `pos`, and where it ends.
pub fn p_integer_decimal(input: &Vec<char>, pos: usize) -> (r: Result<(i32, usize), SyntaxError>)
    requires
        pos <= input.len(),
    ensures
        match (r, spec_integer_decimal(input@, pos as int)) {
            (Ok((v, end)), Ok((m, n))) => v == m && end == pos + n && end <= input.len(),
            (Err(e), Err(f)) => e == f,
            _ => false,
        },
{
    let end = digits_end(input, pos);
    if end == pos {
        return Err(SyntaxError { offset: pos, expected: Expected::Digit });
    }
    proof {
        lemma_run(input@, pos as int, CharClass::DigitOrUnderscore);
    }
    match decimal_of(input, pos, end) {
        Some(v) => Ok((v, end)),
        None => Err(SyntaxError { offset: pos, expected: Expected::IntegerInRange }),
    }
}

/// End of the exponent that starts at `pos`; `pos` itself where none starts.
pub fn exponent_end(input: &Vec<char>, pos: usize) -> (end: usize)
    requires
        pos <= input.len(),
    ensures
        end == pos + exponent_len(input@, pos as int),
        pos <= end <= input.len(),
{
    if is_at(input, pos, 'e') || is_at(input, pos, 'E') {
        let digits = if is_at(input, pos + 1, '+') || is_at(input, pos + 1, '-') {
            pos + 2
        } else {
            pos + 1
        };
        let end = digits_end(input, digits);
        if end > digits {
            end
        } else {
            pos
        }
    } else {
        pos
    }
}

/// End of the float literal that starts at `pos`; `pos` itself where none
/// starts.
pub fn float_end(input: &Vec<char>, pos: usize) -> (end: usize)
    requires
        pos <= input.len(),
    ensures
        end == pos + float_len(input@, pos as int),
        pos <= end <= input.len(),
{
    if is_at(input, pos, '.') {
        let fraction = digits_end(input, pos + 1);
        if fraction > pos + 1 {
            exponent_end(input, fraction)
        } else {
            pos
        }
    } else {
        let whole = digits_end(input, pos);
        if whole == pos {
            pos
        } else if is_at(input, whole, '.') {
            let fraction = digits_end(input, whole + 1);
            if fraction > whole + 1 {
                exponent_end(input, fraction)
            } else {
                whole + 1
            }
        } else {
            let end = exponent_end(input, whole);
            if end > whole {
                end
            } else {
                pos
            }
        }
    }
}

/// The characters from `from` up to `to` without the `_` among them.
pub fn literal_text(input: &Vec<char>, from: usize, to: usize) -> (r: String)
    requires
        from <= to <= input.len(),
    ensures
        r@ == without_underscores(input@.subrange(from as int, to as int)),
{
    let mut out = String::new();
    let mut i: usize = from;
    while i < to
        invariant
            from <= i <= to <= input.len(),
            out@ == without_underscores(input@.subrange(from as int, i as int)),
        decreases to - i,
    {
        let c = input[i];
        proof {
            assert(input@.subrange(from as int, i + 1).drop_last() =~= input@.subrange(
                from as int,
                i as int,
            ));
        }
        if c != '_' {
            out.push(c);
        }
        i += 1;
    }
    out
}

/// The float literal at `pos`, as its text without separators, and where it
/// ends.
pub fn p_float(input: &Vec<char>, pos: usize) -> (r: Result<(String, usize), SyntaxError>)
    requires
        pos <= input.len(),
    ensures
        match (r, spec_float(input@, pos as int)) {
            (Ok((text, end)), Ok((m, n))) => text@ == m && end == pos + n && end <= input.len(),
            (Err(e), Err(f)) => e == f,
            _ => false,
        },
{
    let end = float_end(input, pos);
    if end == pos {
        Err(SyntaxError { offset: pos, expected: Expected::Digit })
    } else {
        Ok((literal_text(input, pos, end), end))
    }
}

/// The number that ends at `end`, with the unit that follows it, if one does.
pub fn attach_unit(input: &Vec<char>, start: usize, end: usize, number: Expression) -> (r: (
    Expression,
    usize,
))
    requires
        start <= end <= input.len(),
    ensures
        r.0@ == with_unit(input@, end as int, number@, (end - start) as nat).0,
        r.1 == start + with_unit(input@, end as int, number@, (end - start) as nat).1,
        end <= r.1 <= input.len(),
{
    let unit_start = scan(input, end, CharClass::InlineSpace);
    if unit_start == end {
        return (number, end);
    }
    match p_identifier(input, unit_start) {
        Ok((unit, unit_end)) => (Expression::Unit(Box::new(number), unit), unit_end),
        Err(_) => (number, end),
    }
}

/// The symbol at `pos`, and where it ends.
pub fn p_symbol(input: &Vec<char>, pos: usize) -> (r: Result<(Symbol, usize), SyntaxError>)
    requires
        pos <= input.len(),
    ensures
        match (r, spec_symbol(input@, pos as int)) {
            (Ok((symbol, end)), Ok((m, n))) => symbol@ == m && end == pos + n && end
                <= input.len(),
            (Err(e), Err(f)) => e == f,
            _ => false,
        },
{
    match p_identifier(input, pos) {
        Ok((word, end)) => {
            let mut path: Vec<String> = Vec::new();
            path.push(word);
            let end = symbol_rest(input, end, &mut path);
            Ok((Symbol { path }, end))
        },
        Err(e) => Err(e),
    }
}

/// Appends to `path` the segments that follow at `pos`, each behind a `.`.
pub fn symbol_rest(input: &Vec<char>, pos: usize, path: &mut Vec<String>) -> (end: usize)
    requires
        pos <= input.len(),
    ensures
        strings_view(final(path)@) == strings_view(old(path)@) + spec_symbol_rest(
            input@,
            pos as int,
        ).0,
        end == pos + spec_symbol_rest(input@, pos as int).1,
        pos <= end <= input.len(),
{
    let mut cur: usize = pos;
    let ghost mut done: Seq<Seq<char>> = Seq::empty();
    proof {
        assert(strings_view(path@) + done =~= strings_view(path@));
    }
    loop
        invariant
            pos <= cur <= input.len(),
            strings_view(path@) == strings_view(old(path)@) + done,
            spec_symbol_rest(input@, pos as int).0 == done + spec_symbol_rest(
                input@,
                cur as int,
            ).0,
            pos + spec_symbol_rest(input@, pos as int).1 == cur + spec_symbol_rest(
                input@,
                cur as int,
            ).1,
        ensures
            pos <= cur <= input.len(),
            strings_view(path@) == strings_view(old(path)@) + spec_symbol_rest(
                input@,
                pos as int,
            ).0,
            cur == pos + spec_symbol_rest(input@, pos as int).1,
        decreases input.len() - cur,
    {
        if !is_at(input, cur, '.') {
            assert(done + Seq::<Seq<char>>::empty() =~= done);
            break;
        }
        match p_identifier(input, cur + 1) {
            Ok((word, end)) => {
                proof {
                    let rest = spec_symbol_rest(input@, end as int).0;
                    assert(done + (seq![word@] + rest) =~= done.push(word@) + rest);
                    lemma_strings_push(path@, word);
                    assert((strings_view(old(path)@) + done).push(word@) =~= strings_view(
                        old(path)@,
                    ) + done.push(word@));
                    done = done.push(word@);
                }
                path.push(word);
                cur = end;
            },
            Err(_) => {
                assert(done + Seq::<Seq<char>>::empty() =~= done);
                break;
            },
        }
    }
    cur
}

/// The expression at `pos`, and where it ends.
pub fn p_expression(input: &Vec<char>, pos: usize) -> (r: Result<
    (Expression, usize),
    SyntaxError,
>)
    requires
        pos <= input.len(),
    ensures
        match (r, spec_expression(input@, pos as int)) {
            (Ok((e, end)), Ok((m, n))) => e@ == m && end == pos + n && end <= input.len(),
            (Err(e), Err(f)) => e == f,
            _ => false,
        },
    decreases input.len() - pos, 1nat,
{
    let float = float_end(input, pos);
    if float > pos {
        let number = Expression::Float(literal_text(input, pos, float));
        return Ok(attach_unit(input, pos, float, number));
    }
    let digits = digits_end(input, pos);
    if digits > pos {
        return match p_integer_decimal(input, pos) {
            Ok((value, _)) => Ok(attach_unit(input, pos, digits, Expression::Int(value))),
            Err(e) => Err(e),
        };
    }
    if is_at(input, pos, '"') {
        return match p_string(input, pos) {
            Ok((parts, end)) => Ok((Expression::Text(parts), end)),
            Err(e) => Err(e),
        };
    }
    let word = word_end(input, pos);
    if word == pos || is_reserved(input, pos, word) {
        return Err(SyntaxError { offset: pos, expected: Expected::Expression });
    }
    if word_is(input, pos, word, "true") || word_is(input, pos, word, "yes") || word_is(
        input,
        pos,
        word,
        "on",
    ) {
        return Ok((Expression::Boolean(true), word));
    }
    if word_is(input, pos, word, "false") || word_is(input, pos, word, "no") || word_is(
        input,
        pos,
        word,
        "off",
    ) {
        return Ok((Expression::Boolean(false), word));
    }
    let name = slice_to_string(input, pos, word);
    if is_at(input, word, '(') {
        return match p_call_args(input, word + 1) {
            Ok((args, end)) => Ok((Expression::Call { name, args }, end)),
            Err(e) => Err(e),
        };
    }
    let mut path: Vec<String> = Vec::new();
    path.push(name);
    let end = symbol_rest(input, word, &mut path);
    proof {
        assert(strings_view(path@) =~= seq![name@] + spec_symbol_rest(input@, word as int).0);
    }
    Ok((Expression::Symbol(Symbol { path }), end))
}

/// A string literal at `pos`: its parts, and where it ends.
pub fn p_string(input: &Vec<char>, pos: usize) -> (r: Result<(Vec<TextPart>, usize), SyntaxError>)
    requires
        pos <= input.len(),
    ensures
        match (r, spec_string(input@, pos as int)) {
            (Ok((parts, end)), Ok((m, n))) => text_parts_model(parts@) == m && end == pos + n
                && end <= input.len(),
            (Err(e), Err(f)) => e == f,
            _ => false,
        },
    decreases input.len() - pos, 0nat,
{
    if !is_at(input, pos, '"') {
        return Err(SyntaxError { offset: pos, expected: Expected::ClosingQuote });
    }
    match p_text_parts(input, pos + 1, CharClass::StringText) {
        Ok((parts, end)) => {
            if parts.len() == 0 {
                Err(SyntaxError { offset: pos + 1, expected: Expected::Text })
            } else if is_at(input, end, '"') {
                Ok((parts, end + 1))
            } else {
                Err(SyntaxError { offset: end, expected: Expected::ClosingQuote })
            }
        },
        Err(e) => Err(e),
    }
}

/// The part of a text at `pos`: a fragment of characters of `class`, or an
/// expression in braces; and where it ends.
pub fn p_text_part(input: &Vec<char>, pos: usize, class: CharClass) -> (r: Result<
    (TextPart, usize),
    SyntaxError,
>)
    requires
        pos <= input.len(),
    ensures
        match (r, spec_text_part(input@, pos as int, class)) {
            (Ok((part, end)), Ok((m, n))) => part@ == m && end == pos + n && pos < end
                <= input.len(),
            (Err(e), Err(f)) => e == f,
            _ => false,
        },
    decreases input.len() - pos, 2nat,
{
    if is_at_class(input, pos, class) {
        let end = scan(input, pos, class);
        Ok((TextPart::Text(slice_to_string(input, pos, end)), end))
    } else if is_at(input, pos, '{') {
        let start = scan(input, pos + 1, CharClass::Space);
        match p_expression(input, start) {
            Ok((e, end)) => {
                let close = scan(input, end, CharClass::Space);
                if is_at(input, close, '}') {
                    Ok((TextPart::Expression(e), close + 1))
                } else {
                    Err(SyntaxError { offset: close, expected: Expected::ClosingBrace })
                }
            },
            Err(e) => Err(e),
        }
    } else {
        Err(SyntaxError { offset: pos, expected: Expected::Text })
    }
}

/// A text is its first part and the text behind it.
pub proof fn lemma_text_parts_step(s: Seq<char>, pos: int, class: CharClass)
    ensures
        spec_text_parts(s, pos, class) == (if at_class(s, pos, class) || at(s, pos, '{') {
            match spec_text_part(s, pos, class) {
                Ok((part, n)) => after(seq![part], n, spec_text_parts(s, pos + n, class)),
                Err(e) => Err(e),
            }
        } else {
            Ok((Seq::empty(), 0))
        }),
{
}

/// The text that starts at `pos`: its parts, none where no text starts, and
/// where it ends.
pub fn p_text_parts(input: &Vec<char>, pos: usize, class: CharClass) -> (r: Result<
    (Vec<TextPart>, usize),
    SyntaxError,
>)
    requires
        pos <= input.len(),
    ensures
        match (r, spec_text_parts(input@, pos as int, class)) {
            (Ok((parts, end)), Ok((m, n))) => text_parts_model(parts@) == m && end == pos + n
                && end <= input.len(),
            (Err(e), Err(f)) => e == f,
            _ => false,
        },
    decreases input.len() - pos, 3nat,
{
    let mut parts: Vec<TextPart> = Vec::new();
    let mut cur: usize = pos;
    proof {
        lemma_after_nothing(spec_text_parts(input@, pos as int, class));
        assert(text_parts_model(parts@) =~= Seq::empty());
    }
    while is_at_class(input, cur, class) || is_at(input, cur, '{')
        invariant
            pos <= cur <= input.len(),
            spec_text_parts(input@, pos as int, class) == after(
                text_parts_model(parts@),
                (cur - pos) as nat,
                spec_text_parts(input@, cur as int, class),
            ),
        decreases input.len() - cur,
    {
        proof {
            lemma_text_parts_step(input@, cur as int, class);
        }
        match p_text_part(input, cur, class) {
            Ok((part, end)) => {
                proof {
                    lemma_text_parts_push(parts@, part);
                    lemma_after_one(
                        text_parts_model(parts@),
                        (cur - pos) as nat,
                        part@,
                        (end - cur) as nat,
                        spec_text_parts(input@, end as int, class),
                    );
                }
                parts.push(part);
                cur = end;
            },
            Err(e) => {
                return Err(e);
            },
        }
    }
    proof {
        lemma_text_parts_step(input@, cur as int, class);
        lemma_after_end(text_parts_model(parts@), (cur - pos) as nat, 0);
    }
    Ok((parts, cur))
}

/// The arguments of a call are the first of them and those behind it.
pub proof fn lemma_call_args_step(s: Seq<char>, pos: int, first: bool)
    ensures
        spec_call_args(s, pos, first) == ({
            let w = run(s, pos, CharClass::Space);
            if first && at(s, pos + w, ')') {
                Ok((Seq::empty(), w + 1))
            } else {
                match spec_expression(s, pos + w) {
                    Ok((arg, n)) => {
                        let end = w + n + run(s, pos + w + n, CharClass::Space);
                        if at(s, pos + end, ',') {
                            after(seq![arg], end + 1, spec_call_args(s, pos + end + 1, false))
                        } else if at(s, pos + end, ')') {
                            Ok((seq![arg], end + 1))
                        } else {
                            fail(pos + end, Expected::ClosingParen)
                        }
                    },
                    Err(e) => Err(e),
                }
            }
        }),
{
}

/// The arguments of a call, from behind its `(` at `pos` up to its `)`.
pub fn p_call_args(input: &Vec<char>, pos: usize) -> (r: Result<
    (Vec<Expression>, usize),
    SyntaxError,
>)
    requires
        pos <= input.len(),
    ensures
        match (r, spec_call_args(input@, pos as int, true)) {
            (Ok((args, end)), Ok((m, n))) => expressions_model(args@) == m && end == pos + n
                && end <= input.len(),
            (Err(e), Err(f)) => e == f,
            _ => false,
        },
    decreases input.len() - pos, 3nat,
{
    let mut args: Vec<Expression> = Vec::new();
    let mut cur: usize = pos;
    let mut first = true;
    proof {
        lemma_after_nothing(spec_call_args(input@, pos as int, true));
        assert(expressions_model(args@) =~= Seq::empty());
    }
    loop
        invariant
            pos <= cur <= input.len(),
            spec_call_args(input@, pos as int, true) == after(
                expressions_model(args@),
                (cur - pos) as nat,
                spec_call_args(input@, cur as int, first),
            ),
        decreases input.len() - cur,
    {
        proof {
            lemma_call_args_step(input@, cur as int, first);
        }
        let start = scan(input, cur, CharClass::Space);
        if first && is_at(input, start, ')') {
            proof {
                lemma_after_end(
                    expressions_model(args@),
                    (cur - pos) as nat,
                    (start + 1 - cur) as nat,
                );
            }
            return Ok((args, start + 1));
        }
        match p_expression(input, start) {
            Ok((arg, end)) => {
                let next = scan(input, end, CharClass::Space);
                proof {
                    lemma_expressions_push(args@, arg);
                }
                if is_at(input, next, ',') {
                    proof {
                        lemma_after_one(
                            expressions_model(args@),
                            (cur - pos) as nat,
                            arg@,
                            (next + 1 - cur) as nat,
                            spec_call_args(input@, next + 1, false),
                        );
                    }
                    args.push(arg);
                    cur = next + 1;
                    first = false;
                } else if is_at(input, next, ')') {
                    proof {
                        assert(expressions_model(args@) + seq![arg@] =~= expressions_model(
                            args@,
                        ).push(arg@));
                    }
                    args.push(arg);
                    return Ok((args, next + 1));
                } else {
                    return Err(SyntaxError { offset: next, expected: Expected::ClosingParen });
                }
            },
            Err(e) => {
                return Err(e);
            },
        }
    }
}

} // verus!
