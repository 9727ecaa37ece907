use vstd::prelude::*;
use crate::decimal::{digits_of, lemma_digits_of};
use crate::parser::ast::{ExpressionModel, TextPartModel};
use crate::parser::error::SyntaxError;
use crate::parser::grammar::{is_keyword, spec_expression, spec_symbol_rest, with_unit};
use crate::parser::scan::{at, at_class, in_class, is_digit, CharClass};
use crate::roundtrip::shape::{
    ends_value, is_identifier, is_number, is_word, printable_expression, printable_text,
    starts_value,
};
use crate::roundtrip::steps::{
    lemma_args_last, lemma_args_more, lemma_args_none, lemma_call_step, lemma_string_step,
    lemma_text_end, lemma_text_expression, lemma_text_fragment, reads_args, reads_expression,
    reads_text,
};
use crate::roundtrip::text::{
    before, holds, laid, lemma_concat2, lemma_concat3, lemma_concat4, lemma_holds_char,
    lemma_holds_item, lemma_holds_split, lemma_holds_then, lemma_joined_at, lemma_layout_all_at,
    lemma_line_break, start, then,
};
use crate::roundtrip::tokens::{
    extends_number, lemma_float_head, lemma_identifier, lemma_int_head, lemma_no_unit, lemma_unit,
    lemma_word,
};
use crate::unparser::{
    comma_line, joined, spec_print_expression, spec_print_expressions, spec_print_text_part,
    spec_print_text_parts, spec_print_words,
};
use crate::unparser::doc::{fits, layout, layout_all, DocModel};

verus! {

/// The text of a number as it prints.
pub open spec fn number_text(e: ExpressionModel) -> Seq<char> {
    match e {
        ExpressionModel::Int(v) => digits_of(v as nat),
        ExpressionModel::Float(t) => t,
        _ => Seq::empty(),
    }
}

/// A number prints as its text, whatever the layout.
pub proof fn lemma_number_text(e: ExpressionModel, w: nat, i: nat, f: bool, c: nat)
    requires
        is_number(e),
    ensures
        laid(spec_print_expression(e), w, i, f, c) == number_text(e),
        number_text(e).len() > 0,
        is_digit(number_text(e)[0]) || number_text(e)[0] == '.',
{
    match e {
        ExpressionModel::Int(v) => {
            lemma_digits_of(v as nat);
        },
        ExpressionModel::Float(t) => {},
        _ => {},
    }
}

/// Where `s` holds the text of a number and nothing behind it could carry a
/// number on, an expression read there is the number, with the unit that
/// `with_unit` finds behind it.
pub proof fn lemma_number_head(s: Seq<char>, p: int, e: ExpressionModel)
    requires
        is_number(e),
        holds(s, p, number_text(e)),
        !extends_number(s, p + number_text(e).len()),
    ensures
        spec_expression(s, p) == Ok::<(ExpressionModel, nat), SyntaxError>(
            with_unit(s, p + number_text(e).len(), e, number_text(e).len()),
        ),
{
    match e {
        ExpressionModel::Int(v) => {
            lemma_int_head(s, p, v);
        },
        ExpressionModel::Float(t) => {
            lemma_float_head(s, p, t);
        },
        _ => {},
    }
}

/// Where an expression may end, nothing carries a number or a word on, and
/// no call, symbol segment or unit follows.
pub proof fn lemma_ends_value(s: Seq<char>, pos: int)
    requires
        ends_value(s, pos),
    ensures
        !extends_number(s, pos),
        !at_class(s, pos, CharClass::IdentChar),
        !at_class(s, pos, CharClass::InlineSpace),
        !at_class(s, pos, CharClass::Space) || at(s, pos, '\n'),
        !at(s, pos, '('),
        !at(s, pos, '.'),
{
}

/// Where `s` holds a printed number and an expression may end behind it, the
/// grammar reads the number there.
pub proof fn lemma_number(e: ExpressionModel, s: Seq<char>, p: int, w: nat, i: nat, f: bool, c: nat)
    requires
        is_number(e),
        holds(s, p, laid(spec_print_expression(e), w, i, f, c)),
        ends_value(s, p + laid(spec_print_expression(e), w, i, f, c).len()),
    ensures
        reads_expression(s, p, e, laid(spec_print_expression(e), w, i, f, c).len()),
{
    reveal(reads_expression);
    lemma_number_text(e, w, i, f, c);
    let end = p + number_text(e).len();
    lemma_ends_value(s, end);
    lemma_number_head(s, p, e);
    lemma_no_unit(s, end, e, number_text(e).len());
}

/// Where `s` holds a printed number with a unit and an expression may end
/// behind it, the grammar reads the number with its unit there.
pub proof fn lemma_unit_value(
    inner: ExpressionModel,
    unit: Seq<char>,
    s: Seq<char>,
    p: int,
    w: nat,
    i: nat,
    f: bool,
    c: nat,
)
    requires
        is_number(inner),
        is_identifier(unit),
        holds(
            s,
            p,
            laid(spec_print_expression(ExpressionModel::Unit(Box::new(inner), unit)), w, i, f, c),
        ),
        ends_value(
            s,
            p + laid(
                spec_print_expression(ExpressionModel::Unit(Box::new(inner), unit)),
                w,
                i,
                f,
                c,
            ).len(),
        ),
    ensures
        reads_expression(
            s,
            p,
            ExpressionModel::Unit(Box::new(inner), unit),
            laid(
                spec_print_expression(ExpressionModel::Unit(Box::new(inner), unit)),
                w,
                i,
                f,
                c,
            ).len(),
        ),
        laid(
            spec_print_expression(ExpressionModel::Unit(Box::new(inner), unit)),
            w,
            i,
            f,
            c,
        ).len() > 0,
        starts_value(
            laid(
                spec_print_expression(ExpressionModel::Unit(Box::new(inner), unit)),
                w,
                i,
                f,
                c,
            )[0],
        ),
{
    reveal(reads_expression);
    let e = ExpressionModel::Unit(Box::new(inner), unit);
    let a = spec_print_expression(inner);
    let b = DocModel::Text(" "@);
    let d = DocModel::Text(unit);
    reveal_strlit(" ");
    lemma_concat3(a, b, d, w, i, f, c);
    let first = then(start(c), a, w, i, f);
    let second = then(first, b, w, i, f);
    lemma_holds_then(s, p, second, d, w, i, f);
    lemma_holds_then(s, p, first, b, w, i, f);
    lemma_holds_then(s, p, start(c), a, w, i, f);
    lemma_number_text(inner, w, i, f, c);
    let n = number_text(inner).len();
    assert(first.0 =~= number_text(inner));
    lemma_holds_char(s, p + n, " "@, 0);
    lemma_number_head(s, p, inner);
    lemma_ends_value(s, p + n + 1 + unit.len());
    lemma_unit(s, p + n, inner, n, unit);
    assert(then(second, d, w, i, f).0[0] == number_text(inner)[0]);
}

/// Where `s` holds a printed truth literal and an expression may end behind
/// it, the grammar reads the literal there.
pub proof fn lemma_boolean(b: bool, s: Seq<char>, p: int, w: nat, i: nat, f: bool, c: nat)
    requires
        holds(s, p, laid(spec_print_expression(ExpressionModel::Boolean(b)), w, i, f, c)),
        ends_value(s, p + laid(spec_print_expression(ExpressionModel::Boolean(b)), w, i, f, c).len()),
    ensures
        reads_expression(
            s,
            p,
            ExpressionModel::Boolean(b),
            laid(spec_print_expression(ExpressionModel::Boolean(b)), w, i, f, c).len(),
        ),
        laid(spec_print_expression(ExpressionModel::Boolean(b)), w, i, f, c).len() > 0,
        starts_value(laid(spec_print_expression(ExpressionModel::Boolean(b)), w, i, f, c)[0]),
{
    reveal(reads_expression);
    reveal_strlit("true");
    reveal_strlit("false");
    reveal_strlit("yes");
    reveal_strlit("on");
    reveal_strlit("scene");
    reveal_strlit("end");
    reveal_strlit("prompt");
    reveal_strlit("option");
    let t = if b {
        "true"@
    } else {
        "false"@
    };
    lemma_ends_value(s, p + t.len());
    assert(is_word(t));
    lemma_word(s, p, t);
    lemma_holds_char(s, p, t, 0);
    assert(s.subrange(p, p + t.len()) == t);
    assert(!is_keyword(t));
}

/// The documents of a symbol: its segments with `.` between them.
pub open spec fn symbol_items(path: Seq<Seq<char>>) -> Seq<DocModel> {
    joined(spec_print_words(path), DocModel::Text("."@))
}

/// Where `s` holds a printed symbol, the segments from the `k`th on are
/// what the grammar reads behind the segment before them.
pub proof fn lemma_symbol_rest(
    path: Seq<Seq<char>>,
    s: Seq<char>,
    p: int,
    k: int,
    w: nat,
    i: nat,
    f: bool,
    c: nat,
)
    requires
        1 <= k <= path.len(),
        forall|j: int| 0 < j < path.len() ==> is_identifier(#[trigger] path[j]),
        holds(s, p, layout_all(symbol_items(path), w, i, f, c).0),
        !at(s, p + layout_all(symbol_items(path), w, i, f, c).0.len(), '.'),
        !at_class(
            s,
            p + layout_all(symbol_items(path), w, i, f, c).0.len(),
            CharClass::IdentChar,
        ),
    ensures
        before(symbol_items(path), 2 * k - 1, w, i, f, c).0.len() <= layout_all(
            symbol_items(path),
            w,
            i,
            f,
            c,
        ).0.len(),
        spec_symbol_rest(s, p + before(symbol_items(path), 2 * k - 1, w, i, f, c).0.len()) == (
            path.subrange(k, path.len() as int),
            (layout_all(symbol_items(path), w, i, f, c).0.len() - before(
                symbol_items(path),
                2 * k - 1,
                w,
                i,
                f,
                c,
            ).0.len()) as nat,
        ),
    decreases path.len() - k,
{
    let items = symbol_items(path);
    let all = layout_all(items, w, i, f, c).0;
    reveal_strlit(".");
    lemma_joined_at(spec_print_words(path), DocModel::Text("."@));
    if k == path.len() {
        assert(items.subrange(0, 2 * k - 1) =~= items);
        assert(path.subrange(k, path.len() as int) =~= Seq::<Seq<char>>::empty());
    } else {
        let q = p + before(items, 2 * k - 1, w, i, f, c).0.len();
        lemma_holds_item(s, p, items, 2 * k - 1, w, i, f, c);
        lemma_layout_all_at(items, 2 * k - 1, w, i, f, c);
        lemma_holds_item(s, p, items, 2 * k, w, i, f, c);
        lemma_layout_all_at(items, 2 * k, w, i, f, c);
        assert(items[2 * k - 1] == DocModel::Text("."@)) by {
            assert(items[2 * (k - 1) + 1] == DocModel::Text("."@));
        }
        assert(items[2 * k] == DocModel::Text(path[k])) by {
            assert(items[2 * k] == spec_print_words(path)[k]);
        }
        lemma_holds_char(s, q, "."@, 0);
        let word = path[k];
        let next = q + 1 + word.len();
        assert(next == p + before(items, 2 * k + 1, w, i, f, c).0.len());
        lemma_symbol_rest(path, s, p, k + 1, w, i, f, c);
        if k + 1 < path.len() {
            lemma_holds_item(s, p, items, 2 * k + 1, w, i, f, c);
            assert(items[2 * k + 1] == DocModel::Text("."@));
            lemma_holds_char(s, next, "."@, 0);
        } else {
            assert(items.subrange(0, 2 * k + 1) =~= items);
        }
        lemma_identifier(s, q + 1, word);
        assert(seq![word] + path.subrange(k + 1, path.len() as int) =~= path.subrange(
            k,
            path.len() as int,
        ));
    }
}

/// Where `s` holds a printed symbol and an expression may end behind it, the
/// grammar reads the symbol there.
pub proof fn lemma_symbol(
    path: Seq<Seq<char>>,
    s: Seq<char>,
    p: int,
    w: nat,
    i: nat,
    f: bool,
    c: nat,
)
    requires
        printable_expression(ExpressionModel::Symbol(path)),
        holds(s, p, laid(spec_print_expression(ExpressionModel::Symbol(path)), w, i, f, c)),
        ends_value(
            s,
            p + laid(spec_print_expression(ExpressionModel::Symbol(path)), w, i, f, c).len(),
        ),
    ensures
        reads_expression(
            s,
            p,
            ExpressionModel::Symbol(path),
            laid(spec_print_expression(ExpressionModel::Symbol(path)), w, i, f, c).len(),
        ),
        laid(spec_print_expression(ExpressionModel::Symbol(path)), w, i, f, c).len() > 0,
        starts_value(laid(spec_print_expression(ExpressionModel::Symbol(path)), w, i, f, c)[0]),
{
    reveal(reads_expression);
    let items = symbol_items(path);
    let all = layout_all(items, w, i, f, c).0;
    reveal_strlit(".");
    lemma_joined_at(spec_print_words(path), DocModel::Text("."@));
    lemma_ends_value(s, p + all.len());
    lemma_holds_item(s, p, items, 0, w, i, f, c);
    lemma_layout_all_at(items, 0, w, i, f, c);
    assert(items.subrange(0, 0) =~= Seq::<DocModel>::empty());
    assert(items[0] == DocModel::Text(path[0])) by {
        assert(items[2 * 0int] == spec_print_words(path)[0]);
    }
    let word = path[0];
    assert(before(items, 1, w, i, f, c).0 =~= word);
    lemma_symbol_rest(path, s, p, 1, w, i, f, c);
    if 1 < path.len() {
        lemma_holds_item(s, p, items, 1, w, i, f, c);
        assert(items[1] == DocModel::Text("."@)) by {
            assert(items[2 * 0int + 1] == DocModel::Text("."@));
        }
        lemma_holds_char(s, p + word.len(), "."@, 0);
    } else {
        assert(items.subrange(0, 1) =~= items);
    }
    lemma_word(s, p, word);
    lemma_holds_char(s, p, word, 0);
    assert(s.subrange(p, p + word.len()) == word);
    assert(all[0] == word[0]) by {
        assert(all.subrange(0, word.len() as int)[0] == word[0]);
    }
    assert(seq![word] + path.subrange(1, path.len() as int) =~= path);
}

/// The documents of the arguments of a call, with their separators.
pub open spec fn argument_items(args: Seq<ExpressionModel>) -> Seq<DocModel> {
    joined(spec_print_expressions(args), comma_line())
}

/// Where the arguments from the `k`th on start in a printed call: behind
/// the `(`, or behind the `,` before them.
pub open spec fn argument_start(
    args: Seq<ExpressionModel>,
    p: int,
    k: int,
    w: nat,
    i: nat,
    f: bool,
    c: nat,
) -> int {
    if k == 0 {
        p
    } else {
        p + before(argument_items(args), 2 * k - 1, w, i, f, c).0.len() + 1
    }
}

/// Where `s` holds a printed expression and an expression may end behind
/// it, the grammar reads the expression there, and all of its text.
pub proof fn lemma_expression(
    e: ExpressionModel,
    s: Seq<char>,
    p: int,
    w: nat,
    i: nat,
    f: bool,
    c: nat,
)
    requires
        printable_expression(e),
        holds(s, p, laid(spec_print_expression(e), w, i, f, c)),
        ends_value(s, p + laid(spec_print_expression(e), w, i, f, c).len()),
    ensures
        reads_expression(s, p, e, laid(spec_print_expression(e), w, i, f, c).len()),
        laid(spec_print_expression(e), w, i, f, c).len() > 0,
        starts_value(laid(spec_print_expression(e), w, i, f, c)[0]),
    decreases e, 0nat,
{
    match e {
        ExpressionModel::Call { name, args } => {
            lemma_call(name, args, s, p, w, i, f, c);
        },
        ExpressionModel::Unit(inner, unit) => {
            lemma_unit_value(*inner, unit, s, p, w, i, f, c);
        },
        ExpressionModel::Int(_) => {
            lemma_number(e, s, p, w, i, f, c);
            lemma_number_text(e, w, i, f, c);
        },
        ExpressionModel::Float(_) => {
            lemma_number(e, s, p, w, i, f, c);
            lemma_number_text(e, w, i, f, c);
        },
        ExpressionModel::Boolean(b) => {
            lemma_boolean(b, s, p, w, i, f, c);
        },
        ExpressionModel::Text(parts) => {
            lemma_string(parts, s, p, w, i, f, c);
        },
        ExpressionModel::Symbol(path) => {
            lemma_symbol(path, s, p, w, i, f, c);
        },
    }
}

/// Where `s` holds a printed string literal and an expression may end behind
/// it, the grammar reads the literal there.
pub proof fn lemma_string(
    parts: Seq<TextPartModel>,
    s: Seq<char>,
    p: int,
    w: nat,
    i: nat,
    f: bool,
    c: nat,
)
    requires
        printable_expression(ExpressionModel::Text(parts)),
        holds(s, p, laid(spec_print_expression(ExpressionModel::Text(parts)), w, i, f, c)),
        ends_value(
            s,
            p + laid(spec_print_expression(ExpressionModel::Text(parts)), w, i, f, c).len(),
        ),
    ensures
        reads_expression(
            s,
            p,
            ExpressionModel::Text(parts),
            laid(spec_print_expression(ExpressionModel::Text(parts)), w, i, f, c).len(),
        ),
        laid(spec_print_expression(ExpressionModel::Text(parts)), w, i, f, c).len() > 0,
        starts_value(laid(spec_print_expression(ExpressionModel::Text(parts)), w, i, f, c)[0]),
    decreases parts, parts.len() + 1,
{
    let quote = DocModel::Text("\""@);
    let inner = DocModel::Concat(spec_print_text_parts(parts));
    reveal_strlit("\"");
    lemma_concat3(quote, inner, quote, w, i, f, c);
    let first = then(start(c), quote, w, i, f);
    let second = then(first, inner, w, i, f);
    lemma_holds_then(s, p, second, quote, w, i, f);
    lemma_holds_then(s, p, first, inner, w, i, f);
    lemma_holds_then(s, p, start(c), quote, w, i, f);
    assert(first.0 =~= "\""@);
    let text = layout_all(spec_print_text_parts(parts), w, i, f, first.1).0;
    lemma_holds_char(s, p, "\""@, 0);
    lemma_holds_char(s, p + 1 + text.len(), "\""@, 0);
    assert(spec_print_text_parts(parts).subrange(0, 0) =~= Seq::<DocModel>::empty());
    lemma_text_from(parts, CharClass::StringText, s, p + 1, 0, w, i, f, first.1);
    assert(parts.subrange(0, parts.len() as int) =~= parts);
    assert(then(second, quote, w, i, f).0[0] == '"');
    lemma_string_step(s, p, parts, text.len());
}

/// An expression in a text prints as `{`, the expression, `}`.
pub proof fn lemma_braced_layout(e: ExpressionModel, w: nat, i: nat, f: bool, c: nat)
    ensures
        laid(spec_print_text_part(TextPartModel::Expression(e)), w, i, f, c) == seq!['{'] + laid(
            spec_print_expression(e),
            w,
            i,
            f,
            c + 1,
        ) + seq!['}'],
{
    let open = DocModel::Text("{"@);
    let close = DocModel::Text("}"@);
    let value = spec_print_expression(e);
    reveal_strlit("{");
    reveal_strlit("}");
    lemma_concat3(open, value, close, w, i, f, c);
    assert("{"@ =~= seq!['{']);
    assert("}"@ =~= seq!['}']);
    assert(Seq::<char>::empty() + "{"@ =~= seq!['{']);
}

/// How the printed form of a part of a text starts: with the first
/// character of a fragment, or with the `{` of an expression.
pub proof fn lemma_part_first(part: TextPartModel, w: nat, i: nat, f: bool, c: nat)
    requires
        part matches TextPartModel::Text(t) ==> t.len() > 0,
    ensures
        laid(spec_print_text_part(part), w, i, f, c).len() > 0,
        match part {
            TextPartModel::Text(t) => laid(spec_print_text_part(part), w, i, f, c) == t,
            TextPartModel::Expression(_) => laid(spec_print_text_part(part), w, i, f, c)[0]
                == '{',
        },
{
    match part {
        TextPartModel::Text(t) => {},
        TextPartModel::Expression(e) => {
            lemma_braced_layout(e, w, i, f, c);
        },
    }
}

/// Where `s` holds a printed text and neither a fragment nor an expression
/// can go on behind it, the parts from the `k`th on are what the grammar
/// reads where they start.
pub proof fn lemma_text_from(
    parts: Seq<TextPartModel>,
    class: CharClass,
    s: Seq<char>,
    p: int,
    k: int,
    w: nat,
    i: nat,
    f: bool,
    c: nat,
)
    requires
        printable_text(parts, class),
        class == CharClass::StringText || class == CharClass::LineText,
        0 <= k <= parts.len(),
        holds(s, p, layout_all(spec_print_text_parts(parts), w, i, f, c).0),
        !at_class(s, p + layout_all(spec_print_text_parts(parts), w, i, f, c).0.len(), class),
        !at(s, p + layout_all(spec_print_text_parts(parts), w, i, f, c).0.len(), '{'),
    ensures
        before(spec_print_text_parts(parts), k, w, i, f, c).0.len() <= layout_all(
            spec_print_text_parts(parts),
            w,
            i,
            f,
            c,
        ).0.len(),
        reads_text(
            s,
            p + before(spec_print_text_parts(parts), k, w, i, f, c).0.len(),
            class,
            parts.subrange(k, parts.len() as int),
            (layout_all(spec_print_text_parts(parts), w, i, f, c).0.len() - before(
                spec_print_text_parts(parts),
                k,
                w,
                i,
                f,
                c,
            ).0.len()) as nat,
        ),
    decreases parts, parts.len() - k,
{
    let items = spec_print_text_parts(parts);
    let all = layout_all(items, w, i, f, c).0;
    if k == parts.len() {
        assert(items.subrange(0, k) =~= items);
        assert(parts.subrange(k, parts.len() as int) =~= Seq::<TextPartModel>::empty());
        lemma_text_end(s, p + all.len(), class);
    } else {
        let here = before(items, k, w, i, f, c);
        let q = p + here.0.len();
        lemma_holds_item(s, p, items, k, w, i, f, c);
        lemma_layout_all_at(items, k, w, i, f, c);
        let own = laid(items[k], w, i, f, here.1);
        let next = q + own.len();
        lemma_text_from(parts, class, s, p, k + 1, w, i, f, c);
        let rest = parts.subrange(k + 1, parts.len() as int);
        let n = (all.len() - before(items, k + 1, w, i, f, c).0.len()) as nat;
        assert(seq![parts[k]] + rest =~= parts.subrange(k, parts.len() as int));
        if k + 1 < parts.len() {
            lemma_holds_item(s, p, items, k + 1, w, i, f, c);
            let col = before(items, k + 1, w, i, f, c).1;
            lemma_part_first(parts[k + 1], w, i, f, col);
            lemma_holds_char(s, next, laid(items[k + 1], w, i, f, col), 0);
        } else {
            assert(items.subrange(0, k + 1) =~= items);
        }
        match parts[k] {
            TextPartModel::Text(t) => {
                if k + 1 < parts.len() {
                    assert(parts[k + 1] is Expression);
                }
                lemma_text_fragment(s, q, t, class, rest, n);
            },
            TextPartModel::Expression(e) => {
                lemma_braced_layout(e, w, i, f, here.1);
                let text = laid(spec_print_expression(e), w, i, f, here.1 + 1);
                lemma_holds_split(s, q, seq!['{'] + text, seq!['}']);
                lemma_holds_split(s, q, seq!['{'], text);
                lemma_holds_char(s, q, seq!['{'], 0);
                lemma_holds_char(s, q + 1 + text.len(), seq!['}'], 0);
                lemma_expression(e, s, q + 1, w, i, f, here.1 + 1);
                lemma_holds_char(s, q + 1, text, 0);
                lemma_text_expression(s, q, e, text.len(), class, rest, n);
            },
        }
    }
}

/// Where `s` holds a printed call and an expression may end behind it, the
/// grammar reads the call there.
pub proof fn lemma_call(
    name: Seq<char>,
    args: Seq<ExpressionModel>,
    s: Seq<char>,
    p: int,
    w: nat,
    i: nat,
    f: bool,
    c: nat,
)
    requires
        printable_expression(ExpressionModel::Call { name, args }),
        holds(s, p, laid(spec_print_expression(ExpressionModel::Call { name, args }), w, i, f, c)),
        ends_value(
            s,
            p + laid(
                spec_print_expression(ExpressionModel::Call { name, args }),
                w,
                i,
                f,
                c,
            ).len(),
        ),
    ensures
        reads_expression(
            s,
            p,
            ExpressionModel::Call { name, args },
            laid(spec_print_expression(ExpressionModel::Call { name, args }), w, i, f, c).len(),
        ),
        laid(spec_print_expression(ExpressionModel::Call { name, args }), w, i, f, c).len() > 0,
        starts_value(
            laid(spec_print_expression(ExpressionModel::Call { name, args }), w, i, f, c)[0],
        ),
    decreases args, args.len() + 1,
{
    let items = argument_items(args);
    let a = DocModel::Text(name);
    let b = DocModel::Text("("@);
    let g = DocModel::Group(Box::new(DocModel::Concat(items)));
    let d = DocModel::Text(")"@);
    reveal_strlit("(");
    reveal_strlit(")");
    lemma_concat4(a, b, g, d, w, i, f, c);
    let first = then(start(c), a, w, i, f);
    let second = then(first, b, w, i, f);
    let third = then(second, g, w, i, f);
    lemma_holds_then(s, p, third, d, w, i, f);
    lemma_holds_then(s, p, second, g, w, i, f);
    lemma_holds_then(s, p, first, b, w, i, f);
    lemma_holds_then(s, p, start(c), a, w, i, f);
    assert(first.0 =~= name);
    let flat = f || fits(DocModel::Concat(items), w, second.1);
    let text = layout_all(items, w, i, flat, second.1).0;
    assert(layout(DocModel::Concat(items), w, i, flat, second.1).0 == text);
    assert(laid(g, w, i, f, second.1) == text);
    let open = p + name.len();
    let inside = open + 1;
    lemma_holds_char(s, open, "("@, 0);
    lemma_holds_char(s, inside + text.len(), ")"@, 0);
    assert(then(third, d, w, i, f).0[0] == name[0]);
    if args.len() == 0 {
        assert(spec_print_expressions(args) =~= Seq::<DocModel>::empty());
        assert(text =~= Seq::<char>::empty());
        assert(args =~= Seq::<ExpressionModel>::empty());
        lemma_args_none(s, inside);
    } else {
        lemma_args_from(args, s, inside, 0, w, i, flat, second.1);
        assert(args.subrange(0, args.len() as int) =~= args);
    }
    lemma_call_step(s, p, name, args, text.len() + 1);
}

/// The separator of arguments prints as a comma and white space.
pub proof fn lemma_comma_line(w: nat, i: nat, f: bool, c: nat)
    ensures
        laid(comma_line(), w, i, f, c).len() >= 2,
        laid(comma_line(), w, i, f, c)[0] == ',',
        forall|j: int|
            1 <= j < laid(comma_line(), w, i, f, c).len() ==> in_class(
                CharClass::Space,
                #[trigger] laid(comma_line(), w, i, f, c)[j],
            ),
{
    reveal_strlit(",");
    lemma_concat2(DocModel::Text(","@), DocModel::Line, w, i, f, c);
    lemma_line_break(i);
    let comma = then(start(c), DocModel::Text(","@), w, i, f);
    assert(comma.0 =~= ","@);
    let space = laid(DocModel::Line, w, i, f, comma.1);
    let all = laid(comma_line(), w, i, f, c);
    assert(all == comma.0 + space);
    assert forall|j: int| 1 <= j < all.len() implies in_class(
        CharClass::Space,
        #[trigger] all[j],
    ) by {
        assert(all[j] == space[j - 1]);
    }
}

/// Where `s` holds the printed arguments of a call and its `)` behind
/// them, the arguments from the `k`th on are what the grammar reads where
/// they start.
pub proof fn lemma_args_from(
    args: Seq<ExpressionModel>,
    s: Seq<char>,
    p: int,
    k: int,
    w: nat,
    i: nat,
    f: bool,
    c: nat,
)
    requires
        forall|j: int| 0 <= j < args.len() ==> printable_expression(#[trigger] args[j]),
        0 <= k < args.len(),
        holds(s, p, layout_all(argument_items(args), w, i, f, c).0),
        at(s, p + layout_all(argument_items(args), w, i, f, c).0.len(), ')'),
    ensures
        argument_start(args, p, k, w, i, f, c) <= p + layout_all(
            argument_items(args),
            w,
            i,
            f,
            c,
        ).0.len(),
        reads_args(
            s,
            argument_start(args, p, k, w, i, f, c),
            k == 0,
            args.subrange(k, args.len() as int),
            (p + layout_all(argument_items(args), w, i, f, c).0.len() + 1 - argument_start(
                args,
                p,
                k,
                w,
                i,
                f,
                c,
            )) as nat,
        ),
    decreases args, args.len() - k,
{
    let printed = spec_print_expressions(args);
    let items = argument_items(args);
    let all = layout_all(items, w, i, f, c).0;
    lemma_joined_at(printed, comma_line());
    let from = argument_start(args, p, k, w, i, f, c);
    let here = before(items, 2 * k, w, i, f, c);
    let a = p + here.0.len();
    lemma_holds_item(s, p, items, 2 * k, w, i, f, c);
    lemma_layout_all_at(items, 2 * k, w, i, f, c);
    assert(items[2 * k] == spec_print_expression(args[k])) by {
        assert(items[2 * k] == printed[k]);
    }
    let own = laid(items[2 * k], w, i, f, here.1);
    let end = a + own.len();
    if k == 0 {
        assert(items.subrange(0, 0) =~= Seq::<DocModel>::empty());
    } else {
        let sep = before(items, 2 * k - 1, w, i, f, c);
        lemma_holds_item(s, p, items, 2 * k - 1, w, i, f, c);
        lemma_layout_all_at(items, 2 * k - 1, w, i, f, c);
        assert(items[2 * k - 1] == comma_line()) by {
            assert(items[2 * (k - 1) + 1] == comma_line());
        }
        lemma_comma_line(w, i, f, sep.1);
        let text = laid(comma_line(), w, i, f, sep.1);
        assert forall|j: int| from <= j < a implies in_class(
            CharClass::Space,
            #[trigger] s[j],
        ) by {
            lemma_holds_char(s, from - 1, text, j - from + 1);
        }
    }
    if k + 1 < args.len() {
        let sep = before(items, 2 * k + 1, w, i, f, c);
        lemma_holds_item(s, p, items, 2 * k + 1, w, i, f, c);
        assert(items[2 * k + 1] == comma_line());
        lemma_comma_line(w, i, f, sep.1);
        lemma_holds_char(s, end, laid(comma_line(), w, i, f, sep.1), 0);
    } else {
        assert(items.subrange(0, 2 * k + 1) =~= items);
    }
    lemma_expression(args[k], s, a, w, i, f, here.1);
    lemma_holds_char(s, a, own, 0);
    if k + 1 < args.len() {
        lemma_args_from(args, s, p, k + 1, w, i, f, c);
        let rest = args.subrange(k + 1, args.len() as int);
        assert(seq![args[k]] + rest =~= args.subrange(k, args.len() as int));
        let n = (p + all.len() + 1 - (end + 1)) as nat;
        lemma_args_more(s, from, k == 0, a, args[k], own.len(), rest, n);
    } else {
        assert(seq![args[k]] =~= args.subrange(k, args.len() as int));
        lemma_args_last(s, from, k == 0, a, args[k], own.len());
    }
}

} // verus!
