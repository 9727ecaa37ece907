use vstd::prelude::*;
use crate::parser::ast::{ExpressionModel, TextPartModel};
use crate::parser::error::SyntaxError;
use crate::parser::grammar::{
    digits_len, float_len, spec_call_args, spec_expression, spec_text_parts,
};
use crate::parser::scan::{at, at_class, in_class, run, CharClass};
use crate::roundtrip::shape::is_name;
use crate::roundtrip::text::{holds, lemma_run_is, lemma_run_over};
use crate::roundtrip::tokens::lemma_word;

verus! {

/// Whether the grammar reads the expression `e` at `p`, over `n`
/// characters.
#[verifier::opaque]
pub open spec fn reads_expression(s: Seq<char>, p: int, e: ExpressionModel, n: nat) -> bool {
    spec_expression(s, p) == Ok::<(ExpressionModel, nat), SyntaxError>((e, n))
}

/// Whether the grammar reads the text `parts` at `p`, over `n` characters.
#[verifier::opaque]
pub open spec fn reads_text(
    s: Seq<char>,
    p: int,
    class: CharClass,
    parts: Seq<TextPartModel>,
    n: nat,
) -> bool {
    spec_text_parts(s, p, class) == Ok::<(Seq<TextPartModel>, nat), SyntaxError>((parts, n))
}

/// Whether the grammar reads the arguments `args` and the `)` behind them
/// at `p`, over `n` characters.
#[verifier::opaque]
pub open spec fn reads_args(
    s: Seq<char>,
    p: int,
    first: bool,
    args: Seq<ExpressionModel>,
    n: nat,
) -> bool {
    spec_call_args(s, p, first) == Ok::<(Seq<ExpressionModel>, nat), SyntaxError>((args, n))
}

/// A text ends where neither a fragment nor an expression starts.
pub proof fn lemma_text_end(s: Seq<char>, q: int, class: CharClass)
    requires
        !at_class(s, q, class),
        !at(s, q, '{'),
    ensures
        reads_text(s, q, class, Seq::empty(), 0),
{
    reveal(reads_text);
}

/// A fragment, then the rest of a text.
pub proof fn lemma_text_fragment(
    s: Seq<char>,
    q: int,
    t: Seq<char>,
    class: CharClass,
    rest: Seq<TextPartModel>,
    n: nat,
)
    requires
        holds(s, q, t),
        t.len() > 0,
        forall|j: int| 0 <= j < t.len() ==> in_class(class, #[trigger] t[j]),
        !at_class(s, q + t.len(), class),
        reads_text(s, q + t.len(), class, rest, n),
    ensures
        reads_text(s, q, class, seq![TextPartModel::Text(t)] + rest, t.len() + n),
{
    reveal(reads_text);
    lemma_run_over(s, q, t, class);
    assert(s[q] == t[0]) by {
        assert(s.subrange(q, q + t.len())[0] == t[0]);
    }
    assert(at_class(s, q, class));
    assert(run(s, q, class) == 1 + run(s, q + 1, class));
}

/// An expression in braces, then the rest of a text.
pub proof fn lemma_text_expression(
    s: Seq<char>,
    q: int,
    e: ExpressionModel,
    len: nat,
    class: CharClass,
    rest: Seq<TextPartModel>,
    n: nat,
)
    requires
        at(s, q, '{'),
        class == CharClass::StringText || class == CharClass::LineText,
        !at_class(s, q + 1, CharClass::Space),
        reads_expression(s, q + 1, e, len),
        at(s, q + 1 + len, '}'),
        reads_text(s, q + 2 + len, class, rest, n),
    ensures
        reads_text(s, q, class, seq![TextPartModel::Expression(e)] + rest, len + 2 + n),
{
    reveal(reads_text);
    reveal(reads_expression);
    assert(run(s, q + 1, CharClass::Space) == 0);
    assert(run(s, q + 1 + len, CharClass::Space) == 0);
}

/// A call without arguments.
pub proof fn lemma_args_none(s: Seq<char>, from: int)
    requires
        at(s, from, ')'),
    ensures
        reads_args(s, from, true, Seq::empty(), 1),
{
    reveal(reads_args);
    assert(run(s, from, CharClass::Space) == 0);
}

/// The last argument of a call, behind white space, and the `)`.
pub proof fn lemma_args_last(
    s: Seq<char>,
    from: int,
    first: bool,
    a: int,
    e: ExpressionModel,
    len: nat,
)
    requires
        0 <= from <= a < s.len(),
        forall|j: int| from <= j < a ==> in_class(CharClass::Space, #[trigger] s[j]),
        !at_class(s, a, CharClass::Space),
        !at(s, a, ')'),
        reads_expression(s, a, e, len),
        at(s, a + len, ')'),
    ensures
        reads_args(s, from, first, seq![e], (a + len + 1 - from) as nat),
{
    reveal(reads_args);
    reveal(reads_expression);
    lemma_run_is(s, from, a, CharClass::Space);
    assert(run(s, a + len, CharClass::Space) == 0);
}

/// An argument of a call, behind white space, a `,` and the rest.
pub proof fn lemma_args_more(
    s: Seq<char>,
    from: int,
    first: bool,
    a: int,
    e: ExpressionModel,
    len: nat,
    rest: Seq<ExpressionModel>,
    n: nat,
)
    requires
        0 <= from <= a < s.len(),
        forall|j: int| from <= j < a ==> in_class(CharClass::Space, #[trigger] s[j]),
        !at_class(s, a, CharClass::Space),
        !at(s, a, ')'),
        reads_expression(s, a, e, len),
        at(s, a + len, ','),
        reads_args(s, a + len + 1, false, rest, n),
    ensures
        reads_args(s, from, first, seq![e] + rest, (a + len + 1 + n - from) as nat),
{
    reveal(reads_args);
    reveal(reads_expression);
    lemma_run_is(s, from, a, CharClass::Space);
    assert(run(s, a + len, CharClass::Space) == 0);
}

/// A call: its name, `(`, its arguments, `)`.
pub proof fn lemma_call_step(
    s: Seq<char>,
    p: int,
    name: Seq<char>,
    args: Seq<ExpressionModel>,
    n: nat,
)
    requires
        holds(s, p, name),
        is_name(name),
        at(s, p + name.len(), '('),
        reads_args(s, p + name.len() + 1, true, args, n),
    ensures
        reads_expression(s, p, ExpressionModel::Call { name, args }, name.len() + 1 + n),
{
    reveal(reads_args);
    reveal(reads_expression);
    lemma_word(s, p, name);
    assert(s[p] == name[0]) by {
        assert(s.subrange(p, p + name.len())[0] == name[0]);
    }
    assert(s.subrange(p, p + name.len()) == name);
    assert(float_len(s, p) == 0);
    assert(digits_len(s, p) == 0);
}

/// A string literal: `"`, its text, `"`.
pub proof fn lemma_string_step(s: Seq<char>, p: int, parts: Seq<TextPartModel>, n: nat)
    requires
        at(s, p, '"'),
        parts.len() > 0,
        reads_text(s, p + 1, CharClass::StringText, parts, n),
        at(s, p + 1 + n, '"'),
    ensures
        reads_expression(s, p, ExpressionModel::Text(parts), n + 2),
{
    reveal(reads_text);
    reveal(reads_expression);
    assert(float_len(s, p) == 0);
    assert(digits_len(s, p) == 0);
}

} // verus!
