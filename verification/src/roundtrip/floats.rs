use vstd::prelude::*;
use crate::parser::grammar::{digits_len, exponent_len, float_len, without_underscores};
use crate::parser::scan::{at, at_class, in_class, is_digit, lemma_run, run, CharClass};
use crate::roundtrip::shape::is_float_literal;
use crate::roundtrip::text::{holds, lemma_holds_char, lemma_holds_split, lemma_run_over};

verus! {

/// Taking the `_` out of two texts one after the other is taking them out
/// of each.
pub proof fn lemma_strip_add(x: Seq<char>, y: Seq<char>)
    ensures
        without_underscores(x + y) == without_underscores(x) + without_underscores(y),
    decreases y.len(),
{
    if y.len() == 0 {
        assert(x + y =~= x);
        assert(without_underscores(x) + without_underscores(y) =~= without_underscores(x));
    } else {
        lemma_strip_add(x, y.drop_last());
        assert((x + y).drop_last() =~= x + y.drop_last());
        assert((x + y).last() == y.last());
        if y.last() != '_' {
            assert((without_underscores(x) + without_underscores(y.drop_last())).push(y.last())
                =~= without_underscores(x) + without_underscores(y.drop_last()).push(y.last()));
        }
    }
}

/// No `_` is left where they were taken out.
pub proof fn lemma_strip_clean(x: Seq<char>)
    ensures
        forall|j: int|
            0 <= j < without_underscores(x).len() ==> #[trigger] without_underscores(x)[j] != '_',
    decreases x.len(),
{
    if x.len() > 0 {
        lemma_strip_clean(x.drop_last());
        let before = without_underscores(x.drop_last());
        assert forall|j: int| 0 <= j < without_underscores(x).len() implies #[trigger]
            without_underscores(x)[j] != '_' by {
            if j < before.len() {
                assert(before[j] != '_');
            }
        }
    }
}

/// One character that is no `_` stays.
pub proof fn lemma_strip_one(c: char)
    requires
        c != '_',
    ensures
        without_underscores(seq![c]) == seq![c],
{
    assert(seq![c].drop_last() =~= Seq::<char>::empty());
    assert(without_underscores(seq![c].drop_last()) =~= Seq::<char>::empty());
    assert(Seq::<char>::empty().push(c) =~= seq![c]);
}

/// Whether a text is digits, at least one.
pub open spec fn is_digits(t: Seq<char>) -> bool {
    t.len() > 0 && forall|j: int| 0 <= j < t.len() ==> is_digit(#[trigger] t[j])
}

/// A digit run without its `_` is digits.
pub proof fn lemma_strip_digits(d: Seq<char>)
    requires
        d.len() > 0,
        is_digit(d[0]),
        forall|j: int| 0 <= j < d.len() ==> in_class(CharClass::DigitOrUnderscore, #[trigger] d[j]),
    ensures
        is_digits(without_underscores(d)),
    decreases d.len(),
{
    if d.len() == 1 {
        assert(d =~= seq![d[0]]);
        lemma_strip_one(d[0]);
    } else {
        lemma_strip_digits(d.drop_last());
        assert(in_class(CharClass::DigitOrUnderscore, d[d.len() - 1]));
    }
}

/// The digit run at `a`, without its `_`.
pub open spec fn digits_text(s: Seq<char>, a: int) -> Seq<char> {
    without_underscores(s.subrange(a, a + digits_len(s, a)))
}

/// A digit run without its `_` is digits, and the run lies within the text.
pub proof fn lemma_digits_text(s: Seq<char>, a: int)
    requires
        digits_len(s, a) > 0,
    ensures
        is_digits(digits_text(s, a)),
        0 <= a,
        a + digits_len(s, a) <= s.len(),
{
    lemma_run(s, a, CharClass::DigitOrUnderscore);
    let d = s.subrange(a, a + digits_len(s, a));
    assert forall|j: int| 0 <= j < d.len() implies in_class(
        CharClass::DigitOrUnderscore,
        #[trigger] d[j],
    ) by {
        assert(d[j] == s[a + j]);
    }
    lemma_strip_digits(d);
}

/// Where a text holds digits and no digit or `_` behind them, its digit run
/// there is the digits.
pub proof fn lemma_digits_here(u: Seq<char>, a: int, n: Seq<char>)
    requires
        holds(u, a, n),
        is_digits(n),
        !at_class(u, a + n.len(), CharClass::DigitOrUnderscore),
    ensures
        digits_len(u, a) == n.len(),
{
    assert forall|j: int| 0 <= j < n.len() implies in_class(
        CharClass::DigitOrUnderscore,
        #[trigger] n[j],
    ) by {
        assert(is_digit(n[j]));
    }
    lemma_run_over(u, a, n, CharClass::DigitOrUnderscore);
    lemma_holds_char(u, a, n, 0);
}

/// The sign of the exponent at `a`, as text: what stands behind the
/// exponent mark, if it is `+` or `-`.
pub open spec fn sign_len(s: Seq<char>, a: int) -> nat {
    if at(s, a + 1, '+') || at(s, a + 1, '-') {
        1
    } else {
        0
    }
}

/// The exponent at `a`, without the `_` of its digits.
pub open spec fn exponent_text(s: Seq<char>, a: int) -> Seq<char> {
    if exponent_len(s, a) > 0 {
        s.subrange(a, a + 1 + sign_len(s, a)) + digits_text(s, a + 1 + sign_len(s, a))
    } else {
        Seq::empty()
    }
}

/// The exponent without its `_` is the exponent text.
pub proof fn lemma_exponent_text(s: Seq<char>, a: int)
    requires
        0 <= a <= s.len(),
    ensures
        without_underscores(s.subrange(a, a + exponent_len(s, a))) == exponent_text(s, a),
{
    let e = exponent_len(s, a);
    if e > 0 {
        let sign = sign_len(s, a);
        let b = a + 1 + sign;
        lemma_digits_text(s, b);
        let head = s.subrange(a, b);
        let digits = s.subrange(b, b + digits_len(s, b));
        assert(s.subrange(a, a + e) =~= head + digits);
        lemma_strip_add(head, digits);
        if sign == 1 {
            assert(head =~= seq![s[a]] + seq![s[a + 1]]);
            lemma_strip_add(seq![s[a]], seq![s[a + 1]]);
            lemma_strip_one(s[a]);
            lemma_strip_one(s[a + 1]);
        } else {
            assert(head =~= seq![s[a]]);
            lemma_strip_one(s[a]);
        }
    } else {
        assert(s.subrange(a, a) =~= Seq::<char>::empty());
    }
}

/// Where a text ends with an exponent text, its exponent there is that
/// text.
pub proof fn lemma_exponent_here(u: Seq<char>, b: int, s: Seq<char>, a: int)
    requires
        holds(u, b, exponent_text(s, a)),
        b + exponent_text(s, a).len() == u.len(),
    ensures
        exponent_len(u, b) == exponent_text(s, a).len(),
{
    if exponent_len(s, a) > 0 {
        let sign = sign_len(s, a);
        let head = s.subrange(a, a + 1 + sign);
        let digits = digits_text(s, a + 1 + sign);
        lemma_digits_text(s, a + 1 + sign);
        lemma_holds_split(u, b, head, digits);
        lemma_holds_char(u, b, head, 0);
        if sign == 1 {
            lemma_holds_char(u, b, head, 1);
        } else {
            lemma_holds_char(u, b + 1, digits, 0);
        }
        lemma_digits_here(u, b + 1 + sign, digits);
    }
}

/// A text holds each of the pieces that it is made of.
pub proof fn lemma_pieces(t: Seq<char>, a: Seq<char>, b: Seq<char>, c: Seq<char>, d: Seq<char>)
    requires
        t == a + b + c + d,
    ensures
        holds(t, 0, a),
        holds(t, a.len() as int, b),
        holds(t, (a.len() + b.len()) as int, c),
        holds(t, (a.len() + b.len() + c.len()) as int, d),
        t.len() == a.len() + b.len() + c.len() + d.len(),
{
    assert(t.subrange(0, t.len() as int) =~= t);
    lemma_holds_split(t, 0, a + b + c, d);
    lemma_holds_split(t, 0, a + b, c);
    lemma_holds_split(t, 0, a, b);
}

/// The text of the float literal at `pos`, without its `_`, in pieces: the
/// digits before the point, the point, the digits behind it, the exponent.
pub open spec fn float_pieces(s: Seq<char>, pos: int) -> (
    Seq<char>,
    Seq<char>,
    Seq<char>,
    Seq<char>,
) {
    if at(s, pos, '.') {
        let d = digits_len(s, pos + 1);
        (Seq::empty(), seq!['.'], digits_text(s, pos + 1), exponent_text(s, pos + 1 + d))
    } else {
        let i = digits_len(s, pos);
        if at(s, pos + i, '.') {
            let d = digits_len(s, pos + i + 1);
            if d > 0 {
                (
                    digits_text(s, pos),
                    seq!['.'],
                    digits_text(s, pos + i + 1),
                    exponent_text(s, pos + i + 1 + d),
                )
            } else {
                (digits_text(s, pos), seq!['.'], Seq::empty(), Seq::empty())
            }
        } else {
            (digits_text(s, pos), Seq::empty(), Seq::empty(), exponent_text(s, pos + i))
        }
    }
}

/// The float literal at `pos` without its `_` is its pieces one after the
/// other.
pub proof fn lemma_float_pieces(s: Seq<char>, pos: int)
    requires
        float_len(s, pos) > 0,
    ensures
        without_underscores(s.subrange(pos, pos + float_len(s, pos))) == float_pieces(s, pos).0
            + float_pieces(s, pos).1 + float_pieces(s, pos).2 + float_pieces(s, pos).3,
{
    let n = float_len(s, pos) as int;
    let lexeme = s.subrange(pos, pos + n);
    let empty = Seq::<char>::empty();
    assert(without_underscores(empty) =~= empty);
    if at(s, pos, '.') {
        let d = digits_len(s, pos + 1) as int;
        lemma_digits_text(s, pos + 1);
        let e = exponent_len(s, pos + 1 + d) as int;
        lemma_exponent_text(s, pos + 1 + d);
        lemma_exponent_bound(s, pos + 1 + d);
        let a = seq!['.'];
        let b = s.subrange(pos + 1, pos + 1 + d);
        let c = s.subrange(pos + 1 + d, pos + 1 + d + e);
        assert(lexeme =~= a + b + c);
        lemma_strip_add(a + b, c);
        lemma_strip_add(a, b);
        lemma_strip_one('.');
        assert(empty + seq!['.'] =~= seq!['.']);
    } else {
        let i = digits_len(s, pos) as int;
        lemma_digits_text(s, pos);
        let a = s.subrange(pos, pos + i);
        if at(s, pos + i, '.') {
            let d = digits_len(s, pos + i + 1) as int;
            if d > 0 {
                lemma_digits_text(s, pos + i + 1);
                let e = exponent_len(s, pos + i + 1 + d) as int;
                lemma_exponent_text(s, pos + i + 1 + d);
                lemma_exponent_bound(s, pos + i + 1 + d);
                let b = s.subrange(pos + i + 1, pos + i + 1 + d);
                let c = s.subrange(pos + i + 1 + d, pos + i + 1 + d + e);
                assert(lexeme =~= a + seq!['.'] + b + c);
                lemma_strip_add(a + seq!['.'] + b, c);
                lemma_strip_add(a + seq!['.'], b);
                lemma_strip_add(a, seq!['.']);
                lemma_strip_one('.');
            } else {
                assert(lexeme =~= a + seq!['.']);
                lemma_strip_add(a, seq!['.']);
                lemma_strip_one('.');
                assert(without_underscores(a) + seq!['.'] + empty + empty =~= without_underscores(
                    a,
                ) + seq!['.']);
            }
        } else {
            let e = exponent_len(s, pos + i) as int;
            lemma_exponent_text(s, pos + i);
            lemma_exponent_bound(s, pos + i);
            let c = s.subrange(pos + i, pos + i + e);
            assert(lexeme =~= a + c);
            lemma_strip_add(a, c);
            assert(without_underscores(a) + empty + empty + without_underscores(c)
                =~= without_underscores(a) + without_underscores(c));
        }
    }
}

/// An exponent lies within the text.
pub proof fn lemma_exponent_bound(s: Seq<char>, a: int)
    requires
        0 <= a <= s.len(),
    ensures
        a + exponent_len(s, a) <= s.len(),
{
    if exponent_len(s, a) > 0 {
        lemma_run(s, a + 1 + sign_len(s, a), CharClass::DigitOrUnderscore);
    }
}

/// The text of the exponent at `a` starts with its mark, if there is one.
pub proof fn lemma_exponent_mark(s: Seq<char>, a: int)
    ensures
        exponent_text(s, a).len() > 0 ==> exponent_text(s, a)[0] == 'e' || exponent_text(s, a)[0]
            == 'E',
        exponent_text(s, a).len() > 0 <==> exponent_len(s, a) > 0,
{
    if exponent_len(s, a) > 0 {
        lemma_digits_text(s, a + 1 + sign_len(s, a));
    }
}

/// A float literal that the grammar finds is, without its `_`, a float
/// literal still, and a whole one.
pub proof fn lemma_float_yielded(s: Seq<char>, pos: int)
    requires
        float_len(s, pos) > 0,
    ensures
        is_float_literal(without_underscores(s.subrange(pos, pos + float_len(s, pos)))),
{
    let t = without_underscores(s.subrange(pos, pos + float_len(s, pos)));
    let p = float_pieces(s, pos);
    lemma_float_pieces(s, pos);
    lemma_pieces(t, p.0, p.1, p.2, p.3);
    lemma_strip_clean(s.subrange(pos, pos + float_len(s, pos)));
    if at(s, pos, '.') {
        let d = digits_len(s, pos + 1) as int;
        lemma_digits_text(s, pos + 1);
        lemma_exponent_mark(s, pos + 1 + d);
        lemma_holds_char(t, 0, p.1, 0);
        if p.3.len() > 0 {
            lemma_holds_char(t, (1 + p.2.len()) as int, p.3, 0);
        }
        lemma_digits_here(t, 1, p.2);
        lemma_exponent_here(t, (1 + p.2.len()) as int, s, pos + 1 + d);
    } else {
        let i = digits_len(s, pos) as int;
        lemma_digits_text(s, pos);
        lemma_holds_char(t, 0, p.0, 0);
        if at(s, pos + i, '.') {
            let d = digits_len(s, pos + i + 1) as int;
            lemma_holds_char(t, p.0.len() as int, p.1, 0);
            lemma_digits_here(t, 0, p.0);
            if d > 0 {
                lemma_digits_text(s, pos + i + 1);
                lemma_exponent_mark(s, pos + i + 1 + d);
                if p.3.len() > 0 {
                    lemma_holds_char(t, (p.0.len() + 1 + p.2.len()) as int, p.3, 0);
                }
                lemma_digits_here(t, (p.0.len() + 1) as int, p.2);
                lemma_exponent_here(t, (p.0.len() + 1 + p.2.len()) as int, s, pos + i + 1 + d);
            }
        } else {
            lemma_exponent_mark(s, pos + i);
            lemma_holds_char(t, p.0.len() as int, p.3, 0);
            lemma_digits_here(t, 0, p.0);
            lemma_exponent_here(t, p.0.len() as int, s, pos + i);
        }
    }
}

} // verus!
