use vstd::prelude::*;
use crate::parser::scan::{at_class, in_class, run, CharClass};
use crate::unparser::joined;
use crate::unparser::doc::{layout, layout_all, line_break, DocModel};

verus! {

/// Whether `s` holds the text `t` at `p`.
pub open spec fn holds(s: Seq<char>, p: int, t: Seq<char>) -> bool {
    0 <= p && p + t.len() <= s.len() && s.subrange(p, p + t.len()) == t
}

/// A text that `s` holds has its characters in `s`.
pub proof fn lemma_holds_char(s: Seq<char>, p: int, t: Seq<char>, j: int)
    requires
        holds(s, p, t),
        0 <= j < t.len(),
    ensures
        s[p + j] == t[j],
{
    assert(s.subrange(p, p + t.len())[j] == t[j]);
}

/// A text that `s` holds has all its characters in `s`.
pub proof fn lemma_holds_chars(s: Seq<char>, p: int, t: Seq<char>)
    requires
        holds(s, p, t),
    ensures
        forall|j: int| 0 <= j < t.len() ==> s[p + j] == #[trigger] t[j],
{
    assert forall|j: int| 0 <= j < t.len() implies s[p + j] == #[trigger] t[j] by {
        lemma_holds_char(s, p, t, j);
    }
}

/// Where `s` holds two texts one after the other, it holds each.
pub proof fn lemma_holds_split(s: Seq<char>, p: int, a: Seq<char>, b: Seq<char>)
    requires
        holds(s, p, a + b),
    ensures
        holds(s, p, a),
        holds(s, p + a.len(), b),
{
    lemma_holds_chars(s, p, a + b);
    assert(s.subrange(p, p + a.len()) =~= a) by {
        assert forall|j: int| 0 <= j < a.len() implies s[p + j] == a[j] by {
            assert((a + b)[j] == a[j]);
        }
    }
    assert(s.subrange(p + a.len(), p + a.len() + b.len()) =~= b) by {
        assert forall|j: int| 0 <= j < b.len() implies s[p + a.len() + j] == b[j] by {
            assert((a + b)[a.len() + j] == b[j]);
        }
    }
}

/// A run that is bounded on both sides has the length between the bounds.
pub proof fn lemma_run_is(s: Seq<char>, a: int, b: int, class: CharClass)
    requires
        0 <= a <= b <= s.len(),
        forall|j: int| a <= j < b ==> in_class(class, #[trigger] s[j]),
        !at_class(s, b, class),
    ensures
        run(s, a, class) == b - a,
    decreases b - a,
{
    if a < b {
        lemma_run_is(s, a + 1, b, class);
    }
}

/// Where `s` holds a text all of whose characters belong to a class, and
/// the character behind it does not, the run over it ends with it.
pub proof fn lemma_run_over(s: Seq<char>, p: int, t: Seq<char>, class: CharClass)
    requires
        holds(s, p, t),
        forall|j: int| 0 <= j < t.len() ==> in_class(class, #[trigger] t[j]),
        !at_class(s, p + t.len(), class),
    ensures
        run(s, p, class) == t.len(),
{
    lemma_holds_chars(s, p, t);
    assert forall|j: int| p <= j < p + t.len() implies in_class(class, #[trigger] s[j]) by {
        assert(s[p + (j - p)] == t[j - p]);
    }
    lemma_run_is(s, p, p + t.len(), class);
}

/// The text that a document adds to a line.
pub open spec fn laid(d: DocModel, width: nat, indent: nat, flat: bool, column: nat) -> Seq<char> {
    layout(d, width, indent, flat, column).0
}

/// The column behind a document.
pub open spec fn column_after(d: DocModel, width: nat, indent: nat, flat: bool, column: nat)
    -> nat {
    layout(d, width, indent, flat, column).1
}

/// The layout of two lists one after the other is the layout of the first,
/// then that of the second from where the first ends.
pub proof fn lemma_layout_all_add(
    a: Seq<DocModel>,
    b: Seq<DocModel>,
    width: nat,
    indent: nat,
    flat: bool,
    column: nat,
)
    ensures
        layout_all(a + b, width, indent, flat, column).0 == layout_all(
            a,
            width,
            indent,
            flat,
            column,
        ).0 + layout_all(
            b,
            width,
            indent,
            flat,
            layout_all(a, width, indent, flat, column).1,
        ).0,
        layout_all(a + b, width, indent, flat, column).1 == layout_all(
            b,
            width,
            indent,
            flat,
            layout_all(a, width, indent, flat, column).1,
        ).1,
    decreases b.len(),
{
    let first = layout_all(a, width, indent, flat, column);
    if b.len() == 0 {
        assert(a + b =~= a);
        assert(first.0 + Seq::<char>::empty() =~= first.0);
    } else {
        lemma_layout_all_add(a, b.drop_last(), width, indent, flat, column);
        assert((a + b).drop_last() =~= a + b.drop_last());
        assert((a + b).last() == b.last());
        let middle = layout_all(b.drop_last(), width, indent, flat, first.1);
        let end = layout(b.last(), width, indent, flat, middle.1);
        assert((first.0 + middle.0) + end.0 =~= first.0 + (middle.0 + end.0));
    }
}

/// The text before the document with the number `m` of a list, and the
/// column there.
pub open spec fn before(
    items: Seq<DocModel>,
    m: int,
    width: nat,
    indent: nat,
    flat: bool,
    column: nat,
) -> (Seq<char>, nat) {
    layout_all(items.subrange(0, m), width, indent, flat, column)
}

/// In the layout of a list, the layout of each document stands behind the
/// layout of those before it.
pub proof fn lemma_layout_all_at(
    items: Seq<DocModel>,
    m: int,
    width: nat,
    indent: nat,
    flat: bool,
    column: nat,
)
    requires
        0 <= m < items.len(),
    ensures
        before(items, m + 1, width, indent, flat, column).0 == before(
            items,
            m,
            width,
            indent,
            flat,
            column,
        ).0 + laid(
            items[m],
            width,
            indent,
            flat,
            before(items, m, width, indent, flat, column).1,
        ),
        before(items, m + 1, width, indent, flat, column).1 == column_after(
            items[m],
            width,
            indent,
            flat,
            before(items, m, width, indent, flat, column).1,
        ),
        before(items, m + 1, width, indent, flat, column).0.len() <= layout_all(
            items,
            width,
            indent,
            flat,
            column,
        ).0.len(),
        layout_all(items, width, indent, flat, column).0.subrange(
            0,
            before(items, m + 1, width, indent, flat, column).0.len() as int,
        ) == before(items, m + 1, width, indent, flat, column).0,
{
    let head = items.subrange(0, m + 1);
    assert(head.drop_last() =~= items.subrange(0, m));
    assert(head.last() == items[m]);
    let tail = items.subrange(m + 1, items.len() as int);
    assert(head + tail =~= items);
    lemma_layout_all_add(head, tail, width, indent, flat, column);
    let a = layout_all(head, width, indent, flat, column).0;
    let b = layout_all(tail, width, indent, flat, layout_all(head, width, indent, flat, column).1).0;
    assert((a + b).subrange(0, a.len() as int) =~= a);
}

/// Where `s` holds the layout of a list at `p`, it holds the layout of each
/// of its documents behind the layout of those before it.
pub proof fn lemma_holds_item(
    s: Seq<char>,
    p: int,
    items: Seq<DocModel>,
    m: int,
    width: nat,
    indent: nat,
    flat: bool,
    column: nat,
)
    requires
        0 <= m < items.len(),
        holds(s, p, layout_all(items, width, indent, flat, column).0),
    ensures
        holds(
            s,
            p + before(items, m, width, indent, flat, column).0.len(),
            laid(items[m], width, indent, flat, before(items, m, width, indent, flat, column).1),
        ),
        p + before(items, m + 1, width, indent, flat, column).0.len() <= p + layout_all(
            items,
            width,
            indent,
            flat,
            column,
        ).0.len(),
{
    lemma_layout_all_at(items, m, width, indent, flat, column);
    let all = layout_all(items, width, indent, flat, column).0;
    let pre = before(items, m, width, indent, flat, column);
    let next = before(items, m + 1, width, indent, flat, column).0;
    let own = laid(items[m], width, indent, flat, pre.1);
    lemma_holds_chars(s, p, all);
    assert(s.subrange(p + pre.0.len(), p + pre.0.len() + own.len()) =~= own) by {
        assert forall|j: int| 0 <= j < own.len() implies s[p + pre.0.len() + j] == own[j] by {
            assert(all.subrange(0, next.len() as int)[pre.0.len() + j] == next[pre.0.len() + j]);
            assert(s[p + (pre.0.len() + j)] == all[pre.0.len() + j]);
        }
    }
}

/// A list with separators has a separator at each odd place and the
/// documents at the even places.
pub proof fn lemma_joined_at(items: Seq<DocModel>, sep: DocModel)
    requires
        items.len() > 0,
    ensures
        joined(items, sep).len() == 2 * items.len() - 1,
        forall|j: int| 0 <= j < items.len() ==> joined(items, sep)[2 * j] == #[trigger] items[j],
        forall|j: int|
            0 <= j < items.len() - 1 ==> #[trigger] joined(items, sep)[2 * j + 1] == sep,
    decreases items.len(),
{
    if items.len() > 1 {
        lemma_joined_at(items.drop_last(), sep);
        let inner = joined(items.drop_last(), sep);
        assert forall|j: int| 0 <= j < items.len() implies joined(items, sep)[2 * j]
            == #[trigger] items[j] by {
            if j < items.len() - 1 {
                assert(inner[2 * j] == items.drop_last()[j]);
            }
        }
        assert forall|j: int| 0 <= j < items.len() - 1 implies #[trigger] joined(items, sep)[2
            * j + 1] == sep by {
            if j < items.len() - 2 {
                assert(inner[2 * j + 1] == sep);
            }
        }
    }
}

/// The text of a line break is white space that starts with a line feed.
pub proof fn lemma_line_break(indent: nat)
    ensures
        line_break(indent).len() == indent + 1,
        line_break(indent)[0] == '\n',
        forall|j: int|
            0 <= j < line_break(indent).len() ==> in_class(
                CharClass::Space,
                #[trigger] line_break(indent)[j],
            ),
{
}

/// A layout with that of one more document behind it.
pub open spec fn then(
    acc: (Seq<char>, nat),
    d: DocModel,
    width: nat,
    indent: nat,
    flat: bool,
) -> (Seq<char>, nat) {
    (
        acc.0 + laid(d, width, indent, flat, acc.1),
        column_after(d, width, indent, flat, acc.1),
    )
}

/// Nothing, at a column.
pub open spec fn start(column: nat) -> (Seq<char>, nat) {
    (Seq::empty(), column)
}

/// The layout of a list with one document more is that of the list with that
/// of the document behind it.
pub proof fn lemma_layout_push(
    items: Seq<DocModel>,
    d: DocModel,
    width: nat,
    indent: nat,
    flat: bool,
    column: nat,
)
    ensures
        layout_all(items.push(d), width, indent, flat, column) == then(
            layout_all(items, width, indent, flat, column),
            d,
            width,
            indent,
            flat,
        ),
{
    assert(items.push(d).drop_last() =~= items);
    assert(items.push(d).last() == d);
}

/// No documents add nothing.
pub proof fn lemma_layout_none(width: nat, indent: nat, flat: bool, column: nat)
    ensures
        layout_all(Seq::empty(), width, indent, flat, column) == start(column),
{
}

/// The layout of two documents one after the other.
pub proof fn lemma_concat2(a: DocModel, b: DocModel, w: nat, i: nat, f: bool, c: nat)
    ensures
        layout(DocModel::Concat(seq![a, b]), w, i, f, c) == then(
            then(start(c), a, w, i, f),
            b,
            w,
            i,
            f,
        ),
{
    lemma_layout_none(w, i, f, c);
    lemma_layout_push(Seq::empty(), a, w, i, f, c);
    lemma_layout_push(seq![a], b, w, i, f, c);
    assert(Seq::<DocModel>::empty().push(a) =~= seq![a]);
    assert(seq![a].push(b) =~= seq![a, b]);
}

/// The layout of three documents one after the other.
pub proof fn lemma_concat3(a: DocModel, b: DocModel, c3: DocModel, w: nat, i: nat, f: bool, c: nat)
    ensures
        layout(DocModel::Concat(seq![a, b, c3]), w, i, f, c) == then(
            then(then(start(c), a, w, i, f), b, w, i, f),
            c3,
            w,
            i,
            f,
        ),
{
    lemma_concat2(a, b, w, i, f, c);
    lemma_layout_push(seq![a, b], c3, w, i, f, c);
    assert(seq![a, b].push(c3) =~= seq![a, b, c3]);
}

/// The layout of four documents one after the other.
pub proof fn lemma_concat4(
    a: DocModel,
    b: DocModel,
    c3: DocModel,
    d: DocModel,
    w: nat,
    i: nat,
    f: bool,
    c: nat,
)
    ensures
        layout(DocModel::Concat(seq![a, b, c3, d]), w, i, f, c) == then(
            then(then(then(start(c), a, w, i, f), b, w, i, f), c3, w, i, f),
            d,
            w,
            i,
            f,
        ),
{
    lemma_concat3(a, b, c3, w, i, f, c);
    lemma_layout_push(seq![a, b, c3], d, w, i, f, c);
    assert(seq![a, b, c3].push(d) =~= seq![a, b, c3, d]);
}

/// The layout of five documents one after the other.
pub proof fn lemma_concat5(
    a: DocModel,
    b: DocModel,
    c3: DocModel,
    d: DocModel,
    e: DocModel,
    w: nat,
    i: nat,
    f: bool,
    c: nat,
)
    ensures
        layout(DocModel::Concat(seq![a, b, c3, d, e]), w, i, f, c) == then(
            then(then(then(then(start(c), a, w, i, f), b, w, i, f), c3, w, i, f), d, w, i, f),
            e,
            w,
            i,
            f,
        ),
{
    lemma_concat4(a, b, c3, d, w, i, f, c);
    lemma_layout_push(seq![a, b, c3, d], e, w, i, f, c);
    assert(seq![a, b, c3, d].push(e) =~= seq![a, b, c3, d, e]);
}

/// Where `s` holds a layout with one more document behind it, it holds the
/// layout, and behind it that of the document.
pub proof fn lemma_holds_then(
    s: Seq<char>,
    p: int,
    acc: (Seq<char>, nat),
    d: DocModel,
    w: nat,
    i: nat,
    f: bool,
)
    requires
        holds(s, p, then(acc, d, w, i, f).0),
    ensures
        holds(s, p, acc.0),
        holds(s, p + acc.0.len(), laid(d, w, i, f, acc.1)),
        then(acc, d, w, i, f).0.len() == acc.0.len() + laid(d, w, i, f, acc.1).len(),
{
    lemma_holds_split(s, p, acc.0, laid(d, w, i, f, acc.1));
}

} // verus!
