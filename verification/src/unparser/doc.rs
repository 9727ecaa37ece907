use vstd::prelude::*;
use vstd::string::StrSliceExecFns;
use crate::parser::scan::slice_to_string;

verus! {

/// A document: text with the places where a line may break.
#[derive(Debug, PartialEq)]
pub enum Doc {
    /// Nothing.
    Nil,
    /// Text that is written as it stands. It holds no line break.
    Text(String),
    /// A soft line: a space where its group is written flat, a line break
    /// where it is not.
    Line,
    /// A line break, whatever the mode.
    HardLine,
    /// Documents one after the other.
    Concat(Vec<Doc>),
    /// A document whose line breaks are followed by so many more columns of
    /// indentation.
    Nest(usize, Box<Doc>),
    /// A document that is written flat if it then fits in what is left of
    /// the line, and with every soft line of its own broken if not.
    Group(Box<Doc>),
}

/// Mathematical value of a [`Doc`].
pub enum DocModel {
    Nil,
    Text(Seq<char>),
    Line,
    HardLine,
    Concat(Seq<DocModel>),
    Nest(nat, Box<DocModel>),
    Group(Box<DocModel>),
}

/// What a document stands for.
pub open spec fn doc_model(d: Doc) -> DocModel
    decreases d,
{
    match d {
        Doc::Nil => DocModel::Nil,
        Doc::Text(text) => DocModel::Text(text@),
        Doc::Line => DocModel::Line,
        Doc::HardLine => DocModel::HardLine,
        Doc::Concat(items) => DocModel::Concat(docs_model(items@)),
        Doc::Nest(n, inner) => DocModel::Nest(n as nat, Box::new(doc_model(*inner))),
        Doc::Group(inner) => DocModel::Group(Box::new(doc_model(*inner))),
    }
}

/// What each document of a list stands for.
pub open spec fn docs_model(v: Seq<Doc>) -> Seq<DocModel>
    decreases v,
{
    Seq::new(
        v.len(),
        |i: int|
            if 0 <= i < v.len() {
                doc_model(v[i])
            } else {
                DocModel::Nil
            },
    )
}

impl View for Doc {
    type V = DocModel;

    open spec fn view(&self) -> DocModel {
        doc_model(*self)
    }
}

/// A list with one document more stands for one value more.
pub proof fn lemma_docs_push(v: Seq<Doc>, x: Doc)
    ensures
        docs_model(v.push(x)) == docs_model(v).push(x@),
{
    assert(docs_model(v.push(x)) =~= docs_model(v).push(x@));
}

/// `n` spaces.
pub open spec fn spaces(n: nat) -> Seq<char> {
    Seq::new(n, |i: int| ' ')
}

/// A line break and the indentation behind it.
pub open spec fn line_break(indent: nat) -> Seq<char> {
    seq!['\n'] + spaces(indent)
}

/// The indentation inside a nesting by `n` columns. It stops growing at
/// `usize::MAX`.
pub open spec fn deeper(indent: nat, n: nat) -> nat {
    if indent + n <= usize::MAX {
        indent + n
    } else {
        usize::MAX as nat
    }
}

/// The columns that a document takes when it is written flat; `None` where
/// it holds a hard line and so cannot be.
pub open spec fn flat_width(d: DocModel) -> Option<nat>
    decreases d,
{
    match d {
        DocModel::Nil => Some(0),
        DocModel::Text(text) => Some(text.len()),
        DocModel::Line => Some(1),
        DocModel::HardLine => None,
        DocModel::Concat(items) => flat_width_all(items),
        DocModel::Nest(_, inner) => flat_width(*inner),
        DocModel::Group(inner) => flat_width(*inner),
    }
}

/// The columns that documents take when they are written flat one after the
/// other; `None` where one of them cannot be.
pub open spec fn flat_width_all(items: Seq<DocModel>) -> Option<nat>
    decreases items,
{
    if items.len() == 0 {
        Some(0)
    } else {
        match (flat_width_all(items.drop_last()), flat_width(items.last())) {
            (Some(a), Some(b)) => Some(a + b),
            _ => None,
        }
    }
}

/// Whether a document, written flat from `column` on, stays within `width`.
pub open spec fn fits(d: DocModel, width: nat, column: nat) -> bool {
    match flat_width(d) {
        Some(w) => column + w <= width,
        None => false,
    }
}

/// The text that a document adds to a line that stands at `column`, and the
/// column behind it. `indent` is what follows each line break; `flat` says
/// that the soft lines are spaces.
pub open spec fn layout(d: DocModel, width: nat, indent: nat, flat: bool, column: nat) -> (
    Seq<char>,
    nat,
)
    decreases d,
{
    match d {
        DocModel::Nil => (Seq::empty(), column),
        DocModel::Text(text) => (text, column + text.len()),
        DocModel::Line => if flat {
            (seq![' '], column + 1)
        } else {
            (line_break(indent), indent)
        },
        DocModel::HardLine => (line_break(indent), indent),
        DocModel::Concat(items) => layout_all(items, width, indent, flat, column),
        DocModel::Nest(n, inner) => layout(*inner, width, deeper(indent, n), flat, column),
        DocModel::Group(inner) => layout(
            *inner,
            width,
            indent,
            flat || fits(*inner, width, column),
            column,
        ),
    }
}

/// The text that documents add, one after the other, to a line that stands at
/// `column`, and the column behind them.
pub open spec fn layout_all(
    items: Seq<DocModel>,
    width: nat,
    indent: nat,
    flat: bool,
    column: nat,
) -> (Seq<char>, nat)
    decreases items,
{
    if items.len() == 0 {
        (Seq::empty(), column)
    } else {
        let (before, middle) = layout_all(items.drop_last(), width, indent, flat, column);
        let (text, end) = layout(items.last(), width, indent, flat, middle);
        (before + text, end)
    }
}

/// The text of a document laid out for lines of `width` columns.
pub open spec fn spec_render(d: DocModel, width: nat) -> Seq<char> {
    layout(d, width, 0, false, 0).0
}

/// What is left of `budget` columns behind a document written flat; `None`
/// where the document cannot be written flat or does not fit.
pub fn fits_in(doc: &Doc, budget: usize) -> (r: Option<usize>)
    ensures
        match (r, flat_width(doc@)) {
            (Some(left), Some(w)) => left + w == budget,
            (None, Some(w)) => w > budget,
            (None, None) => true,
            _ => false,
        },
    decreases doc,
{
    match doc {
        Doc::Nil => Some(budget),
        Doc::Text(text) => {
            let n = text.as_str().unicode_len();
            if n <= budget {
                Some(budget - n)
            } else {
                None
            }
        },
        Doc::Line => if budget >= 1 {
            Some(budget - 1)
        } else {
            None
        },
        Doc::HardLine => None,
        Doc::Concat(items) => fits_in_all(items, budget),
        Doc::Nest(_, inner) => fits_in(inner, budget),
        Doc::Group(inner) => fits_in(inner, budget),
    }
}

/// What is left of `budget` columns behind documents written flat one after
/// the other; `None` where they cannot be written flat or do not fit.
pub fn fits_in_all(items: &Vec<Doc>, budget: usize) -> (r: Option<usize>)
    ensures
        match (r, flat_width_all(docs_model(items@))) {
            (Some(left), Some(w)) => left + w == budget,
            (None, Some(w)) => w > budget,
            (None, None) => true,
            _ => false,
        },
    decreases items,
{
    let mut left: usize = budget;
    let mut i: usize = 0;
    while i < items.len()
        invariant
            i <= items.len(),
            flat_width_all(docs_model(items@).subrange(0, i as int)) == Some(
                (budget - left) as nat,
            ),
            left <= budget,
        decreases items.len() - i,
    {
        proof {
            let next = docs_model(items@).subrange(0, i + 1);
            assert(next.drop_last() =~= docs_model(items@).subrange(0, i as int));
            assert(next.last() == items@[i as int]@);
            lemma_flat_width_prefix(docs_model(items@), i + 1);
        }
        match fits_in(&items[i], left) {
            Some(rest) => {
                left = rest;
            },
            None => {
                return None;
            },
        }
        i += 1;
    }
    proof {
        assert(docs_model(items@).subrange(0, i as int) =~= docs_model(items@));
    }
    Some(left)
}

/// A list cannot be written flat in less than a part of it from its start.
pub proof fn lemma_flat_width_prefix(items: Seq<DocModel>, k: int)
    requires
        0 <= k <= items.len(),
    ensures
        match (flat_width_all(items), flat_width_all(items.subrange(0, k))) {
            (Some(all), Some(some)) => some <= all,
            (Some(all), None) => false,
            _ => true,
        },
    decreases items.len(),
{
    if k == items.len() {
        assert(items.subrange(0, k) =~= items);
    } else {
        lemma_flat_width_prefix(items.drop_last(), k);
        assert(items.drop_last().subrange(0, k) =~= items.subrange(0, k));
    }
}

/// Appends a line break and `indent` spaces.
pub fn emit_line_break(indent: usize, out: &mut Vec<char>)
    ensures
        final(out)@ == old(out)@ + line_break(indent as nat),
{
    out.push('\n');
    let mut i: usize = 0;
    proof {
        assert(out@ =~= old(out)@ + (seq!['\n'] + spaces(0)));
    }
    while i < indent
        invariant
            i <= indent,
            out@ == old(out)@ + (seq!['\n'] + spaces(i as nat)),
        decreases indent - i,
    {
        out.push(' ');
        i += 1;
        proof {
            assert(out@ =~= old(out)@ + (seq!['\n'] + spaces(i as nat)));
        }
    }
}

/// Appends the characters of `text`.
pub fn emit_text(text: &str, out: &mut Vec<char>)
    ensures
        final(out)@ == old(out)@ + text@,
{
    proof {
        assert(out@ =~= old(out)@ + text@.subrange(0, 0));
    }
    for c in it: text.chars()
        invariant
            it.seq() == text@,
            out@ == old(out)@ + text@.subrange(0, it.index() as int),
    {
        out.push(c);
        proof {
            assert(out@ =~= old(out)@ + text@.subrange(0, it.index() + 1));
        }
    }
    proof {
        assert(text@.subrange(0, text@.len() as int) =~= text@);
    }
}

/// Appends the layout of `doc` to a line that stands at `column`, and says
/// at which column it then stands.
pub fn emit(
    doc: &Doc,
    width: usize,
    indent: usize,
    flat: bool,
    column: usize,
    out: &mut Vec<char>,
) -> (end: usize)
    requires
        column <= old(out)@.len(),
    ensures
        final(out)@ == old(out)@ + layout(
            doc@,
            width as nat,
            indent as nat,
            flat,
            column as nat,
        ).0,
        end == layout(doc@, width as nat, indent as nat, flat, column as nat).1,
        end <= final(out)@.len(),
    decreases doc,
{
    match doc {
        Doc::Nil => {
            proof {
                assert(out@ =~= old(out)@ + Seq::<char>::empty());
            }
            column
        },
        Doc::Text(text) => {
            let before = out.len();
            emit_text(text.as_str(), out);
            column + (out.len() - before)
        },
        Doc::Line => {
            if flat {
                let before = out.len();
                out.push(' ');
                proof {
                    assert(out@ =~= old(out)@ + seq![' ']);
                }
                column + (out.len() - before)
            } else {
                emit_line_break(indent, out);
                indent
            }
        },
        Doc::HardLine => {
            emit_line_break(indent, out);
            indent
        },
        Doc::Concat(items) => emit_all(items, width, indent, flat, column, out),
        Doc::Nest(n, inner) => {
            let inside = if *n <= usize::MAX - indent {
                indent + *n
            } else {
                usize::MAX
            };
            emit(inner, width, inside, flat, column, out)
        },
        Doc::Group(inner) => {
            let flat_here = flat || (column <= width && fits_in(inner, width - column).is_some());
            emit(inner, width, indent, flat_here, column, out)
        },
    }
}

/// Appends the layouts of `items`, one after the other, to a line that
/// stands at `column`, and says at which column it then stands.
pub fn emit_all(
    items: &Vec<Doc>,
    width: usize,
    indent: usize,
    flat: bool,
    column: usize,
    out: &mut Vec<char>,
) -> (end: usize)
    requires
        column <= old(out)@.len(),
    ensures
        final(out)@ == old(out)@ + layout_all(
            docs_model(items@),
            width as nat,
            indent as nat,
            flat,
            column as nat,
        ).0,
        end == layout_all(docs_model(items@), width as nat, indent as nat, flat, column as nat).1,
        end <= final(out)@.len(),
    decreases items,
{
    let mut cur: usize = column;
    let mut i: usize = 0;
    proof {
        assert(out@ =~= old(out)@ + Seq::<char>::empty());
    }
    while i < items.len()
        invariant
            i <= items.len(),
            cur <= out@.len(),
            out@ == old(out)@ + layout_all(
                docs_model(items@).subrange(0, i as int),
                width as nat,
                indent as nat,
                flat,
                column as nat,
            ).0,
            cur == layout_all(
                docs_model(items@).subrange(0, i as int),
                width as nat,
                indent as nat,
                flat,
                column as nat,
            ).1,
        decreases items.len() - i,
    {
        proof {
            let next = docs_model(items@).subrange(0, i + 1);
            assert(next.drop_last() =~= docs_model(items@).subrange(0, i as int));
            assert(next.last() == items@[i as int]@);
        }
        cur = emit(&items[i], width, indent, flat, cur, out);
        proof {
            let done = layout_all(
                docs_model(items@).subrange(0, i as int),
                width as nat,
                indent as nat,
                flat,
                column as nat,
            );
            let more = layout(items@[i as int]@, width as nat, indent as nat, flat, done.1);
            assert(out@ =~= old(out)@ + (done.0 + more.0));
        }
        i += 1;
    }
    proof {
        assert(docs_model(items@).subrange(0, i as int) =~= docs_model(items@));
    }
    cur
}

/// Lays a document out for lines of `width` columns.
pub fn render(doc: &Doc, width: usize) -> (r: String)
    ensures
        r@ == spec_render(doc@, width as nat),
{
    let mut out: Vec<char> = Vec::new();
    emit(doc, width, 0, false, 0, &mut out);
    proof {
        assert(out@ =~= spec_render(doc@, width as nat));
        assert(out@.subrange(0, out@.len() as int) =~= out@);
    }
    slice_to_string(&out, 0, out.len())
}

} // verus!
