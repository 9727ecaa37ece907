use vstd::prelude::*;
use crate::localization::extract::{
    units_of_option, units_of_options, units_of_part, units_of_parts,
};
use crate::localization::identity::{lemma_units_of_options_at, lemma_units_of_parts_at};
use crate::localization::replace::{
    replaced_option, replaced_options, replaced_part, replaced_parts,
};
use crate::parser::ast::{PromptOptionModel, ScenePartModel, TextPartModel};

verus! {

/// The first items of a block with their texts replaced are the first items
/// of the block with its texts replaced.
pub proof fn lemma_replaced_parts_prefix(
    v: Seq<ScenePartModel>,
    texts: Seq<Seq<TextPartModel>>,
    from: int,
    i: int,
)
    requires
        0 <= i <= v.len(),
    ensures
        replaced_parts(v, texts, from).subrange(0, i) == replaced_parts(
            v.subrange(0, i),
            texts,
            from,
        ),
{
    let head = v.subrange(0, i);
    assert forall|j: int| 0 <= j < i implies replaced_parts(v, texts, from)[j] == replaced_parts(
        head,
        texts,
        from,
    )[j] by {
        assert(head.subrange(0, j) =~= v.subrange(0, j));
    }
    assert(replaced_parts(v, texts, from).subrange(0, i) =~= replaced_parts(head, texts, from));
}

/// The first options with their texts replaced are the first of the options
/// with their texts replaced.
pub proof fn lemma_replaced_options_prefix(
    v: Seq<PromptOptionModel>,
    texts: Seq<Seq<TextPartModel>>,
    from: int,
    i: int,
)
    requires
        0 <= i <= v.len(),
    ensures
        replaced_options(v, texts, from).subrange(0, i) == replaced_options(
            v.subrange(0, i),
            texts,
            from,
        ),
{
    let head = v.subrange(0, i);
    assert forall|j: int| 0 <= j < i implies replaced_options(v, texts, from)[j]
        == replaced_options(head, texts, from)[j] by {
        assert(head.subrange(0, j) =~= v.subrange(0, j));
    }
    assert(replaced_options(v, texts, from).subrange(0, i) =~= replaced_options(
        head,
        texts,
        from,
    ));
}

/// The texts of an item whose texts were replaced are the texts that were
/// put in, in the order of the walk.
pub proof fn lemma_units_of_replaced_part(
    p: ScenePartModel,
    texts: Seq<Seq<TextPartModel>>,
    from: int,
)
    requires
        0 <= from,
        from + units_of_part(p).len() <= texts.len(),
    ensures
        units_of_part(replaced_part(p, texts, from)) == texts.subrange(
            from,
            from + units_of_part(p).len(),
        ),
    decreases p,
{
    match p {
        ScenePartModel::Dialogue(_) => {
            assert(seq![texts[from]] =~= texts.subrange(from, from + 1));
        },
        ScenePartModel::Narration(_) => {
            assert(seq![texts[from]] =~= texts.subrange(from, from + 1));
        },
        ScenePartModel::Prompt(prompt) => {
            let n = units_of_options(prompt.options).len() as int;
            match prompt.text {
                Some(_) => {
                    lemma_units_of_replaced_options(prompt.options, texts, from + 1);
                    assert(seq![texts[from]] + texts.subrange(from + 1, from + 1 + n)
                        =~= texts.subrange(from, from + 1 + n));
                },
                None => {
                    lemma_units_of_replaced_options(prompt.options, texts, from);
                    assert(Seq::<Seq<TextPartModel>>::empty() + texts.subrange(from, from + n)
                        =~= texts.subrange(from, from + n));
                },
            }
        },
        _ => {
            assert(texts.subrange(from, from) =~= Seq::<Seq<TextPartModel>>::empty());
        },
    }
}

/// The texts of an option whose texts were replaced are the texts that were
/// put in.
pub proof fn lemma_units_of_replaced_option(
    o: PromptOptionModel,
    texts: Seq<Seq<TextPartModel>>,
    from: int,
)
    requires
        0 <= from,
        from + units_of_option(o).len() <= texts.len(),
    ensures
        units_of_option(replaced_option(o, texts, from)) == texts.subrange(
            from,
            from + units_of_option(o).len(),
        ),
    decreases o,
{
    let n = units_of_parts(o.content).len() as int;
    lemma_units_of_replaced_parts(o.content, texts, from + 1);
    assert(seq![texts[from]] + texts.subrange(from + 1, from + 1 + n) =~= texts.subrange(
        from,
        from + 1 + n,
    ));
}

/// The texts of a block whose texts were replaced are the texts that were
/// put in.
pub proof fn lemma_units_of_replaced_parts(
    v: Seq<ScenePartModel>,
    texts: Seq<Seq<TextPartModel>>,
    from: int,
)
    requires
        0 <= from,
        from + units_of_parts(v).len() <= texts.len(),
    ensures
        units_of_parts(replaced_parts(v, texts, from)) == texts.subrange(
            from,
            from + units_of_parts(v).len(),
        ),
    decreases v, v.len() + 1,
{
    assert(v.subrange(0, v.len() as int) =~= v);
    lemma_units_of_replaced_parts_upto(v, texts, from, v.len() as int);
}

/// The same for the first `i` items of a block.
pub proof fn lemma_units_of_replaced_parts_upto(
    v: Seq<ScenePartModel>,
    texts: Seq<Seq<TextPartModel>>,
    from: int,
    i: int,
)
    requires
        0 <= i <= v.len(),
        0 <= from,
        from + units_of_parts(v).len() <= texts.len(),
    ensures
        units_of_parts(v.subrange(0, i)).len() <= units_of_parts(v).len(),
        units_of_parts(replaced_parts(v.subrange(0, i), texts, from)) == texts.subrange(
            from,
            from + units_of_parts(v.subrange(0, i)).len(),
        ),
    decreases v, i,
{
    let head = v.subrange(0, i);
    if i == 0 {
        assert(replaced_parts(head, texts, from) =~= Seq::<ScenePartModel>::empty());
        assert(texts.subrange(from, from) =~= Seq::<Seq<TextPartModel>>::empty());
    } else {
        let k = i - 1;
        let done = replaced_parts(head, texts, from);
        lemma_replaced_parts_prefix(head, texts, from, k);
        assert(done.drop_last() =~= done.subrange(0, k));
        assert(head.subrange(0, k) =~= v.subrange(0, k));
        assert(head.drop_last() =~= v.subrange(0, k));
        lemma_units_of_parts_at(v, k);
        lemma_units_of_replaced_parts_upto(v, texts, from, k);
        let before = units_of_parts(v.subrange(0, k)).len() as int;
        let own = units_of_part(v[k]).len() as int;
        assert(head.last() == v[k]);
        assert(done.last() == replaced_part(v[k], texts, from + before));
        lemma_units_of_replaced_part(v[k], texts, from + before);
        if i == v.len() {
            assert(head =~= v);
        }
        assert(texts.subrange(from, from + before) + texts.subrange(
            from + before,
            from + before + own,
        ) =~= texts.subrange(from, from + before + own));
    }
}

/// The texts of options whose texts were replaced are the texts that were
/// put in.
pub proof fn lemma_units_of_replaced_options(
    v: Seq<PromptOptionModel>,
    texts: Seq<Seq<TextPartModel>>,
    from: int,
)
    requires
        0 <= from,
        from + units_of_options(v).len() <= texts.len(),
    ensures
        units_of_options(replaced_options(v, texts, from)) == texts.subrange(
            from,
            from + units_of_options(v).len(),
        ),
    decreases v, v.len() + 1,
{
    assert(v.subrange(0, v.len() as int) =~= v);
    lemma_units_of_replaced_options_upto(v, texts, from, v.len() as int);
}

/// The same for the first `i` options.
pub proof fn lemma_units_of_replaced_options_upto(
    v: Seq<PromptOptionModel>,
    texts: Seq<Seq<TextPartModel>>,
    from: int,
    i: int,
)
    requires
        0 <= i <= v.len(),
        0 <= from,
        from + units_of_options(v).len() <= texts.len(),
    ensures
        units_of_options(v.subrange(0, i)).len() <= units_of_options(v).len(),
        units_of_options(replaced_options(v.subrange(0, i), texts, from)) == texts.subrange(
            from,
            from + units_of_options(v.subrange(0, i)).len(),
        ),
    decreases v, i,
{
    let head = v.subrange(0, i);
    if i == 0 {
        assert(replaced_options(head, texts, from) =~= Seq::<PromptOptionModel>::empty());
        assert(texts.subrange(from, from) =~= Seq::<Seq<TextPartModel>>::empty());
    } else {
        let k = i - 1;
        let done = replaced_options(head, texts, from);
        lemma_replaced_options_prefix(head, texts, from, k);
        assert(done.drop_last() =~= done.subrange(0, k));
        assert(head.subrange(0, k) =~= v.subrange(0, k));
        assert(head.drop_last() =~= v.subrange(0, k));
        lemma_units_of_options_at(v, k);
        lemma_units_of_replaced_options_upto(v, texts, from, k);
        let before = units_of_options(v.subrange(0, k)).len() as int;
        let own = units_of_option(v[k]).len() as int;
        assert(head.last() == v[k]);
        assert(done.last() == replaced_option(v[k], texts, from + before));
        lemma_units_of_replaced_option(v[k], texts, from + before);
        if i == v.len() {
            assert(head =~= v);
        }
        assert(texts.subrange(from, from + before) + texts.subrange(
            from + before,
            from + before + own,
        ) =~= texts.subrange(from, from + before + own));
    }
}

/// Replacing the texts of an item twice is replacing them by the second
/// texts: what a replacement leaves of an item is all but its texts.
pub proof fn lemma_replaced_twice_part(
    p: ScenePartModel,
    a: Seq<Seq<TextPartModel>>,
    from_a: int,
    b: Seq<Seq<TextPartModel>>,
    from_b: int,
)
    requires
        0 <= from_a,
        from_a + units_of_part(p).len() <= a.len(),
        0 <= from_b,
        from_b + units_of_part(p).len() <= b.len(),
    ensures
        replaced_part(replaced_part(p, a, from_a), b, from_b) == replaced_part(p, b, from_b),
    decreases p,
{
    match p {
        ScenePartModel::Prompt(prompt) => {
            match prompt.text {
                Some(_) => {
                    lemma_replaced_twice_options(prompt.options, a, from_a + 1, b, from_b + 1);
                },
                None => {
                    lemma_replaced_twice_options(prompt.options, a, from_a, b, from_b);
                },
            }
        },
        _ => {},
    }
}

/// Replacing the texts of a block twice is replacing them by the second
/// texts.
pub proof fn lemma_replaced_twice_parts(
    v: Seq<ScenePartModel>,
    a: Seq<Seq<TextPartModel>>,
    from_a: int,
    b: Seq<Seq<TextPartModel>>,
    from_b: int,
)
    requires
        0 <= from_a,
        from_a + units_of_parts(v).len() <= a.len(),
        0 <= from_b,
        from_b + units_of_parts(v).len() <= b.len(),
    ensures
        replaced_parts(replaced_parts(v, a, from_a), b, from_b) == replaced_parts(v, b, from_b),
    decreases v,
{
    let once = replaced_parts(v, a, from_a);
    assert forall|i: int| 0 <= i < v.len() implies replaced_parts(once, b, from_b)[i]
        == replaced_parts(v, b, from_b)[i] by {
        let before = units_of_parts(v.subrange(0, i)).len() as int;
        lemma_units_of_parts_at(v, i);
        lemma_replaced_parts_prefix(v, a, from_a, i);
        lemma_units_of_replaced_parts_upto(v, a, from_a, i);
        assert(units_of_parts(once.subrange(0, i)).len() == before);
        lemma_replaced_twice_part(v[i], a, from_a + before, b, from_b + before);
    }
    assert(replaced_parts(once, b, from_b) =~= replaced_parts(v, b, from_b));
}

/// Replacing the texts of options twice is replacing them by the second
/// texts.
pub proof fn lemma_replaced_twice_options(
    v: Seq<PromptOptionModel>,
    a: Seq<Seq<TextPartModel>>,
    from_a: int,
    b: Seq<Seq<TextPartModel>>,
    from_b: int,
)
    requires
        0 <= from_a,
        from_a + units_of_options(v).len() <= a.len(),
        0 <= from_b,
        from_b + units_of_options(v).len() <= b.len(),
    ensures
        replaced_options(replaced_options(v, a, from_a), b, from_b) == replaced_options(
            v,
            b,
            from_b,
        ),
    decreases v,
{
    let once = replaced_options(v, a, from_a);
    assert forall|i: int| 0 <= i < v.len() implies replaced_options(once, b, from_b)[i]
        == replaced_options(v, b, from_b)[i] by {
        let before = units_of_options(v.subrange(0, i)).len() as int;
        lemma_units_of_options_at(v, i);
        lemma_replaced_options_prefix(v, a, from_a, i);
        lemma_units_of_replaced_options_upto(v, a, from_a, i);
        assert(units_of_options(once.subrange(0, i)).len() == before);
        lemma_replaced_twice_parts(v[i].content, a, from_a + before + 1, b, from_b + before + 1);
    }
    assert(replaced_options(once, b, from_b) =~= replaced_options(v, b, from_b));
}

} // verus!
