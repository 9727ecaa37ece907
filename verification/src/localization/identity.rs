use vstd::prelude::*;
use crate::decimal::{digits_of, lemma_digits_of};
use crate::localization::catalog::{spec_find, EntryModel};
use crate::localization::extract::{
    captures, flatten, key_of, placeholder, spec_source, units_of_option, units_of_options,
    units_of_part, units_of_parts,
};
use crate::localization::laws::{distinct_names, lemma_source_lookup};
use crate::localization::replace::{
    literal_len, placeholder_at, replaced_option, replaced_options, replaced_part, replaced_parts,
    spec_p_dialogue, spec_r_dialogue, spec_r_script, spec_tokens, spec_translate_units,
    LocalizationErrorModel,
};
use crate::parser::ast::{PromptOptionModel, SceneModel, ScenePartModel, TextPartModel};
use crate::parser::scan::{at_class, in_class, is_digit, run, CharClass};

verus! {

/// Whether a text reads back from its one-string form as it is: it has a
/// part; no fragment is empty or holds a `$` with a digit behind it; no
/// fragment follows another one; and no fragment behind an expression starts
/// with a digit.
pub open spec fn reads_back(parts: Seq<TextPartModel>) -> bool {
    &&& parts.len() > 0
    &&& forall|i: int|
        0 <= i < parts.len() ==> match #[trigger] parts[i] {
            TextPartModel::Text(text) => {
                &&& text.len() > 0
                &&& forall|j: int| !placeholder_at(text, j)
                &&& i > 0 ==> parts[i - 1] is Expression && !is_digit(text[0])
            },
            TextPartModel::Expression(_) => true,
        }
}

/// What the part with the number `i` adds to the one-string form.
pub open spec fn piece(parts: Seq<TextPartModel>, i: int) -> Seq<char> {
    match parts[i] {
        TextPartModel::Text(text) => text,
        TextPartModel::Expression(_) => placeholder(captures(parts.subrange(0, i + 1)).len()),
    }
}

/// Where the part with the number `i` starts in the one-string form.
pub open spec fn offset(parts: Seq<TextPartModel>, i: int) -> nat {
    flatten(parts.subrange(0, i)).len()
}

/// The first parts of a text make the start of its one-string form, and
/// their expressions the first of its expressions.
pub proof fn lemma_flatten_prefix(parts: Seq<TextPartModel>, i: int)
    requires
        0 <= i <= parts.len(),
    ensures
        offset(parts, i) <= flatten(parts).len(),
        flatten(parts).subrange(0, offset(parts, i) as int) == flatten(parts.subrange(0, i)),
        captures(parts.subrange(0, i)).len() <= captures(parts).len(),
        captures(parts).subrange(0, captures(parts.subrange(0, i)).len() as int) == captures(
            parts.subrange(0, i),
        ),
    decreases parts.len(),
{
    if i == parts.len() {
        assert(parts.subrange(0, i) =~= parts);
        assert(flatten(parts).subrange(0, flatten(parts).len() as int) =~= flatten(parts));
        assert(captures(parts).subrange(0, captures(parts).len() as int) =~= captures(parts));
    } else {
        lemma_flatten_prefix(parts.drop_last(), i);
        assert(parts.drop_last().subrange(0, i) =~= parts.subrange(0, i));
        let before = flatten(parts.drop_last());
        assert(flatten(parts).subrange(0, offset(parts, i) as int) =~= before.subrange(
            0,
            offset(parts, i) as int,
        ));
        let caught = captures(parts.drop_last());
        assert(captures(parts).subrange(0, captures(parts.subrange(0, i)).len() as int)
            =~= caught.subrange(0, captures(parts.subrange(0, i)).len() as int));
    }
}

/// The one-string form holds the piece of each part at its offset.
pub proof fn lemma_piece_at(parts: Seq<TextPartModel>, i: int)
    requires
        0 <= i < parts.len(),
    ensures
        offset(parts, i + 1) == offset(parts, i) + piece(parts, i).len(),
        offset(parts, i + 1) <= flatten(parts).len(),
        flatten(parts).subrange(offset(parts, i) as int, offset(parts, i + 1) as int) == piece(
            parts,
            i,
        ),
{
    lemma_flatten_prefix(parts, i + 1);
    let head = parts.subrange(0, i + 1);
    assert(head.drop_last() =~= parts.subrange(0, i));
    assert(head.last() == parts[i]);
    assert(flatten(head) == flatten(parts.subrange(0, i)) + piece(parts, i));
    assert(flatten(parts).subrange(offset(parts, i) as int, offset(parts, i + 1) as int)
        =~= piece(parts, i)) by {
        assert forall|j: int| 0 <= j < piece(parts, i).len() implies flatten(parts)[offset(
            parts,
            i,
        ) + j] == piece(parts, i)[j] by {
            assert(flatten(parts).subrange(0, offset(parts, i + 1) as int)[offset(parts, i) + j]
                == flatten(head)[offset(parts, i) + j]);
        }
    }
}

/// A run that is bounded on both sides has the length between the bounds.
pub proof fn lemma_run_exact(s: Seq<char>, a: int, b: int, class: CharClass)
    requires
        0 <= a <= b <= s.len(),
        forall|j: int| a <= j < b ==> in_class(class, #[trigger] s[j]),
        !at_class(s, b, class),
    ensures
        run(s, a, class) == b - a,
    decreases b - a,
{
    if a < b {
        lemma_run_exact(s, a + 1, b, class);
    }
}

/// A literal run that is bounded on both sides has the length between the
/// bounds.
pub proof fn lemma_literal_exact(s: Seq<char>, a: int, b: int)
    requires
        0 <= a <= b <= s.len(),
        forall|j: int| a <= j < b ==> !placeholder_at(s, j),
        b == s.len() || placeholder_at(s, b),
    ensures
        literal_len(s, a) == b - a,
    decreases b - a,
{
    if a < b {
        lemma_literal_exact(s, a + 1, b);
    }
}

/// The first character of the piece of a part that is not the first: it is
/// no digit.
pub proof fn lemma_next_piece(parts: Seq<TextPartModel>, i: int)
    requires
        reads_back(parts),
        0 < i < parts.len(),
        parts[i - 1] is Expression || parts[i] is Expression,
    ensures
        piece(parts, i).len() > 0,
        !is_digit(piece(parts, i)[0]),
        parts[i] is Expression ==> piece(parts, i).len() > 1 && piece(parts, i)[0] == '$'
            && is_digit(piece(parts, i)[1]),
{
    match parts[i] {
        TextPartModel::Text(text) => {},
        TextPartModel::Expression(_) => {
            lemma_digits_of(captures(parts.subrange(0, i + 1)).len());
            let digits = digits_of(captures(parts.subrange(0, i + 1)).len());
            assert(piece(parts, i)[1] == digits[0]);
        },
    }
}

/// The tokens of the one-string form of a text that reads back, from the
/// offset of a part on, are the parts from that part on.
pub proof fn lemma_tokens_of_flatten(parts: Seq<TextPartModel>, i: int, unit: Seq<char>)
    requires
        reads_back(parts),
        0 <= i <= parts.len(),
    ensures
        spec_tokens(flatten(parts), offset(parts, i) as int, captures(parts), unit) == Ok::<
            Seq<TextPartModel>,
            LocalizationErrorModel,
        >(parts.subrange(i, parts.len() as int)),
    decreases parts.len() - i,
{
    let s = flatten(parts);
    let exprs = captures(parts);
    let here = offset(parts, i) as int;
    if i == parts.len() {
        assert(parts.subrange(0, i) =~= parts);
        assert(parts.subrange(i, parts.len() as int) =~= Seq::<TextPartModel>::empty());
    } else {
        lemma_piece_at(parts, i);
        lemma_tokens_of_flatten(parts, i + 1, unit);
        let next = offset(parts, i + 1) as int;
        let this = piece(parts, i);
        assert forall|j: int| 0 <= j < this.len() implies s[here + j] == this[j] by {
            assert(s.subrange(here, next)[j] == this[j]);
        }
        assert(parts.subrange(i, parts.len() as int) =~= seq![parts[i]] + parts.subrange(
            i + 1,
            parts.len() as int,
        ));
        if i + 1 < parts.len() {
            lemma_piece_at(parts, i + 1);
            let after = piece(parts, i + 1);
            assert(s[next] == after[0]) by {
                assert(s.subrange(next, offset(parts, i + 2) as int)[0] == after[0]);
                if parts[i] is Expression || parts[i + 1] is Expression {
                    lemma_next_piece(parts, i + 1);
                }
            }
            if parts[i + 1] is Expression {
                lemma_next_piece(parts, i + 1);
                assert(s[next + 1] == after[1]) by {
                    assert(s.subrange(next, offset(parts, i + 2) as int)[1] == after[1]);
                }
            }
        }
        match parts[i] {
            TextPartModel::Text(text) => {
                if i + 1 < parts.len() {
                    assert(parts[i + 1] is Expression);
                    lemma_next_piece(parts, i + 1);
                    assert(placeholder_at(s, next));
                }
                assert forall|j: int| here <= j < next implies !placeholder_at(s, j) by {
                    assert(s[j] == text[j - here]);
                    if j + 1 < next {
                        assert(s[j + 1] == text[j + 1 - here]);
                        assert(!placeholder_at(text, j - here));
                    }
                }
                lemma_literal_exact(s, here + 1, next);
                assert(s.subrange(here, next) == text);
            },
            TextPartModel::Expression(e) => {
                let k = captures(parts.subrange(0, i + 1)).len();
                let digits = digits_of(k);
                lemma_digits_of(k);
                assert(this =~= seq!['$'] + digits);
                assert(s[here] == this[0]);
                assert(s[here + 1] == this[1]);
                assert(placeholder_at(s, here));
                assert forall|j: int| here + 2 <= j < next implies in_class(
                    CharClass::Digit,
                    #[trigger] s[j],
                ) by {
                    assert(s[j] == this[j - here]);
                    assert(this[j - here] == digits[j - here - 1]);
                }
                if i + 1 < parts.len() {
                    lemma_next_piece(parts, i + 1);
                }
                lemma_run_exact(s, here + 2, next, CharClass::Digit);
                assert(s.subrange(here + 1, next) =~= digits) by {
                    assert(next - here - 1 == digits.len());
                    assert forall|j: int| 0 <= j < digits.len() implies s.subrange(
                        here + 1,
                        next,
                    )[j] == digits[j] by {
                        assert(s[here + (j + 1)] == this[j + 1]);
                        assert(this[j + 1] == digits[j]);
                    }
                }
                lemma_flatten_prefix(parts, i + 1);
                let head = parts.subrange(0, i + 1);
                assert(head.drop_last() =~= parts.subrange(0, i));
                assert(head.last() == parts[i]);
                assert(captures(head).last() == e);
                assert(exprs.subrange(0, k as int)[k - 1] == e);
            },
        }
    }
}

/// A text that reads back is what its one-string form, taken as its own
/// translation, is parsed to.
pub proof fn lemma_reads_back(parts: Seq<TextPartModel>, unit: Seq<char>)
    requires
        reads_back(parts),
    ensures
        spec_p_dialogue(flatten(parts), captures(parts), unit) == Ok::<
            Seq<TextPartModel>,
            LocalizationErrorModel,
        >(parts),
{
    lemma_tokens_of_flatten(parts, 0, unit);
    lemma_piece_at(parts, 0);
    assert(parts.subrange(0, 0) =~= Seq::<TextPartModel>::empty());
    assert(parts.subrange(0, parts.len() as int) =~= parts);
    match parts[0] {
        TextPartModel::Text(text) => {},
        TextPartModel::Expression(_) => {
            lemma_digits_of(captures(parts.subrange(0, 1)).len());
        },
    }
}

/// Where each text is its own translation, the translations of a list of
/// texts are the list.
pub proof fn lemma_translate_units_identity(
    units: Seq<Seq<TextPartModel>>,
    catalog: Seq<EntryModel>,
    scene: Seq<char>,
)
    requires
        forall|k: int|
            0 <= k < units.len() ==> spec_r_dialogue(
                #[trigger] units[k],
                catalog,
                key_of(scene, k as nat),
            ) == Ok::<Seq<TextPartModel>, LocalizationErrorModel>(units[k]),
    ensures
        spec_translate_units(units, catalog, scene) == Ok::<
            Seq<Seq<TextPartModel>>,
            LocalizationErrorModel,
        >(units),
    decreases units.len(),
{
    if units.len() > 0 {
        assert forall|k: int| 0 <= k < units.drop_last().len() implies spec_r_dialogue(
            #[trigger] units.drop_last()[k],
            catalog,
            key_of(scene, k as nat),
        ) == Ok::<Seq<TextPartModel>, LocalizationErrorModel>(units.drop_last()[k]) by {
            assert(units.drop_last()[k] == units[k]);
        }
        lemma_translate_units_identity(units.drop_last(), catalog, scene);
        assert(units.last() == units[units.len() - 1]);
        assert(units.drop_last().push(units.last()) =~= units);
    } else {
        assert(units =~= Seq::empty());
    }
}

/// The texts of the item with the number `i` stand in the texts of the
/// block behind those of the items before it.
pub proof fn lemma_units_of_parts_at(v: Seq<ScenePartModel>, i: int)
    requires
        0 <= i < v.len(),
    ensures
        units_of_parts(v.subrange(0, i)).len() + units_of_part(v[i]).len() <= units_of_parts(
            v,
        ).len(),
        units_of_parts(v).subrange(
            units_of_parts(v.subrange(0, i)).len() as int,
            (units_of_parts(v.subrange(0, i)).len() + units_of_part(v[i]).len()) as int,
        ) == units_of_part(v[i]),
    decreases v.len(),
{
    let start = units_of_parts(v.subrange(0, i)).len() as int;
    let n = units_of_part(v[i]).len() as int;
    if i == v.len() - 1 {
        assert(v.subrange(0, i) =~= v.drop_last());
        assert(units_of_parts(v).subrange(start, start + n) =~= units_of_part(v[i]));
    } else {
        lemma_units_of_parts_at(v.drop_last(), i);
        assert(v.drop_last().subrange(0, i) =~= v.subrange(0, i));
        assert(units_of_parts(v).subrange(start, start + n) =~= units_of_parts(
            v.drop_last(),
        ).subrange(start, start + n));
    }
}

/// The texts of the option with the number `i` stand in the texts of the
/// options behind those of the options before it.
pub proof fn lemma_units_of_options_at(v: Seq<PromptOptionModel>, i: int)
    requires
        0 <= i < v.len(),
    ensures
        units_of_options(v.subrange(0, i)).len() + units_of_option(v[i]).len()
            <= units_of_options(v).len(),
        units_of_options(v).subrange(
            units_of_options(v.subrange(0, i)).len() as int,
            (units_of_options(v.subrange(0, i)).len() + units_of_option(v[i]).len()) as int,
        ) == units_of_option(v[i]),
    decreases v.len(),
{
    let start = units_of_options(v.subrange(0, i)).len() as int;
    let n = units_of_option(v[i]).len() as int;
    if i == v.len() - 1 {
        assert(v.subrange(0, i) =~= v.drop_last());
        assert(units_of_options(v).subrange(start, start + n) =~= units_of_option(v[i]));
    } else {
        lemma_units_of_options_at(v.drop_last(), i);
        assert(v.drop_last().subrange(0, i) =~= v.subrange(0, i));
        assert(units_of_options(v).subrange(start, start + n) =~= units_of_options(
            v.drop_last(),
        ).subrange(start, start + n));
    }
}

/// An item whose texts are replaced by themselves stays as it is.
pub proof fn lemma_replaced_part(p: ScenePartModel, texts: Seq<Seq<TextPartModel>>, from: int)
    requires
        0 <= from,
        from + units_of_part(p).len() <= texts.len(),
        texts.subrange(from, from + units_of_part(p).len()) == units_of_part(p),
    ensures
        replaced_part(p, texts, from) == p,
    decreases p,
{
    let units = units_of_part(p);
    match p {
        ScenePartModel::Dialogue(parts) => {
            assert(texts.subrange(from, from + 1)[0] == units[0]);
        },
        ScenePartModel::Narration(parts) => {
            assert(texts.subrange(from, from + 1)[0] == units[0]);
        },
        ScenePartModel::Prompt(prompt) => {
            let rest = units_of_options(prompt.options);
            match prompt.text {
                Some(lead_in) => {
                    assert(texts.subrange(from, from + units.len())[0] == units[0]);
                    assert(texts.subrange(from + 1, from + 1 + rest.len()) =~= rest) by {
                        assert forall|k: int| 0 <= k < rest.len() implies texts[from + 1 + k]
                            == rest[k] by {
                            assert(texts.subrange(from, from + units.len())[k + 1] == units[k
                                + 1]);
                        }
                    }
                    lemma_replaced_options(prompt.options, texts, from + 1);
                },
                None => {
                    assert(units =~= rest);
                    lemma_replaced_options(prompt.options, texts, from);
                },
            }
        },
        _ => {},
    }
}

/// Options whose texts are replaced by themselves stay as they are.
pub proof fn lemma_replaced_options(
    v: Seq<PromptOptionModel>,
    texts: Seq<Seq<TextPartModel>>,
    from: int,
)
    requires
        0 <= from,
        from + units_of_options(v).len() <= texts.len(),
        texts.subrange(from, from + units_of_options(v).len()) == units_of_options(v),
    ensures
        replaced_options(v, texts, from) == v,
    decreases v,
{
    let all = units_of_options(v);
    assert forall|i: int| 0 <= i < v.len() implies replaced_option(
        v[i],
        texts,
        from + units_of_options(v.subrange(0, i)).len(),
    ) == v[i] by {
        lemma_units_of_options_at(v, i);
        let start = units_of_options(v.subrange(0, i)).len() as int;
        let own = units_of_option(v[i]);
        let inner = units_of_parts(v[i].content);
        assert(own.len() == 1 + inner.len());
        assert forall|k: int| 0 <= k < own.len() implies texts[from + start + k] == own[k] by {
            assert(texts.subrange(from, from + all.len())[start + k] == all[start + k]);
            assert(all.subrange(start, start + own.len())[k] == own[k]);
        }
        assert(texts[from + start] == own[0]);
        assert(texts.subrange(from + start + 1, from + start + 1 + inner.len()) =~= inner) by {
            assert forall|k: int| 0 <= k < inner.len() implies texts[from + start + 1 + k]
                == inner[k] by {
                assert(texts[from + start + (k + 1)] == own[k + 1]);
            }
        }
        lemma_replaced_parts(v[i].content, texts, from + start + 1);
    }
    assert(replaced_options(v, texts, from) =~= v);
}

/// Items whose texts are replaced by themselves stay as they are.
pub proof fn lemma_replaced_parts(
    v: Seq<ScenePartModel>,
    texts: Seq<Seq<TextPartModel>>,
    from: int,
)
    requires
        0 <= from,
        from + units_of_parts(v).len() <= texts.len(),
        texts.subrange(from, from + units_of_parts(v).len()) == units_of_parts(v),
    ensures
        replaced_parts(v, texts, from) == v,
    decreases v,
{
    let all = units_of_parts(v);
    assert forall|i: int| 0 <= i < v.len() implies replaced_part(
        v[i],
        texts,
        from + units_of_parts(v.subrange(0, i)).len(),
    ) == v[i] by {
        lemma_units_of_parts_at(v, i);
        let start = units_of_parts(v.subrange(0, i)).len() as int;
        let own = units_of_part(v[i]);
        assert(texts.subrange(from + start, from + start + own.len()) =~= own) by {
            assert forall|k: int| 0 <= k < own.len() implies texts[from + start + k]
                == own[k] by {
                assert(texts.subrange(from, from + all.len())[start + k] == all[start + k]);
                assert(all.subrange(start, start + own.len())[k] == own[k]);
            }
        }
        lemma_replaced_part(v[i], texts, from + start);
    }
    assert(replaced_parts(v, texts, from) =~= v);
}

/// The text with the number `k` of the scene with the number `j`.
pub open spec fn unit_at(scenes: Seq<SceneModel>, j: int, k: int) -> Seq<TextPartModel> {
    units_of_parts(scenes[j].content)[k]
}

/// Whether `catalog` holds, under the key of the text with the number `k`
/// of the scene with the number `j`, that text as one string.
pub open spec fn holds_text(
    scenes: Seq<SceneModel>,
    catalog: Seq<EntryModel>,
    j: int,
    k: int,
) -> bool {
    &&& spec_find(catalog, key_of(scenes[j].name, k as nat)) is Some
    &&& spec_find(catalog, key_of(scenes[j].name, k as nat))->0.body == Some(
        flatten(unit_at(scenes, j, k)),
    )
}

/// Whether `catalog` is an identity translation of the scenes: under the
/// key of each of their texts it holds the text as one string.
pub open spec fn is_identity_catalog(scenes: Seq<SceneModel>, catalog: Seq<EntryModel>) -> bool {
    forall|j: int, k: int|
        0 <= j < scenes.len() && 0 <= k < units_of_parts(scenes[j].content).len()
            ==> #[trigger] holds_text(scenes, catalog, j, k)
}

/// Whether every text of the scenes reads back from its one-string form.
pub open spec fn all_read_back(scenes: Seq<SceneModel>) -> bool {
    forall|j: int, k: int|
        0 <= j < scenes.len() && 0 <= k < units_of_parts(scenes[j].content).len() ==> reads_back(
            #[trigger] unit_at(scenes, j, k),
        )
}

/// Putting an identity translation into a script whose texts read back
/// gives the script.
pub proof fn lemma_identity_translation(scenes: Seq<SceneModel>, catalog: Seq<EntryModel>)
    requires
        is_identity_catalog(scenes, catalog),
        all_read_back(scenes),
    ensures
        spec_r_script(scenes, catalog) == Ok::<Seq<SceneModel>, LocalizationErrorModel>(scenes),
    decreases scenes.len(),
{
    if scenes.len() == 0 {
        assert(scenes =~= Seq::empty());
    } else {
        let before = scenes.drop_last();
        let j = scenes.len() - 1;
        let scene = scenes.last();
        assert(is_identity_catalog(before, catalog)) by {
            assert forall|a: int, k: int|
                0 <= a < before.len() && 0 <= k < units_of_parts(
                    before[a].content,
                ).len() implies #[trigger] holds_text(before, catalog, a, k) by {
                assert(before[a] == scenes[a]);
                assert(holds_text(scenes, catalog, a, k));
            }
        }
        assert(all_read_back(before)) by {
            assert forall|a: int, k: int|
                0 <= a < before.len() && 0 <= k < units_of_parts(
                    before[a].content,
                ).len() implies reads_back(#[trigger] unit_at(before, a, k)) by {
                assert(before[a] == scenes[a]);
                assert(unit_at(before, a, k) == unit_at(scenes, a, k));
            }
        }
        lemma_identity_translation(before, catalog);
        let units = units_of_parts(scene.content);
        assert forall|k: int| 0 <= k < units.len() implies spec_r_dialogue(
            #[trigger] units[k],
            catalog,
            key_of(scene.name, k as nat),
        ) == Ok::<Seq<TextPartModel>, LocalizationErrorModel>(units[k]) by {
            assert(units[k] == unit_at(scenes, j, k));
            assert(holds_text(scenes, catalog, j, k));
            lemma_reads_back(units[k], key_of(scene.name, k as nat));
        }
        lemma_translate_units_identity(units, catalog, scene.name);
        assert(units.subrange(0, units.len() as int) =~= units);
        lemma_replaced_parts(scene.content, units, 0);
        assert(before.push(scene) =~= scenes);
    }
}

/// Extraction, then putting the source catalog back: a script whose scenes
/// have names of their own and whose texts read back comes out as it went
/// in.
pub proof fn lemma_extract_then_reinject(scenes: Seq<SceneModel>)
    requires
        distinct_names(scenes),
        all_read_back(scenes),
    ensures
        spec_r_script(scenes, spec_source(scenes)) == Ok::<
            Seq<SceneModel>,
            LocalizationErrorModel,
        >(scenes),
{
    let catalog = spec_source(scenes);
    assert(is_identity_catalog(scenes, catalog)) by {
        assert forall|j: int, k: int|
            0 <= j < scenes.len() && 0 <= k < units_of_parts(
                scenes[j].content,
            ).len() implies #[trigger] holds_text(scenes, catalog, j, k) by {
            lemma_source_lookup(scenes, j, k);
        }
    }
    lemma_identity_translation(scenes, catalog);
}

} // verus!
