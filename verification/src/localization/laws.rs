use vstd::prelude::*;
use crate::decimal::{digits_of, lemma_digits_of};
use crate::localization::catalog::{lemma_find_after_put, spec_find, EntryModel};
use crate::localization::extract::{
    add_sources, captures, flatten, flattened, key_of, placeholder, source_entry, spec_source,
    spec_template, units_of_option, units_of_options, units_of_part, units_of_parts,
};
use crate::localization::replace::{
    behind, lemma_units_of_options_prefix, literal_len, placeholder_at, spec_p_dialogue,
    spec_r_dialogue, spec_tokens, LocalizationErrorModel, Translated,
};
use crate::parser::ast::{
    ExpressionModel, Module, PromptModel, PromptOptionModel, SceneModel, ScenePartModel,
    TextPartModel,
};
use crate::parser::grammar::decimal_value;
use crate::parser::scan::{in_class, is_digit, lemma_run, run, CharClass};

verus! {

/// Extraction is determined by the script: two scripts of the same value
/// have the same texts, in the same order, with the same expressions, and so
/// the same template and source catalogs.
pub proof fn lemma_extraction_is_determined(first: Module, second: Module)
    requires
        first@ == second@,
    ensures
        spec_template(first@.scenes) == spec_template(second@.scenes),
        spec_source(first@.scenes) == spec_source(second@.scenes),
        forall|i: int|
            0 <= i < first@.scenes.len() ==> units_of_parts(
                (#[trigger] first@.scenes[i]).content,
            ) == units_of_parts(second@.scenes[i].content),
{
}

/// The walk of a prompt with a lead-in and two options: the lead-in, then
/// the label of the first option, the texts of its items, the label of the
/// second option, the texts of its items.
pub proof fn lemma_branching_order(
    lead_in: Seq<TextPartModel>,
    first: PromptOptionModel,
    second: PromptOptionModel,
)
    ensures
        units_of_part(
            ScenePartModel::Prompt(
                PromptModel { text: Some(lead_in), options: seq![first, second] },
            ),
        ) == seq![lead_in] + seq![first.text] + units_of_parts(first.content) + seq![second.text]
            + units_of_parts(second.content),
{
    let options = seq![first, second];
    assert(options.drop_last() =~= seq![first]);
    assert(options.drop_last().drop_last() =~= Seq::<PromptOptionModel>::empty());
    assert(units_of_options(options.drop_last().drop_last()) =~= Seq::empty());
    assert(units_of_options(options.drop_last()) =~= units_of_option(first));
    assert(units_of_options(options) =~= units_of_option(first) + units_of_option(second));
    assert(seq![lead_in] + (units_of_option(first) + units_of_option(second)) =~= seq![lead_in]
        + seq![first.text] + units_of_parts(first.content) + seq![second.text] + units_of_parts(
        second.content,
    ));
}

/// The label of an option comes first among its texts, and the texts of an
/// option come behind those of the options before it.
pub proof fn lemma_option_label_first(options: Seq<PromptOptionModel>, i: int)
    requires
        0 <= i < options.len(),
    ensures
        units_of_options(options.subrange(0, i + 1)) == units_of_options(options.subrange(0, i))
            + seq![options[i].text] + units_of_parts(options[i].content),
{
    lemma_units_of_options_prefix(options, i);
    assert(units_of_options(options.subrange(0, i)) + (seq![options[i].text] + units_of_parts(
        options[i].content,
    )) =~= units_of_options(options.subrange(0, i)) + seq![options[i].text] + units_of_parts(
        options[i].content,
    ));
}

/// A key tells its scene and its number: two keys are the same only where
/// both are.
pub proof fn lemma_key_injective(a: Seq<char>, m: nat, b: Seq<char>, n: nat)
    requires
        key_of(a, m) == key_of(b, n),
    ensures
        a == b,
        m == n,
{
    let da = digits_of(m);
    let db = digits_of(n);
    lemma_digits_of(m);
    lemma_digits_of(n);
    let s = key_of(a, m);
    assert(s.len() == a.len() + 1 + da.len());
    assert(s.len() == b.len() + 1 + db.len());
    if da.len() < db.len() {
        let i = a.len() as int;
        assert(s[i] == '.');
        assert(key_of(b, n)[i] == db[i - b.len() - 1]);
        assert(is_digit(db[i - b.len() - 1]));
    } else if db.len() < da.len() {
        let i = b.len() as int;
        assert(key_of(b, n)[i] == '.');
        assert(s[i] == da[i - a.len() - 1]);
        assert(is_digit(da[i - a.len() - 1]));
    } else {
        assert(a =~= b) by {
            assert forall|i: int| 0 <= i < a.len() implies a[i] == b[i] by {
                assert(s[i] == a[i]);
                assert(key_of(b, n)[i] == b[i]);
            }
        }
        assert(da =~= db) by {
            assert forall|i: int| 0 <= i < da.len() implies da[i] == db[i] by {
                assert(s[a.len() + 1 + i] == da[i]);
                assert(key_of(b, n)[b.len() + 1 + i] == db[i]);
            }
        }
    }
}

/// What a key finds after the texts of a scene were put into a catalog: the
/// entry of the text that the key belongs to, or else what it found before.
pub proof fn lemma_find_in_sources(
    catalog: Seq<EntryModel>,
    scene: Seq<char>,
    texts: Seq<Seq<char>>,
    key: Seq<char>,
)
    ensures
        forall|k: int|
            0 <= k < texts.len() && key == key_of(scene, k as nat) ==> spec_find(
                add_sources(catalog, scene, texts),
                key,
            ) == Some(source_entry(scene, k as nat, #[trigger] texts[k])),
        (forall|k: int| 0 <= k < texts.len() ==> key != #[trigger] key_of(scene, k as nat))
            ==> spec_find(add_sources(catalog, scene, texts), key) == spec_find(catalog, key),
    decreases texts.len(),
{
    if texts.len() > 0 {
        let before = add_sources(catalog, scene, texts.drop_last());
        let last = (texts.len() - 1) as nat;
        let entry = source_entry(scene, last, texts.last());
        lemma_find_in_sources(catalog, scene, texts.drop_last(), key);
        lemma_find_after_put(before, entry, key);
        assert forall|k: int|
            0 <= k < texts.len() && key == key_of(scene, k as nat) implies spec_find(
            add_sources(catalog, scene, texts),
            key,
        ) == Some(source_entry(scene, k as nat, #[trigger] texts[k])) by {
            if k < texts.len() - 1 {
                if key == entry.key {
                    lemma_key_injective(scene, k as nat, scene, last);
                }
                assert(texts.drop_last()[k] == texts[k]);
            }
        }
        if forall|k: int| 0 <= k < texts.len() ==> key != #[trigger] key_of(scene, k as nat) {
            assert(key != key_of(scene, last as int as nat));
            assert forall|k: int| 0 <= k < texts.len() - 1 implies key != #[trigger] key_of(
                scene,
                k as nat,
            ) by {}
        }
    }
}

/// Whether no two of the scenes have the same name.
pub open spec fn distinct_names(scenes: Seq<SceneModel>) -> bool {
    forall|i: int, j: int|
        0 <= i < j < scenes.len() ==> (#[trigger] scenes[i]).name != (#[trigger] scenes[j]).name
}

/// In the source catalog of a script whose scenes have names of their own,
/// the key with the number `k` of a scene finds the `k`th text of the walk
/// of that scene, counted from zero, as one string.
pub proof fn lemma_source_lookup(scenes: Seq<SceneModel>, j: int, k: int)
    requires
        distinct_names(scenes),
        0 <= j < scenes.len(),
        0 <= k < units_of_parts(scenes[j].content).len(),
    ensures
        spec_find(spec_source(scenes), key_of(scenes[j].name, k as nat)) == Some(
            source_entry(scenes[j].name, k as nat, flatten(units_of_parts(scenes[j].content)[k])),
        ),
    decreases scenes.len(),
{
    let last = scenes.last();
    let key = key_of(scenes[j].name, k as nat);
    let texts = flattened(units_of_parts(last.content));
    lemma_find_in_sources(spec_source(scenes.drop_last()), last.name, texts, key);
    if j == scenes.len() - 1 {
        assert(texts[k] == flatten(units_of_parts(last.content)[k]));
    } else {
        assert forall|i: int| 0 <= i < texts.len() implies key != #[trigger] key_of(
            last.name,
            i as nat,
        ) by {
            if key == key_of(last.name, i as nat) {
                lemma_key_injective(scenes[j].name, k as nat, last.name, i as nat);
                assert(scenes[j].name != scenes[scenes.len() - 1].name);
            }
        }
        assert(distinct_names(scenes.drop_last())) by {
            assert forall|a: int, b: int| 0 <= a < b < scenes.drop_last().len() implies (
            #[trigger] scenes.drop_last()[a]).name != (#[trigger] scenes.drop_last()[b]).name by {
                assert(scenes[a].name != scenes[b].name);
            }
        }
        assert(scenes.drop_last()[j] == scenes[j]);
        lemma_source_lookup(scenes.drop_last(), j, k);
    }
}

/// The number of the placeholder that starts at `pos`.
pub open spec fn placeholder_number(s: Seq<char>, pos: int) -> nat {
    decimal_value(s.subrange(pos + 1, pos + 2 + run(s, pos + 2, CharClass::Digit)))
}

/// Whether a failure is a placeholder out of range, for this unit and this
/// number of expressions.
pub open spec fn is_out_of_range(r: Translated, unit: Seq<char>, max: nat) -> bool {
    match r {
        Err(LocalizationErrorModel::PlaceholderIndexOutOfRange { unit: u, index: _, max: m }) => u
            == unit && m == max,
        _ => false,
    }
}

/// A literal run does not reach over the start of a placeholder.
pub proof fn lemma_literal_stops(s: Seq<char>, from: int, p: int)
    requires
        0 <= from <= p,
        placeholder_at(s, p),
    ensures
        from + literal_len(s, from) <= p,
    decreases p - from,
{
    if from < p && !placeholder_at(s, from) {
        lemma_literal_stops(s, from + 1, p);
    }
}

/// Where a placeholder with a number out of range starts at `p`, the tokens
/// from any token start before it fail with a placeholder out of range.
pub proof fn lemma_tokens_out_of_range(
    s: Seq<char>,
    from: int,
    p: int,
    exprs: Seq<ExpressionModel>,
    unit: Seq<char>,
)
    requires
        0 <= from <= p,
        placeholder_at(s, p),
        placeholder_number(s, p) == 0 || placeholder_number(s, p) > exprs.len(),
    ensures
        is_out_of_range(spec_tokens(s, from, exprs, unit), unit, exprs.len()),
    decreases p - from,
{
    if from < p {
        if placeholder_at(s, from) {
            let d = 1 + run(s, from + 2, CharClass::Digit);
            lemma_run(s, from + 2, CharClass::Digit);
            if p < from + 1 + d {
                assert(in_class(CharClass::Digit, s[p]));
            }
            let n = decimal_value(s.subrange(from + 1, from + 1 + d));
            if !(n == 0 || n > exprs.len()) {
                lemma_tokens_out_of_range(s, from + 1 + d, p, exprs, unit);
            }
        } else {
            lemma_literal_stops(s, from + 1, p);
            lemma_tokens_out_of_range(s, from + 1 + literal_len(s, from + 1), p, exprs, unit);
        }
    }
}

/// A translated text that holds a placeholder whose number is zero or above
/// the number of expressions of the text in the script is refused, with a
/// placeholder out of range.
pub proof fn lemma_placeholder_bound(
    text: Seq<char>,
    p: int,
    exprs: Seq<ExpressionModel>,
    unit: Seq<char>,
)
    requires
        placeholder_at(text, p),
        placeholder_number(text, p) == 0 || placeholder_number(text, p) > exprs.len(),
    ensures
        is_out_of_range(spec_p_dialogue(text, exprs, unit), unit, exprs.len()),
{
    lemma_tokens_out_of_range(text, 0, p, exprs, unit);
}

/// Putting back a text whose translation in the catalog holds a placeholder
/// with a number above the number of its expressions fails with a
/// placeholder out of range.
pub proof fn lemma_reinject_placeholder_bound(
    parts: Seq<TextPartModel>,
    catalog: Seq<EntryModel>,
    key: Seq<char>,
    text: Seq<char>,
    p: int,
)
    requires
        spec_find(catalog, key) is Some,
        spec_find(catalog, key)->0.body == Some(text),
        placeholder_at(text, p),
        placeholder_number(text, p) > captures(parts).len(),
    ensures
        is_out_of_range(spec_r_dialogue(parts, catalog, key), key, captures(parts).len()),
{
    lemma_placeholder_bound(text, p, captures(parts), key);
}

} // verus!
