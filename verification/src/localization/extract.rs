use vstd::prelude::*;
use vstd::string::StringExecFns;
use crate::decimal::{digits_of, push_decimal};
use crate::localization::catalog::{spec_put, Catalog, EntryModel};
use crate::parser::ast::{
    expressions_model, lemma_expressions_push, lemma_strings_push, options_model, scene_parts_model,
    strings_view, text_parts_model, Expression, ExpressionModel, Module, PromptOption,
    PromptOptionModel, SceneModel, ScenePart, ScenePartModel, TextPart, TextPartModel,
};

verus! {

/// The expressions of a text, in the order in which they stand in it.
pub open spec fn captures(parts: Seq<TextPartModel>) -> Seq<ExpressionModel>
    decreases parts.len(),
{
    if parts.len() == 0 {
        Seq::empty()
    } else {
        match parts.last() {
            TextPartModel::Text(_) => captures(parts.drop_last()),
            TextPartModel::Expression(e) => captures(parts.drop_last()).push(e),
        }
    }
}

/// The token that stands for the `n`th expression of a text: `$` and the
/// number in decimal digits.
pub open spec fn placeholder(n: nat) -> Seq<char> {
    seq!['$'] + digits_of(n)
}

/// A text as one string: its fragments as they stand, and for its
/// expressions the placeholders `$1`, `$2` and so on, in their order.
pub open spec fn flatten(parts: Seq<TextPartModel>) -> Seq<char>
    decreases parts.len(),
{
    if parts.len() == 0 {
        Seq::empty()
    } else {
        flatten(parts.drop_last()) + (match parts.last() {
            TextPartModel::Text(text) => text,
            TextPartModel::Expression(_) => placeholder(captures(parts).len()),
        })
    }
}

/// The texts that an item of a block carries, in the order of the walk:
/// that of dialogue or narration; for a prompt its lead-in, then for each
/// option its label and, behind it, the texts of its items.
pub open spec fn units_of_part(p: ScenePartModel) -> Seq<Seq<TextPartModel>>
    decreases p,
{
    match p {
        ScenePartModel::Dialogue(parts) => seq![parts],
        ScenePartModel::Narration(parts) => seq![parts],
        ScenePartModel::Prompt(prompt) => (match prompt.text {
            Some(parts) => seq![parts],
            None => Seq::empty(),
        }) + units_of_options(prompt.options),
        _ => Seq::empty(),
    }
}

/// The texts of the items of a block, in the order of the items.
pub open spec fn units_of_parts(v: Seq<ScenePartModel>) -> Seq<Seq<TextPartModel>>
    decreases v,
{
    if v.len() == 0 {
        Seq::empty()
    } else {
        units_of_parts(v.drop_last()) + units_of_part(v.last())
    }
}

/// The texts of an option: its label, then those of its items.
pub open spec fn units_of_option(o: PromptOptionModel) -> Seq<Seq<TextPartModel>>
    decreases o,
{
    seq![o.text] + units_of_parts(o.content)
}

/// The texts of the options of a prompt, in the order of the options.
pub open spec fn units_of_options(v: Seq<PromptOptionModel>) -> Seq<Seq<TextPartModel>>
    decreases v,
{
    if v.len() == 0 {
        Seq::empty()
    } else {
        units_of_options(v.drop_last()) + units_of_option(v.last())
    }
}

/// Each text as one string.
pub open spec fn flattened(units: Seq<Seq<TextPartModel>>) -> Seq<Seq<char>> {
    Seq::new(units.len(), |i: int| flatten(units[i]))
}

/// The key of the text with the number `index` in the scene `scene`.
pub open spec fn key_of(scene: Seq<char>, index: nat) -> Seq<char> {
    scene + seq!['.'] + digits_of(index)
}

/// The note that a template entry carries: it names the scene.
pub open spec fn context_of(scene: Seq<char>) -> Seq<char> {
    "Translation file for "@ + scene + seq!['.']
}

/// The template entry of the text with the number `index` of a scene: its key
/// and the note on the scene, without text.
pub open spec fn template_entry(scene: Seq<char>, index: nat) -> EntryModel {
    EntryModel { key: key_of(scene, index), context: Some(context_of(scene)), body: None }
}

/// The source entry of the text with the number `index` of a scene: its key
/// and the text as one string.
pub open spec fn source_entry(scene: Seq<char>, index: nat, text: Seq<char>) -> EntryModel {
    EntryModel { key: key_of(scene, index), context: None, body: Some(text) }
}

/// `catalog` with a template entry put for each of the first `count` texts
/// of `scene`, in their order.
pub open spec fn add_templates(catalog: Seq<EntryModel>, scene: Seq<char>, count: nat) -> Seq<
    EntryModel,
>
    decreases count,
{
    if count == 0 {
        catalog
    } else {
        spec_put(
            add_templates(catalog, scene, (count - 1) as nat),
            template_entry(scene, (count - 1) as nat),
        )
    }
}

/// `catalog` with a source entry put for each of `texts`, the texts of
/// `scene` as strings, in their order.
pub open spec fn add_sources(catalog: Seq<EntryModel>, scene: Seq<char>, texts: Seq<Seq<char>>)
    -> Seq<EntryModel>
    decreases texts.len(),
{
    if texts.len() == 0 {
        catalog
    } else {
        spec_put(
            add_sources(catalog, scene, texts.drop_last()),
            source_entry(scene, (texts.len() - 1) as nat, texts.last()),
        )
    }
}

/// The template catalog of a script: for each scene, in order, an entry
/// without text for each of its texts.
pub open spec fn spec_template(scenes: Seq<SceneModel>) -> Seq<EntryModel>
    decreases scenes.len(),
{
    if scenes.len() == 0 {
        Seq::empty()
    } else {
        add_templates(
            spec_template(scenes.drop_last()),
            scenes.last().name,
            units_of_parts(scenes.last().content).len(),
        )
    }
}

/// The source catalog of a script: for each scene, in order, an entry for
/// each of its texts, with the text as one string.
pub open spec fn spec_source(scenes: Seq<SceneModel>) -> Seq<EntryModel>
    decreases scenes.len(),
{
    if scenes.len() == 0 {
        Seq::empty()
    } else {
        add_sources(
            spec_source(scenes.drop_last()),
            scenes.last().name,
            flattened(units_of_parts(scenes.last().content)),
        )
    }
}

/// The expressions of a text, copied, in their order.
pub fn capture(text_parts: &Vec<TextPart>) -> (r: Vec<Expression>)
    ensures
        expressions_model(r@) == captures(text_parts_model(text_parts@)),
{
    let mut out: Vec<Expression> = Vec::new();
    let mut i: usize = 0;
    let ghost parts = text_parts_model(text_parts@);
    proof {
        assert(expressions_model(out@) =~= captures(parts.subrange(0, 0)));
    }
    while i < text_parts.len()
        invariant
            i <= text_parts.len(),
            parts == text_parts_model(text_parts@),
            expressions_model(out@) == captures(parts.subrange(0, i as int)),
        decreases text_parts.len() - i,
    {
        proof {
            assert(parts.subrange(0, i + 1).drop_last() =~= parts.subrange(0, i as int));
            assert(parts.subrange(0, i + 1).last() == text_parts@[i as int]@);
        }
        match &text_parts[i] {
            TextPart::Text(_) => {},
            TextPart::Expression(e) => {
                let copy = e.clone();
                proof {
                    lemma_expressions_push(out@, copy);
                }
                out.push(copy);
            },
        }
        i += 1;
    }
    proof {
        assert(parts.subrange(0, i as int) =~= parts);
    }
    out
}

/// A text as one string, with placeholders for its expressions.
pub fn flatten_text(text_parts: &Vec<TextPart>) -> (r: String)
    ensures
        r@ == flatten(text_parts_model(text_parts@)),
{
    let mut out = String::new();
    let mut count: usize = 0;
    let mut i: usize = 0;
    let ghost parts = text_parts_model(text_parts@);
    proof {
        assert(parts.subrange(0, 0) =~= Seq::<TextPartModel>::empty());
    }
    while i < text_parts.len()
        invariant
            i <= text_parts.len(),
            parts == text_parts_model(text_parts@),
            out@ == flatten(parts.subrange(0, i as int)),
            count == captures(parts.subrange(0, i as int)).len(),
            count <= i,
        decreases text_parts.len() - i,
    {
        proof {
            assert(parts.subrange(0, i + 1).drop_last() =~= parts.subrange(0, i as int));
            assert(parts.subrange(0, i + 1).last() == text_parts@[i as int]@);
        }
        match &text_parts[i] {
            TextPart::Text(text) => {
                out.append(text.as_str());
            },
            TextPart::Expression(_) => {
                count += 1;
                let ghost before = out@;
                out.push('$');
                push_decimal(count as u64, &mut out);
                proof {
                    assert(out@ =~= before + placeholder(count as nat));
                }
            },
        }
        i += 1;
    }
    proof {
        assert(parts.subrange(0, i as int) =~= parts);
    }
    out
}

/// Appends to `strings` the text of a unit as one string.
pub fn x_dialogue(strings: &mut Vec<String>, text_parts: &Vec<TextPart>)
    ensures
        strings_view(final(strings)@) == strings_view(old(strings)@).push(
            flatten(text_parts_model(text_parts@)),
        ),
{
    let text = flatten_text(text_parts);
    proof {
        lemma_strings_push(strings@, text);
    }
    strings.push(text);
}

/// Appends to `strings` the texts that `scene_part` carries, each as one
/// string, in the order of the walk.
pub fn x_scene_part(strings: &mut Vec<String>, scene_part: &ScenePart)
    ensures
        strings_view(final(strings)@) == strings_view(old(strings)@) + flattened(
            units_of_part(scene_part@),
        ),
    decreases scene_part,
{
    match scene_part {
        ScenePart::Dialogue(dialogue) => {
            x_dialogue(strings, &dialogue.parts);
            proof {
                assert(strings_view(strings@) =~= strings_view(old(strings)@) + flattened(
                    units_of_part(scene_part@),
                ));
            }
        },
        ScenePart::Narration(narration) => {
            x_dialogue(strings, &narration.parts);
            proof {
                assert(strings_view(strings@) =~= strings_view(old(strings)@) + flattened(
                    units_of_part(scene_part@),
                ));
            }
        },
        ScenePart::Prompt(prompt) => {
            match &prompt.text {
                Some(parts) => {
                    x_dialogue(strings, parts);
                },
                None => {},
            }
            x_options(strings, &prompt.options);
            proof {
                assert(strings_view(strings@) =~= strings_view(old(strings)@) + flattened(
                    units_of_part(scene_part@),
                ));
            }
        },
        ScenePart::SpeakerChangeMarker(_) => {
            proof {
                assert(strings_view(strings@) =~= strings_view(old(strings)@) + flattened(
                    units_of_part(scene_part@),
                ));
            }
        },
        ScenePart::Expression(_) => {
            proof {
                assert(strings_view(strings@) =~= strings_view(old(strings)@) + flattened(
                    units_of_part(scene_part@),
                ));
            }
        },
        ScenePart::Comment(_) => {
            proof {
                assert(strings_view(strings@) =~= strings_view(old(strings)@) + flattened(
                    units_of_part(scene_part@),
                ));
            }
        },
    }
}

/// The strings of two lists of texts one after the other are the strings of
/// each.
pub proof fn lemma_flattened_add(a: Seq<Seq<TextPartModel>>, b: Seq<Seq<TextPartModel>>)
    ensures
        flattened(a + b) == flattened(a) + flattened(b),
{
    assert(flattened(a + b) =~= flattened(a) + flattened(b));
}

/// Appends to `strings` the texts of the options of a prompt.
pub fn x_options(strings: &mut Vec<String>, options: &Vec<PromptOption>)
    ensures
        strings_view(final(strings)@) == strings_view(old(strings)@) + flattened(
            units_of_options(options_model(options@)),
        ),
    decreases options,
{
    let mut i: usize = 0;
    let ghost models = options_model(options@);
    proof {
        assert(strings_view(strings@) =~= strings_view(old(strings)@) + flattened(
            units_of_options(models.subrange(0, 0)),
        ));
    }
    while i < options.len()
        invariant
            i <= options.len(),
            models == options_model(options@),
            strings_view(strings@) == strings_view(old(strings)@) + flattened(
                units_of_options(models.subrange(0, i as int)),
            ),
        decreases options.len() - i,
    {
        x_dialogue(strings, &options[i].text);
        x_scene_parts(strings, &options[i].content);
        proof {
            let done = units_of_options(models.subrange(0, i as int));
            let more = units_of_option(options@[i as int]@);
            assert(models.subrange(0, i + 1).drop_last() =~= models.subrange(0, i as int));
            assert(models.subrange(0, i + 1).last() == options@[i as int]@);
            lemma_flattened_add(done, more);
            lemma_flattened_add(
                seq![options@[i as int]@.text],
                units_of_parts(options@[i as int]@.content),
            );
            assert(flattened(seq![options@[i as int]@.text]) =~= seq![
                flatten(options@[i as int]@.text),
            ]);
            assert(strings_view(strings@) =~= strings_view(old(strings)@) + (flattened(done)
                + flattened(more)));
        }
        i += 1;
    }
    proof {
        assert(models.subrange(0, i as int) =~= models);
    }
}

/// Appends to `strings` the texts of the items of a block.
pub fn x_scene_parts(strings: &mut Vec<String>, content: &Vec<ScenePart>)
    ensures
        strings_view(final(strings)@) == strings_view(old(strings)@) + flattened(
            units_of_parts(scene_parts_model(content@)),
        ),
    decreases content,
{
    let mut i: usize = 0;
    let ghost models = scene_parts_model(content@);
    proof {
        assert(strings_view(strings@) =~= strings_view(old(strings)@) + flattened(
            units_of_parts(models.subrange(0, 0)),
        ));
    }
    while i < content.len()
        invariant
            i <= content.len(),
            models == scene_parts_model(content@),
            strings_view(strings@) == strings_view(old(strings)@) + flattened(
                units_of_parts(models.subrange(0, i as int)),
            ),
        decreases content.len() - i,
    {
        x_scene_part(strings, &content[i]);
        proof {
            let done = units_of_parts(models.subrange(0, i as int));
            let more = units_of_part(content@[i as int]@);
            assert(models.subrange(0, i + 1).drop_last() =~= models.subrange(0, i as int));
            assert(models.subrange(0, i + 1).last() == content@[i as int]@);
            lemma_flattened_add(done, more);
            assert(strings_view(strings@) =~= strings_view(old(strings)@) + (flattened(done)
                + flattened(more)));
        }
        i += 1;
    }
    proof {
        assert(models.subrange(0, i as int) =~= models);
    }
}

/// The key of the text with the number `index` in the scene `scene`.
pub fn key_for(scene: &str, index: usize) -> (r: String)
    ensures
        r@ == key_of(scene@, index as nat),
{
    let mut key = scene.to_owned();
    key.push('.');
    push_decimal(index as u64, &mut key);
    proof {
        assert(key@ =~= key_of(scene@, index as nat));
    }
    key
}

/// The note of the template entries of the scene `scene`.
pub fn context_for(scene: &str) -> (r: String)
    ensures
        r@ == context_of(scene@),
{
    let mut note = "Translation file for ".to_owned();
    note.append(scene);
    note.push('.');
    proof {
        assert(note@ =~= context_of(scene@));
    }
    note
}

/// Extracts the texts of a script: the template catalog, whose entries
/// carry no text, and the source catalog, whose entries carry the texts as
/// they stand in the script.
pub fn x_script(script: &Module) -> (r: (Catalog, Catalog))
    ensures
        r.0@ == spec_template(script@.scenes),
        r.1@ == spec_source(script@.scenes),
{
    let mut template = Catalog::new();
    let mut source = Catalog::new();
    let mut i: usize = 0;
    let ghost scenes = script@.scenes;
    proof {
        assert(scenes.subrange(0, 0) =~= Seq::<SceneModel>::empty());
    }
    while i < script.scenes.len()
        invariant
            i <= script.scenes.len(),
            scenes == script@.scenes,
            scenes.len() == script.scenes.len(),
            template@ == spec_template(scenes.subrange(0, i as int)),
            source@ == spec_source(scenes.subrange(0, i as int)),
        decreases script.scenes.len() - i,
    {
        let scene = &script.scenes[i];
        let mut scene_strings: Vec<String> = Vec::new();
        proof {
            assert(strings_view(scene_strings@) =~= Seq::<Seq<char>>::empty());
        }
        x_scene_parts(&mut scene_strings, &scene.content);
        let ghost texts = flattened(units_of_parts(scene@.content));
        let ghost template_before = template@;
        let ghost source_before = source@;
        proof {
            assert(strings_view(scene_strings@) =~= texts);
            assert(scenes.subrange(0, i + 1).drop_last() =~= scenes.subrange(0, i as int));
            assert(scenes.subrange(0, i + 1).last() == scene@);
            assert(texts.subrange(0, 0) =~= Seq::<Seq<char>>::empty());
        }
        let mut idx: usize = 0;
        while idx < scene_strings.len()
            invariant
                idx <= scene_strings.len(),
                strings_view(scene_strings@) == texts,
                texts.len() == scene_strings.len(),
                template@ == add_templates(template_before, scene.name@, idx as nat),
                source@ == add_sources(source_before, scene.name@, texts.subrange(0, idx as int)),
            decreases scene_strings.len() - idx,
        {
            proof {
                assert(texts.subrange(0, idx + 1).drop_last() =~= texts.subrange(0, idx as int));
                assert(texts.subrange(0, idx + 1).last() == scene_strings@[idx as int]@);
            }
            template.insert_or_update(
                key_for(scene.name.as_str(), idx),
                Some(context_for(scene.name.as_str())),
                None,
            );
            source.insert_or_update(
                key_for(scene.name.as_str(), idx),
                None,
                Some(scene_strings[idx].clone()),
            );
            idx += 1;
        }
        proof {
            assert(texts.subrange(0, idx as int) =~= texts);
        }
        i += 1;
    }
    proof {
        assert(scenes.subrange(0, i as int) =~= scenes);
    }
    (template, source)
}

} // verus!
