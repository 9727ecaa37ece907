use vstd::prelude::*;
use crate::localization::catalog::{spec_find, Catalog, EntryModel};
use crate::localization::extract::{
    capture, captures, key_for, key_of, units_of_option, units_of_options, units_of_part,
    units_of_parts,
};
use crate::parser::ast::{
    clone_fields, clone_text_parts, expressions_model, fields_list, lemma_options_push,
    lemma_scene_parts_push, lemma_scenes_push, lemma_text_parts_push, options_model,
    scene_parts_model, scenes_model, text_parts_model, Dialogue, Expression, ExpressionModel,
    Module, Narration, Prompt, PromptModel, PromptOption, PromptOptionModel, Scene, SceneModel,
    ScenePart, ScenePartModel, TextPart, TextPartModel,
};
use crate::parser::expression::{digit_of, lemma_decimal_value_grows};
use crate::parser::grammar::{decimal_value, remaining};
use crate::parser::scan::{
    at, is_at_class, is_digit, lemma_run, run, scan, slice_to_string, string_to_chars, CharClass,
};

verus! {

/// Why a translation could not be put into a script.
#[derive(Debug, PartialEq)]
pub enum LocalizationError {
    /// The catalog has no entry under the key.
    MissingTranslationKey { key: String },
    /// The entry under the key has no text.
    MissingMessageBody { key: String },
    /// The text of the entry under the key `unit` holds no token.
    PlaceholderParseError { unit: String, text: String },
    /// The text of the entry under the key `unit` has a placeholder with the
    /// number `index`, which is zero or above `max`, the number of
    /// expressions of the text in the script. A number above `usize::MAX` is
    /// reported as `usize::MAX`.
    PlaceholderIndexOutOfRange { unit: String, index: usize, max: usize },
}

/// Mathematical value of a [`LocalizationError`].
pub enum LocalizationErrorModel {
    MissingTranslationKey { key: Seq<char> },
    MissingMessageBody { key: Seq<char> },
    PlaceholderParseError { unit: Seq<char>, text: Seq<char> },
    PlaceholderIndexOutOfRange { unit: Seq<char>, index: nat, max: nat },
}

impl View for LocalizationError {
    type V = LocalizationErrorModel;

    open spec fn view(&self) -> LocalizationErrorModel {
        match self {
            LocalizationError::MissingTranslationKey { key } => {
                LocalizationErrorModel::MissingTranslationKey { key: key@ }
            },
            LocalizationError::MissingMessageBody { key } => {
                LocalizationErrorModel::MissingMessageBody { key: key@ }
            },
            LocalizationError::PlaceholderParseError { unit, text } => {
                LocalizationErrorModel::PlaceholderParseError { unit: unit@, text: text@ }
            },
            LocalizationError::PlaceholderIndexOutOfRange { unit, index, max } => {
                LocalizationErrorModel::PlaceholderIndexOutOfRange {
                    unit: unit@,
                    index: *index as nat,
                    max: *max as nat,
                }
            },
        }
    }
}

/// A translated text, or why there is none.
pub type Translated = Result<Seq<TextPartModel>, LocalizationErrorModel>;

/// Whether a placeholder starts at `pos`: a `$` with a digit behind it.
pub open spec fn placeholder_at(s: Seq<char>, pos: int) -> bool {
    at(s, pos, '$') && pos + 1 < s.len() && is_digit(s[pos + 1])
}

/// Length of the literal run at `pos`: the characters up to the next
/// placeholder or the end.
pub open spec fn literal_len(s: Seq<char>, pos: int) -> nat
    decreases remaining(s, pos),
{
    if 0 <= pos < s.len() && !placeholder_at(s, pos) {
        1 + literal_len(s, pos + 1)
    } else {
        0
    }
}

/// A number as an error reports it: itself, or `usize::MAX` where it is
/// above that.
pub open spec fn clipped(n: nat) -> nat {
    if n <= usize::MAX {
        n
    } else {
        usize::MAX as nat
    }
}

/// The tokens of a translated text from `pos` on: a placeholder is the
/// expression of its number among `exprs`, counted from one; a literal run
/// is a fragment. The first placeholder whose number is zero or above the
/// number of expressions makes the whole fail.
pub open spec fn spec_tokens(
    s: Seq<char>,
    pos: int,
    exprs: Seq<ExpressionModel>,
    unit: Seq<char>,
) -> Translated
    decreases remaining(s, pos),
{
    if pos < 0 || pos >= s.len() {
        Ok(Seq::empty())
    } else if placeholder_at(s, pos) {
        let d = 1 + run(s, pos + 2, CharClass::Digit);
        let n = decimal_value(s.subrange(pos + 1, pos + 1 + d));
        if n == 0 || n > exprs.len() {
            Err(
                LocalizationErrorModel::PlaceholderIndexOutOfRange {
                    unit,
                    index: clipped(n),
                    max: exprs.len(),
                },
            )
        } else {
            behind(
                seq![TextPartModel::Expression(exprs[n - 1])],
                spec_tokens(s, pos + 1 + d, exprs, unit),
            )
        }
    } else {
        let t = 1 + literal_len(s, pos + 1);
        behind(
            seq![TextPartModel::Text(s.subrange(pos, pos + t))],
            spec_tokens(s, pos + t, exprs, unit),
        )
    }
}

/// The parts of `rest` behind those of `done`.
pub open spec fn behind(done: Seq<TextPartModel>, rest: Translated) -> Translated {
    match rest {
        Ok(parts) => Ok(done + parts),
        Err(e) => Err(e),
    }
}

/// A translated text as parts: its tokens, of which it must have one.
pub open spec fn spec_p_dialogue(text: Seq<char>, exprs: Seq<ExpressionModel>, unit: Seq<char>)
    -> Translated {
    if text.len() == 0 {
        Err(LocalizationErrorModel::PlaceholderParseError { unit, text })
    } else {
        spec_tokens(text, 0, exprs, unit)
    }
}

/// The translation of a text: what the catalog holds under `key`, with the
/// expressions of the text in the places of the placeholders.
pub open spec fn spec_r_dialogue(
    parts: Seq<TextPartModel>,
    catalog: Seq<EntryModel>,
    key: Seq<char>,
) -> Translated {
    match spec_find(catalog, key) {
        None => Err(LocalizationErrorModel::MissingTranslationKey { key }),
        Some(entry) => match entry.body {
            None => Err(LocalizationErrorModel::MissingMessageBody { key }),
            Some(text) => spec_p_dialogue(text, captures(parts), key),
        },
    }
}

/// End of the literal run that starts at `pos`.
pub fn p_raw_text(text: &Vec<char>, pos: usize) -> (end: usize)
    requires
        pos <= text.len(),
    ensures
        end == pos + literal_len(text@, pos as int),
        pos <= end <= text.len(),
{
    let mut i: usize = pos;
    while i < text.len() && !(text[i] == '$' && is_at_class(text, i + 1, CharClass::Digit))
        invariant
            pos <= i <= text.len(),
            pos + literal_len(text@, pos as int) == i + literal_len(text@, i as int),
        decreases text.len() - i,
    {
        i += 1;
    }
    i
}

/// The number that the digits from `from` up to `to` stand for, where it
/// is no greater than `usize::MAX`.
pub fn placeholder_index(text: &Vec<char>, from: usize, to: usize) -> (r: Option<usize>)
    requires
        from <= to <= text.len(),
        forall|i: int| from <= i < to ==> is_digit(#[trigger] text@[i]),
    ensures
        match r {
            Some(n) => n == decimal_value(text@.subrange(from as int, to as int)),
            None => decimal_value(text@.subrange(from as int, to as int)) > usize::MAX,
        },
{
    let ghost digits = text@.subrange(from as int, to as int);
    let mut value: usize = 0;
    let mut i: usize = from;
    while i < to
        invariant
            from <= i <= to <= text.len(),
            digits == text@.subrange(from as int, to as int),
            forall|i: int| from <= i < to ==> is_digit(#[trigger] text@[i]),
            value == decimal_value(digits.subrange(0, i - from)),
        decreases to - i,
    {
        let d = digit_of(text[i]) as usize;
        proof {
            assert(digits.subrange(0, i + 1 - from).drop_last() =~= digits.subrange(
                0,
                i - from,
            ));
            assert(digits.subrange(0, i + 1 - from).last() == text@[i as int]);
            lemma_decimal_value_grows(digits, i + 1 - from);
        }
        if value > (usize::MAX - d) / 10 {
            return None;
        }
        value = value * 10 + d;
        i += 1;
    }
    proof {
        assert(digits.subrange(0, to - from) =~= digits);
    }
    Some(value)
}

/// The parts of a translated text. `unit` is the key that the text stands
/// under; the errors name it.
pub fn p_dialogue(text: &str, expressions: &Vec<Expression>, unit: &str) -> (r: Result<
    Vec<TextPart>,
    LocalizationError,
>)
    ensures
        match (r, spec_p_dialogue(text@, expressions_model(expressions@), unit@)) {
            (Ok(parts), Ok(m)) => text_parts_model(parts@) == m,
            (Err(e), Err(f)) => e@ == f,
            _ => false,
        },
{
    let chars = string_to_chars(text);
    if chars.len() == 0 {
        return Err(
            LocalizationError::PlaceholderParseError {
                unit: unit.to_owned(),
                text: text.to_owned(),
            },
        );
    }
    let ghost exprs = expressions_model(expressions@);
    let mut parts: Vec<TextPart> = Vec::new();
    let mut cur: usize = 0;
    proof {
        assert(text_parts_model(parts@) =~= Seq::empty());
        lemma_behind_nothing(spec_tokens(chars@, 0, exprs, unit@));
    }
    while cur < chars.len()
        invariant
            cur <= chars.len(),
            chars@ == text@,
            exprs == expressions_model(expressions@),
            spec_tokens(chars@, 0, exprs, unit@) == behind(
                text_parts_model(parts@),
                spec_tokens(chars@, cur as int, exprs, unit@),
            ),
        decreases chars.len() - cur,
    {
        let part;
        let end;
        if chars[cur] == '$' && is_at_class(&chars, cur + 1, CharClass::Digit) {
            end = scan(&chars, cur + 1, CharClass::Digit);
            proof {
                lemma_run(chars@, cur + 1, CharClass::Digit);
            }
            let index = match placeholder_index(&chars, cur + 1, end) {
                Some(n) => n,
                None => {
                    return Err(
                        LocalizationError::PlaceholderIndexOutOfRange {
                            unit: unit.to_owned(),
                            index: usize::MAX,
                            max: expressions.len(),
                        },
                    );
                },
            };
            if index == 0 || index > expressions.len() {
                return Err(
                    LocalizationError::PlaceholderIndexOutOfRange {
                        unit: unit.to_owned(),
                        index,
                        max: expressions.len(),
                    },
                );
            }
            part = TextPart::Expression(expressions[index - 1].clone());
        } else {
            end = p_raw_text(&chars, cur);
            part = TextPart::Text(slice_to_string(&chars, cur, end));
        }
        proof {
            lemma_text_parts_push(parts@, part);
            lemma_behind_one(
                text_parts_model(parts@),
                part@,
                spec_tokens(chars@, end as int, exprs, unit@),
            );
        }
        parts.push(part);
        cur = end;
    }
    proof {
        assert(text_parts_model(parts@) + Seq::<TextPartModel>::empty() =~= text_parts_model(
            parts@,
        ));
    }
    Ok(parts)
}

/// Behind no parts, the rest is all.
pub proof fn lemma_behind_nothing(rest: Translated)
    ensures
        behind(Seq::empty(), rest) == rest,
{
    match rest {
        Ok(parts) => {
            assert(Seq::<TextPartModel>::empty() + parts =~= parts);
        },
        Err(_) => {},
    }
}

/// One part more may be counted with those that are done.
pub proof fn lemma_behind_one(done: Seq<TextPartModel>, part: TextPartModel, rest: Translated)
    ensures
        behind(done, behind(seq![part], rest)) == behind(done.push(part), rest),
{
    match rest {
        Ok(parts) => {
            assert(done + (seq![part] + parts) =~= done.push(part) + parts);
        },
        Err(_) => {},
    }
}

/// The translation of a text: what `catalog` holds under `key`, with the
/// expressions of `text_parts` in the places of the placeholders.
pub fn r_dialogue(text_parts: &Vec<TextPart>, catalog: &Catalog, key: &str) -> (r: Result<
    Vec<TextPart>,
    LocalizationError,
>)
    ensures
        match (r, spec_r_dialogue(text_parts_model(text_parts@), catalog@, key@)) {
            (Ok(parts), Ok(m)) => text_parts_model(parts@) == m,
            (Err(e), Err(f)) => e@ == f,
            _ => false,
        },
{
    match catalog.find_by_key(key) {
        None => Err(LocalizationError::MissingTranslationKey { key: key.to_owned() }),
        Some(entry) => match &entry.body {
            None => Err(LocalizationError::MissingMessageBody { key: key.to_owned() }),
            Some(text) => {
                let expressions = capture(text_parts);
                p_dialogue(text.as_str(), &expressions, key)
            },
        },
    }
}

/// A list of texts, or why there is none.
pub type TranslatedUnits = Result<Seq<Seq<TextPartModel>>, LocalizationErrorModel>;

/// The translations of the texts of the scene `scene`, in their order; the
/// text with the number `i` is looked up under the key of `i`. The first
/// text that has no translation makes the whole fail.
pub open spec fn spec_translate_units(
    units: Seq<Seq<TextPartModel>>,
    catalog: Seq<EntryModel>,
    scene: Seq<char>,
) -> TranslatedUnits
    decreases units.len(),
{
    if units.len() == 0 {
        Ok(Seq::empty())
    } else {
        match spec_translate_units(units.drop_last(), catalog, scene) {
            Ok(done) => match spec_r_dialogue(
                units.last(),
                catalog,
                key_of(scene, (units.len() - 1) as nat),
            ) {
                Ok(text) => Ok(done.push(text)),
                Err(e) => Err(e),
            },
            Err(e) => Err(e),
        }
    }
}

/// An item of a block with its texts replaced: the first of them by
/// `texts[from]`, the next by `texts[from + 1]`, and so on in the order of
/// the walk. All else stays.
pub open spec fn replaced_part(p: ScenePartModel, texts: Seq<Seq<TextPartModel>>, from: int)
    -> ScenePartModel
    decreases p,
{
    match p {
        ScenePartModel::Dialogue(_) => ScenePartModel::Dialogue(texts[from]),
        ScenePartModel::Narration(_) => ScenePartModel::Narration(texts[from]),
        ScenePartModel::Prompt(prompt) => ScenePartModel::Prompt(
            match prompt.text {
                Some(_) => PromptModel {
                    text: Some(texts[from]),
                    options: replaced_options(prompt.options, texts, from + 1),
                },
                None => PromptModel {
                    text: None,
                    options: replaced_options(prompt.options, texts, from),
                },
            },
        ),
        _ => p,
    }
}

/// The items of a block with their texts replaced by those of `texts` from
/// `from` on: each item starts where the texts of the items before it end.
pub open spec fn replaced_parts(
    v: Seq<ScenePartModel>,
    texts: Seq<Seq<TextPartModel>>,
    from: int,
) -> Seq<ScenePartModel>
    decreases v,
{
    Seq::new(
        v.len(),
        |i: int|
            if 0 <= i < v.len() {
                replaced_part(v[i], texts, from + units_of_parts(v.subrange(0, i)).len())
            } else {
                ScenePartModel::Comment(Seq::empty())
            },
    )
}

/// An option with its texts replaced: the label by `texts[from]`, those of
/// its items by what follows.
pub open spec fn replaced_option(
    o: PromptOptionModel,
    texts: Seq<Seq<TextPartModel>>,
    from: int,
) -> PromptOptionModel
    decreases o,
{
    PromptOptionModel { text: texts[from], content: replaced_parts(o.content, texts, from + 1) }
}

/// The options of a prompt with their texts replaced by those of `texts`
/// from `from` on.
pub open spec fn replaced_options(
    v: Seq<PromptOptionModel>,
    texts: Seq<Seq<TextPartModel>>,
    from: int,
) -> Seq<PromptOptionModel>
    decreases v,
{
    Seq::new(
        v.len(),
        |i: int|
            if 0 <= i < v.len() {
                replaced_option(v[i], texts, from + units_of_options(v.subrange(0, i)).len())
            } else {
                PromptOptionModel { text: Seq::empty(), content: Seq::empty() }
            },
    )
}

/// A scene with each of its texts replaced by its translation.
pub open spec fn spec_r_scene(scene: SceneModel, catalog: Seq<EntryModel>) -> Result<
    SceneModel,
    LocalizationErrorModel,
> {
    match spec_translate_units(units_of_parts(scene.content), catalog, scene.name) {
        Ok(texts) => Ok(
            SceneModel { name: scene.name, content: replaced_parts(scene.content, texts, 0) },
        ),
        Err(e) => Err(e),
    }
}

/// The scenes of a script with each text replaced by its translation. The
/// first text, in the order of the scenes and of the walk, that has no
/// translation makes the whole fail.
pub open spec fn spec_r_script(scenes: Seq<SceneModel>, catalog: Seq<EntryModel>) -> Result<
    Seq<SceneModel>,
    LocalizationErrorModel,
>
    decreases scenes.len(),
{
    if scenes.len() == 0 {
        Ok(Seq::empty())
    } else {
        match spec_r_script(scenes.drop_last(), catalog) {
            Ok(done) => match spec_r_scene(scenes.last(), catalog) {
                Ok(scene) => Ok(done.push(scene)),
                Err(e) => Err(e),
            },
            Err(e) => Err(e),
        }
    }
}

/// What a list of texts stands for.
pub open spec fn texts_model(v: Seq<Vec<TextPart>>) -> Seq<Seq<TextPartModel>> {
    Seq::new(v.len(), |i: int| text_parts_model(v[i]@))
}

/// What a list of borrowed texts stands for.
pub open spec fn units_model(v: Seq<&Vec<TextPart>>) -> Seq<Seq<TextPartModel>> {
    Seq::new(v.len(), |i: int| text_parts_model(v[i]@))
}

/// Appends to `units` the texts that `scene_part` carries, in the order of
/// the walk.
pub fn part_units<'a>(units: &mut Vec<&'a Vec<TextPart>>, scene_part: &'a ScenePart)
    ensures
        units_model(final(units)@) == units_model(old(units)@) + units_of_part(scene_part@),
    decreases scene_part,
{
    match scene_part {
        ScenePart::Dialogue(dialogue) => {
            units.push(&dialogue.parts);
        },
        ScenePart::Narration(narration) => {
            units.push(&narration.parts);
        },
        ScenePart::Prompt(prompt) => {
            match &prompt.text {
                Some(parts) => {
                    units.push(parts);
                },
                None => {},
            }
            option_units(units, &prompt.options);
            proof {
                assert(units_model(units@) =~= units_model(old(units)@) + units_of_part(
                    scene_part@,
                ));
            }
        },
        _ => {},
    }
    proof {
        assert(units_model(units@) =~= units_model(old(units)@) + units_of_part(scene_part@));
    }
}

/// Appends to `units` the texts of the options of a prompt.
pub fn option_units<'a>(units: &mut Vec<&'a Vec<TextPart>>, options: &'a Vec<PromptOption>)
    ensures
        units_model(final(units)@) == units_model(old(units)@) + units_of_options(
            options_model(options@),
        ),
    decreases options,
{
    let mut i: usize = 0;
    let ghost models = options_model(options@);
    proof {
        assert(units_model(units@) =~= units_model(old(units)@) + units_of_options(
            models.subrange(0, 0),
        ));
    }
    while i < options.len()
        invariant
            i <= options.len(),
            models == options_model(options@),
            units_model(units@) == units_model(old(units)@) + units_of_options(
                models.subrange(0, i as int),
            ),
        decreases options.len() - i,
    {
        let ghost before = units_model(units@);
        units.push(&options[i].text);
        scene_units(units, &options[i].content);
        proof {
            assert(models.subrange(0, i + 1).drop_last() =~= models.subrange(0, i as int));
            assert(models.subrange(0, i + 1).last() == options@[i as int]@);
            assert(units_model(units@) =~= before + units_of_option(options@[i as int]@));
            assert(units_model(units@) =~= units_model(old(units)@) + units_of_options(
                models.subrange(0, i + 1),
            ));
        }
        i += 1;
    }
    proof {
        assert(models.subrange(0, i as int) =~= models);
    }
}

/// Appends to `units` the texts of the items of a block.
pub fn scene_units<'a>(units: &mut Vec<&'a Vec<TextPart>>, content: &'a Vec<ScenePart>)
    ensures
        units_model(final(units)@) == units_model(old(units)@) + units_of_parts(
            scene_parts_model(content@),
        ),
    decreases content,
{
    let mut i: usize = 0;
    let ghost models = scene_parts_model(content@);
    proof {
        assert(units_model(units@) =~= units_model(old(units)@) + units_of_parts(
            models.subrange(0, 0),
        ));
    }
    while i < content.len()
        invariant
            i <= content.len(),
            models == scene_parts_model(content@),
            units_model(units@) == units_model(old(units)@) + units_of_parts(
                models.subrange(0, i as int),
            ),
        decreases content.len() - i,
    {
        part_units(units, &content[i]);
        proof {
            assert(models.subrange(0, i + 1).drop_last() =~= models.subrange(0, i as int));
            assert(models.subrange(0, i + 1).last() == content@[i as int]@);
            assert(units_model(units@) =~= units_model(old(units)@) + units_of_parts(
                models.subrange(0, i + 1),
            ));
        }
        i += 1;
    }
    proof {
        assert(models.subrange(0, i as int) =~= models);
    }
}

/// The translations of the texts of the scene `scene`, in their order.
pub fn translate_units(units: &Vec<&Vec<TextPart>>, catalog: &Catalog, scene: &str) -> (r: Result<
    Vec<Vec<TextPart>>,
    LocalizationError,
>)
    ensures
        match (r, spec_translate_units(units_model(units@), catalog@, scene@)) {
            (Ok(texts), Ok(m)) => texts_model(texts@) == m,
            (Err(e), Err(f)) => e@ == f,
            _ => false,
        },
{
    let mut texts: Vec<Vec<TextPart>> = Vec::new();
    let mut i: usize = 0;
    let ghost models = units_model(units@);
    proof {
        assert(models.subrange(0, 0) =~= Seq::<Seq<TextPartModel>>::empty());
        assert(texts_model(texts@) =~= Seq::<Seq<TextPartModel>>::empty());
    }
    while i < units.len()
        invariant
            i <= units.len(),
            models == units_model(units@),
            spec_translate_units(models.subrange(0, i as int), catalog@, scene@) == Ok::<
                Seq<Seq<TextPartModel>>,
                LocalizationErrorModel,
            >(texts_model(texts@)),
        decreases units.len() - i,
    {
        proof {
            assert(models.subrange(0, i + 1).drop_last() =~= models.subrange(0, i as int));
            assert(models.subrange(0, i + 1).last() == text_parts_model(units@[i as int]@));
            lemma_translate_prefix(models, i + 1, catalog@, scene@);
        }
        let key = key_for(scene, i);
        match r_dialogue(units[i], catalog, key.as_str()) {
            Ok(text) => {
                proof {
                    assert(texts_model(texts@.push(text)) =~= texts_model(texts@).push(
                        text_parts_model(text@),
                    ));
                }
                texts.push(text);
            },
            Err(e) => {
                return Err(e);
            },
        }
        i += 1;
    }
    proof {
        assert(models.subrange(0, i as int) =~= models);
    }
    Ok(texts)
}

/// Where the first `k` texts cannot be translated, all of them cannot, for the
/// same reason.
pub proof fn lemma_translate_prefix(
    units: Seq<Seq<TextPartModel>>,
    k: int,
    catalog: Seq<EntryModel>,
    scene: Seq<char>,
)
    requires
        0 <= k <= units.len(),
    ensures
        spec_translate_units(units.subrange(0, k), catalog, scene) is Err
            ==> spec_translate_units(units, catalog, scene) == spec_translate_units(
            units.subrange(0, k),
            catalog,
            scene,
        ),
        spec_translate_units(units, catalog, scene) is Ok ==> spec_translate_units(
            units.subrange(0, k),
            catalog,
            scene,
        ) is Ok,
    decreases units.len(),
{
    if k == units.len() {
        assert(units.subrange(0, k) =~= units);
    } else {
        lemma_translate_prefix(units.drop_last(), k, catalog, scene);
        assert(units.drop_last().subrange(0, k) =~= units.subrange(0, k));
    }
}

/// The texts of the first `i + 1` items are those of the first `i` and of the
/// next; there are no more of them than of all items.
pub proof fn lemma_units_of_parts_prefix(v: Seq<ScenePartModel>, i: int)
    requires
        0 <= i < v.len(),
    ensures
        units_of_parts(v.subrange(0, i + 1)) == units_of_parts(v.subrange(0, i)) + units_of_part(
            v[i],
        ),
        units_of_parts(v.subrange(0, i + 1)).len() <= units_of_parts(v).len(),
    decreases v.len(),
{
    assert(v.subrange(0, i + 1).drop_last() =~= v.subrange(0, i));
    assert(v.subrange(0, i + 1).last() == v[i]);
    if i + 1 == v.len() {
        assert(v.subrange(0, i + 1) =~= v);
    } else {
        lemma_units_of_parts_prefix(v.drop_last(), i);
        assert(v.drop_last().subrange(0, i + 1) =~= v.subrange(0, i + 1));
        assert(v.drop_last().subrange(0, i) =~= v.subrange(0, i));
    }
}

/// The texts of the first `i + 1` options are those of the first `i` and of
/// the next; there are no more of them than of all options.
pub proof fn lemma_units_of_options_prefix(v: Seq<PromptOptionModel>, i: int)
    requires
        0 <= i < v.len(),
    ensures
        units_of_options(v.subrange(0, i + 1)) == units_of_options(v.subrange(0, i))
            + units_of_option(v[i]),
        units_of_options(v.subrange(0, i + 1)).len() <= units_of_options(v).len(),
    decreases v.len(),
{
    assert(v.subrange(0, i + 1).drop_last() =~= v.subrange(0, i));
    assert(v.subrange(0, i + 1).last() == v[i]);
    if i + 1 == v.len() {
        assert(v.subrange(0, i + 1) =~= v);
    } else {
        lemma_units_of_options_prefix(v.drop_last(), i);
        assert(v.drop_last().subrange(0, i + 1) =~= v.subrange(0, i + 1));
        assert(v.drop_last().subrange(0, i) =~= v.subrange(0, i));
    }
}

/// A copy of `scene_part` with its texts replaced by those of `texts` from
/// `from` on, and the place in `texts` behind the last that was used.
pub fn r_scene_part(scene_part: &ScenePart, texts: &Vec<Vec<TextPart>>, from: usize) -> (r: (
    ScenePart,
    usize,
))
    requires
        from + units_of_part(scene_part@).len() <= texts.len(),
    ensures
        r.0@ == replaced_part(scene_part@, texts_model(texts@), from as int),
        r.1 == from + units_of_part(scene_part@).len(),
    decreases scene_part,
{
    match scene_part {
        ScenePart::Dialogue(_) => (
            ScenePart::Dialogue(Dialogue { parts: clone_text_parts(&texts[from]) }),
            from + 1,
        ),
        ScenePart::Narration(_) => (
            ScenePart::Narration(Narration { parts: clone_text_parts(&texts[from]) }),
            from + 1,
        ),
        ScenePart::Prompt(prompt) => {
            let (text, first) = match &prompt.text {
                Some(_) => (Some(clone_text_parts(&texts[from])), from + 1),
                None => (None, from),
            };
            let (options, next) = r_options(&prompt.options, texts, first);
            (ScenePart::Prompt(Prompt { text, options }), next)
        },
        other => (other.clone(), from),
    }
}

/// Copies of `options` with their texts replaced by those of `texts` from
/// `from` on, and the place in `texts` behind the last that was used.
pub fn r_options(options: &Vec<PromptOption>, texts: &Vec<Vec<TextPart>>, from: usize) -> (r: (
    Vec<PromptOption>,
    usize,
))
    requires
        from + units_of_options(options_model(options@)).len() <= texts.len(),
    ensures
        options_model(r.0@) == replaced_options(
            options_model(options@),
            texts_model(texts@),
            from as int,
        ),
        r.1 == from + units_of_options(options_model(options@)).len(),
    decreases options,
{
    let mut out: Vec<PromptOption> = Vec::new();
    let mut next: usize = from;
    let mut i: usize = 0;
    let ghost models = options_model(options@);
    let ghost target = replaced_options(models, texts_model(texts@), from as int);
    proof {
        assert(models.subrange(0, 0) =~= Seq::<PromptOptionModel>::empty());
        assert(options_model(out@) =~= target.subrange(0, 0));
    }
    while i < options.len()
        invariant
            i <= options.len(),
            models == options_model(options@),
            target == replaced_options(models, texts_model(texts@), from as int),
            from + units_of_options(models).len() <= texts.len(),
            next == from + units_of_options(models.subrange(0, i as int)).len(),
            options_model(out@) == target.subrange(0, i as int),
        decreases options.len() - i,
    {
        proof {
            lemma_units_of_options_prefix(models, i as int);
        }
        let label = clone_text_parts(&texts[next]);
        let (content, end) = r_scene_parts(&options[i].content, texts, next + 1);
        let option = PromptOption { text: label, content };
        proof {
            lemma_options_push(out@, option);
            assert(target.subrange(0, i + 1) =~= target.subrange(0, i as int).push(option@));
        }
        out.push(option);
        next = end;
        i += 1;
    }
    proof {
        assert(models.subrange(0, i as int) =~= models);
        assert(target.subrange(0, i as int) =~= target);
    }
    (out, next)
}

/// Copies of the items of a block with their texts replaced by those of
/// `texts` from `from` on, and the place in `texts` behind the last that
/// was used.
pub fn r_scene_parts(content: &Vec<ScenePart>, texts: &Vec<Vec<TextPart>>, from: usize) -> (r: (
    Vec<ScenePart>,
    usize,
))
    requires
        from + units_of_parts(scene_parts_model(content@)).len() <= texts.len(),
    ensures
        scene_parts_model(r.0@) == replaced_parts(
            scene_parts_model(content@),
            texts_model(texts@),
            from as int,
        ),
        r.1 == from + units_of_parts(scene_parts_model(content@)).len(),
    decreases content,
{
    let mut out: Vec<ScenePart> = Vec::new();
    let mut next: usize = from;
    let mut i: usize = 0;
    let ghost models = scene_parts_model(content@);
    let ghost target = replaced_parts(models, texts_model(texts@), from as int);
    proof {
        assert(models.subrange(0, 0) =~= Seq::<ScenePartModel>::empty());
        assert(scene_parts_model(out@) =~= target.subrange(0, 0));
    }
    while i < content.len()
        invariant
            i <= content.len(),
            models == scene_parts_model(content@),
            target == replaced_parts(models, texts_model(texts@), from as int),
            from + units_of_parts(models).len() <= texts.len(),
            next == from + units_of_parts(models.subrange(0, i as int)).len(),
            scene_parts_model(out@) == target.subrange(0, i as int),
        decreases content.len() - i,
    {
        proof {
            lemma_units_of_parts_prefix(models, i as int);
        }
        let (part, end) = r_scene_part(&content[i], texts, next);
        proof {
            lemma_scene_parts_push(out@, part);
            assert(target.subrange(0, i + 1) =~= target.subrange(0, i as int).push(part@));
        }
        out.push(part);
        next = end;
        i += 1;
    }
    proof {
        assert(models.subrange(0, i as int) =~= models);
        assert(target.subrange(0, i as int) =~= target);
    }
    (out, next)
}

/// A copy of `scene` with each of its texts replaced by its translation
/// from `catalog`.
pub fn r_scene(scene: &Scene, catalog: &Catalog) -> (r: Result<Scene, LocalizationError>)
    ensures
        match (r, spec_r_scene(scene@, catalog@)) {
            (Ok(translated), Ok(m)) => translated@ == m,
            (Err(e), Err(f)) => e@ == f,
            _ => false,
        },
{
    let mut units: Vec<&Vec<TextPart>> = Vec::new();
    proof {
        assert(units_model(units@) =~= Seq::<Seq<TextPartModel>>::empty());
    }
    scene_units(&mut units, &scene.content);
    proof {
        assert(units_model(units@) =~= units_of_parts(scene@.content));
    }
    match translate_units(&units, catalog, scene.name.as_str()) {
        Ok(texts) => {
            proof {
                lemma_translated_len(units_model(units@), catalog@, scene.name@);
                assert(texts_model(texts@).len() == texts@.len());
            }
            let (content, _) = r_scene_parts(&scene.content, &texts, 0);
            Ok(Scene { name: scene.name.clone(), content })
        },
        Err(e) => Err(e),
    }
}

/// There are as many translations as texts.
pub proof fn lemma_translated_len(
    units: Seq<Seq<TextPartModel>>,
    catalog: Seq<EntryModel>,
    scene: Seq<char>,
)
    ensures
        match spec_translate_units(units, catalog, scene) {
            Ok(texts) => texts.len() == units.len(),
            Err(_) => true,
        },
    decreases units.len(),
{
    if units.len() > 0 {
        lemma_translated_len(units.drop_last(), catalog, scene);
    }
}

/// Where the first `k` scenes cannot be translated, all of them cannot, for
/// the same reason.
pub proof fn lemma_r_script_prefix(scenes: Seq<SceneModel>, k: int, catalog: Seq<EntryModel>)
    requires
        0 <= k <= scenes.len(),
    ensures
        spec_r_script(scenes.subrange(0, k), catalog) is Err ==> spec_r_script(scenes, catalog)
            == spec_r_script(scenes.subrange(0, k), catalog),
    decreases scenes.len(),
{
    if k == scenes.len() {
        assert(scenes.subrange(0, k) =~= scenes);
    } else {
        lemma_r_script_prefix(scenes.drop_last(), k, catalog);
        assert(scenes.drop_last().subrange(0, k) =~= scenes.subrange(0, k));
    }
}

/// Puts the translations of `catalog` into a script: a copy of `script` in
/// which each text is replaced by the translation that the catalog holds
/// under its key. All else is as in `script`, which stays as it is.
pub fn r_script(script: &Module, catalog: &Catalog) -> (r: Result<Module, LocalizationError>)
    ensures
        match (r, spec_r_script(script@.scenes, catalog@)) {
            (Ok(translated), Ok(scenes)) => translated@.scenes == scenes && translated@.fields
                == script@.fields && fields_list(translated.fields@) == fields_list(
                script.fields@,
            ),
            (Err(e), Err(f)) => e@ == f,
            _ => false,
        },
{
    let mut scenes: Vec<Scene> = Vec::new();
    let mut i: usize = 0;
    let ghost models = script@.scenes;
    proof {
        assert(models.subrange(0, 0) =~= Seq::<SceneModel>::empty());
        assert(scenes_model(scenes@) =~= Seq::<SceneModel>::empty());
    }
    while i < script.scenes.len()
        invariant
            i <= script.scenes.len(),
            models == script@.scenes,
            models.len() == script.scenes.len(),
            spec_r_script(models.subrange(0, i as int), catalog@) == Ok::<
                Seq<SceneModel>,
                LocalizationErrorModel,
            >(scenes_model(scenes@)),
        decreases script.scenes.len() - i,
    {
        proof {
            assert(models.subrange(0, i + 1).drop_last() =~= models.subrange(0, i as int));
            assert(models.subrange(0, i + 1).last() == script.scenes@[i as int]@);
            lemma_r_script_prefix(models, i + 1, catalog@);
        }
        match r_scene(&script.scenes[i], catalog) {
            Ok(scene) => {
                proof {
                    lemma_scenes_push(scenes@, scene);
                }
                scenes.push(scene);
            },
            Err(e) => {
                return Err(e);
            },
        }
        i += 1;
    }
    proof {
        assert(models.subrange(0, i as int) =~= models);
    }
    Ok(Module { scenes, fields: clone_fields(&script.fields) })
}

} // verus!
