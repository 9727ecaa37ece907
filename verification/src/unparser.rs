//! How scripts print: the document of each construct, and the text that
//! the document is laid out as.

pub mod doc;

use vstd::prelude::*;
use crate::decimal::{int_text, int_to_string};
use crate::parser::p_script;
use crate::parser::ast::{
    expressions_model, fields_list, options_model, scene_parts_model, strings_view,
    text_parts_model, Expression, ExpressionModel, Field, Module, ModuleModel, PromptOption,
    PromptOptionModel, Scene, SceneModel, ScenePart, ScenePartModel, TextPart, TextPartModel,
};
use crate::parser::error::SyntaxError;
use crate::parser::grammar::spec_script;
use crate::roundtrip::law::lemma_parse_print_parse;
use crate::roundtrip::script::{lemma_fields_are_map, map_of};
use crate::roundtrip::shape::plain_script;
use crate::unparser::doc::{docs_model, lemma_docs_push, render, spec_render, Doc, DocModel};

verus! {

/// The width, in columns, that scripts are laid out for.
pub const CANONICAL_WIDTH: usize = 80;

/// `items` with `sep` between every two of them.
pub open spec fn joined(items: Seq<DocModel>, sep: DocModel) -> Seq<DocModel>
    decreases items.len(),
{
    if items.len() <= 1 {
        items
    } else {
        joined(items.drop_last(), sep).push(sep).push(items.last())
    }
}

/// A list with separators and one document more: the document alone, or the
/// list, a separator and the document.
pub proof fn lemma_joined_push(items: Seq<DocModel>, sep: DocModel, x: DocModel)
    ensures
        joined(items.push(x), sep) == (if items.len() == 0 {
            seq![x]
        } else {
            joined(items, sep).push(sep).push(x)
        }),
        (joined(items, sep).len() == 0) == (items.len() == 0),
    decreases items.len(),
{
    assert(items.push(x).drop_last() =~= items);
    if items.len() == 0 {
        assert(items.push(x) =~= seq![x]);
    }
}

/// How a list of expressions prints: each as itself.
pub open spec fn spec_print_expressions(v: Seq<ExpressionModel>) -> Seq<DocModel>
    decreases v,
{
    Seq::new(
        v.len(),
        |i: int|
            if 0 <= i < v.len() {
                spec_print_expression(v[i])
            } else {
                DocModel::Nil
            },
    )
}

/// The separator between the arguments of a call: a comma and a soft line.
pub open spec fn comma_line() -> DocModel {
    DocModel::Concat(seq![DocModel::Text(","@), DocModel::Line])
}

/// How an expression prints.
///
/// A call is its name and, in parentheses, a group of its arguments with a
/// comma and a soft line between them. A number with a unit is the number, a
/// space, the unit. A string literal is its text in double quotes. A symbol
/// is its segments with `.` between them.
pub open spec fn spec_print_expression(e: ExpressionModel) -> DocModel
    decreases e,
{
    match e {
        ExpressionModel::Call { name, args } => DocModel::Concat(
            seq![
                DocModel::Text(name),
                DocModel::Text("("@),
                DocModel::Group(
                    Box::new(DocModel::Concat(joined(spec_print_expressions(args), comma_line()))),
                ),
                DocModel::Text(")"@),
            ],
        ),
        ExpressionModel::Unit(inner, unit) => DocModel::Concat(
            seq![spec_print_expression(*inner), DocModel::Text(" "@), DocModel::Text(unit)],
        ),
        ExpressionModel::Int(v) => DocModel::Text(int_text(v)),
        ExpressionModel::Float(text) => DocModel::Text(text),
        ExpressionModel::Boolean(b) => DocModel::Text(
            if b {
                "true"@
            } else {
                "false"@
            },
        ),
        ExpressionModel::Text(parts) => DocModel::Concat(
            seq![
                DocModel::Text("\""@),
                DocModel::Concat(spec_print_text_parts(parts)),
                DocModel::Text("\""@),
            ],
        ),
        ExpressionModel::Symbol(path) => DocModel::Concat(
            joined(spec_print_words(path), DocModel::Text("."@)),
        ),
    }
}

/// Each word as text.
pub open spec fn spec_print_words(words: Seq<Seq<char>>) -> Seq<DocModel> {
    Seq::new(words.len(), |i: int| DocModel::Text(words[i]))
}

/// How one part of a text prints: a fragment as it stands, an expression in
/// braces.
pub open spec fn spec_print_text_part(p: TextPartModel) -> DocModel
    decreases p,
{
    match p {
        TextPartModel::Text(text) => DocModel::Text(text),
        TextPartModel::Expression(e) => DocModel::Concat(
            seq![DocModel::Text("{"@), spec_print_expression(e), DocModel::Text("}"@)],
        ),
    }
}

/// Each part of a text as it prints.
pub open spec fn spec_print_text_parts(v: Seq<TextPartModel>) -> Seq<DocModel>
    decreases v,
{
    Seq::new(
        v.len(),
        |i: int|
            if 0 <= i < v.len() {
                spec_print_text_part(v[i])
            } else {
                DocModel::Nil
            },
    )
}

/// How a text prints: its parts one after the other, with nothing between
/// them.
pub open spec fn spec_print_dialogue(parts: Seq<TextPartModel>) -> DocModel {
    DocModel::Concat(spec_print_text_parts(parts))
}

/// Each modifier behind a space.
pub open spec fn spec_print_modifiers(words: Seq<Seq<char>>) -> Seq<DocModel> {
    Seq::new(
        words.len(),
        |i: int| DocModel::Concat(seq![DocModel::Text(" "@), DocModel::Text(words[i])]),
    )
}

/// The items of a block, each behind a hard line.
pub open spec fn spec_print_block(v: Seq<ScenePartModel>) -> Seq<DocModel>
    decreases v,
{
    Seq::new(
        v.len(),
        |i: int|
            if 0 <= i < v.len() {
                DocModel::Concat(seq![DocModel::HardLine, spec_print_scene_part(v[i])])
            } else {
                DocModel::Nil
            },
    )
}

/// The options of a prompt, each behind a hard line.
pub open spec fn spec_print_options(v: Seq<PromptOptionModel>) -> Seq<DocModel>
    decreases v,
{
    Seq::new(
        v.len(),
        |i: int|
            if 0 <= i < v.len() {
                DocModel::Concat(seq![DocModel::HardLine, spec_print_option(v[i])])
            } else {
                DocModel::Nil
            },
    )
}

/// How an option prints: `option`, its label, its items on lines of their
/// own, two columns in, and `end` on a line of its own.
pub open spec fn spec_print_option(o: PromptOptionModel) -> DocModel
    decreases o,
{
    DocModel::Concat(
        seq![
            DocModel::Text("option "@),
            spec_print_dialogue(o.text),
            DocModel::Nest(2, Box::new(DocModel::Concat(spec_print_block(o.content)))),
            DocModel::HardLine,
            DocModel::Text("end"@),
        ],
    )
}

/// The lead-in of a prompt: a space and the text, where there is one.
pub open spec fn spec_print_lead_in(text: Option<Seq<TextPartModel>>) -> DocModel {
    match text {
        Some(parts) => DocModel::Concat(seq![DocModel::Text(" "@), spec_print_dialogue(parts)]),
        None => DocModel::Nil,
    }
}

/// How an item of a block prints.
///
/// A speaker change marker is `[`, the speaker, each modifier behind a
/// space, `]`. Dialogue is `- ` and its text, narration `* ` and its text. A
/// prompt is `prompt`, its lead-in, its options on lines of their own, two
/// columns in, and `end` on a line of its own. A comment is `--` and its
/// text.
pub open spec fn spec_print_scene_part(p: ScenePartModel) -> DocModel
    decreases p,
{
    match p {
        ScenePartModel::SpeakerChangeMarker(marker) => DocModel::Concat(
            seq![
                DocModel::Text("["@),
                DocModel::Text(marker.speaker_id),
                DocModel::Concat(spec_print_modifiers(marker.modifiers)),
                DocModel::Text("]"@),
            ],
        ),
        ScenePartModel::Dialogue(parts) => DocModel::Concat(
            seq![DocModel::Text("- "@), spec_print_dialogue(parts)],
        ),
        ScenePartModel::Narration(parts) => DocModel::Concat(
            seq![DocModel::Text("* "@), spec_print_dialogue(parts)],
        ),
        ScenePartModel::Prompt(prompt) => DocModel::Concat(
            seq![
                DocModel::Text("prompt"@),
                spec_print_lead_in(prompt.text),
                DocModel::Nest(2, Box::new(DocModel::Concat(spec_print_options(prompt.options)))),
                DocModel::HardLine,
                DocModel::Text("end"@),
            ],
        ),
        ScenePartModel::Expression(e) => spec_print_expression(e),
        ScenePartModel::Comment(text) => DocModel::Concat(
            seq![DocModel::Text("--"@), DocModel::Text(text)],
        ),
    }
}

/// Each item of a block as it prints.
pub open spec fn spec_print_scene_parts(v: Seq<ScenePartModel>) -> Seq<DocModel> {
    Seq::new(v.len(), |i: int| spec_print_scene_part(v[i]))
}

/// How a scene prints: `scene` and its name, then, two columns in, a hard
/// line and the group of its items with hard lines between them, then `end`
/// on a line of its own.
pub open spec fn spec_print_scene(scene: SceneModel) -> DocModel {
    DocModel::Concat(
        seq![
            DocModel::Nest(
                2,
                Box::new(
                    DocModel::Concat(
                        seq![
                            DocModel::Text("scene "@),
                            DocModel::Text(scene.name),
                            DocModel::HardLine,
                            DocModel::Group(
                                Box::new(
                                    DocModel::Concat(
                                        joined(
                                            spec_print_scene_parts(scene.content),
                                            DocModel::HardLine,
                                        ),
                                    ),
                                ),
                            ),
                        ],
                    ),
                ),
            ),
            DocModel::HardLine,
            DocModel::Text("end"@),
        ],
    )
}

/// A blank line: two hard lines.
pub open spec fn blank_line() -> DocModel {
    DocModel::Concat(seq![DocModel::HardLine, DocModel::HardLine])
}

/// Each scene as it prints.
pub open spec fn spec_print_scenes(v: Seq<SceneModel>) -> Seq<DocModel> {
    Seq::new(v.len(), |i: int| spec_print_scene(v[i]))
}

/// How a field assignment prints: the name, ` = `, the value.
pub open spec fn spec_print_field(field: (Seq<char>, ExpressionModel)) -> DocModel {
    DocModel::Concat(
        seq![DocModel::Text(field.0), DocModel::Text(" = "@), spec_print_expression(field.1)],
    )
}

/// Each field assignment as it prints.
pub open spec fn spec_print_fields(v: Seq<(Seq<char>, ExpressionModel)>) -> Seq<DocModel> {
    Seq::new(v.len(), |i: int| spec_print_field(v[i]))
}

/// How a script prints: its field assignments on lines of their own, then
/// its scenes with a blank line between them, and a blank line between the
/// two where the script has both.
pub open spec fn spec_print_script(
    scenes: Seq<SceneModel>,
    fields: Seq<(Seq<char>, ExpressionModel)>,
) -> DocModel {
    DocModel::Concat(
        seq![
            DocModel::Concat(joined(spec_print_fields(fields), DocModel::HardLine)),
            if fields.len() > 0 && scenes.len() > 0 {
                blank_line()
            } else {
                DocModel::Nil
            },
            DocModel::Concat(joined(spec_print_scenes(scenes), blank_line())),
        ],
    )
}

/// A document of fixed text.
pub fn text(s: &str) -> (r: Doc)
    ensures
        r@ == DocModel::Text(s@),
{
    Doc::Text(s.to_owned())
}

/// The documents of `items`, one after the other.
pub fn concat(items: Vec<Doc>) -> (r: Doc)
    ensures
        r@ == DocModel::Concat(docs_model(items@)),
{
    Doc::Concat(items)
}

/// `inner` as a group.
pub fn group(inner: Doc) -> (r: Doc)
    ensures
        r@ == DocModel::Group(Box::new(inner@)),
{
    Doc::Group(Box::new(inner))
}

/// `inner` with `n` more columns of indentation behind its line breaks.
pub fn nest(n: usize, inner: Doc) -> (r: Doc)
    ensures
        r@ == DocModel::Nest(n as nat, Box::new(inner@)),
{
    Doc::Nest(n, Box::new(inner))
}

/// Appends `item` to `out`, behind a separator where `out` holds something.
pub fn push_joined(out: &mut Vec<Doc>, sep: Doc, item: Doc, Ghost(items): Ghost<Seq<DocModel>>)
    requires
        docs_model(old(out)@) == joined(items, sep@),
    ensures
        docs_model(final(out)@) == joined(items.push(item@), sep@),
{
    proof {
        lemma_joined_push(items, sep@, item@);
        lemma_docs_push(out@, sep);
        lemma_docs_push(out@.push(sep), item);
        lemma_docs_push(out@, item);
        assert(docs_model(out@).len() == out@.len());
        if items.len() == 0 {
            assert(docs_model(out@).push(item@) =~= seq![item@]);
        }
    }
    if out.len() > 0 {
        out.push(sep);
    }
    out.push(item);
}

/// The document of an expression.
pub fn print_expression(expression: &Expression) -> (r: Doc)
    ensures
        r@ == spec_print_expression(expression@),
    decreases expression,
{
    match expression {
        Expression::Call { name, args } => {
            let mut items: Vec<Doc> = Vec::new();
            items.push(Doc::Text(name.clone()));
            items.push(text("("));
            items.push(group(concat(print_arguments(args))));
            items.push(text(")"));
            proof {
                assert(docs_model(items@) =~= seq![
                    items@[0]@,
                    items@[1]@,
                    items@[2]@,
                    items@[3]@,
                ]);
            }
            Doc::Concat(items)
        },
        Expression::Unit(inner, unit) => {
            let mut items: Vec<Doc> = Vec::new();
            items.push(print_expression(inner));
            items.push(text(" "));
            items.push(Doc::Text(unit.clone()));
            proof {
                assert(docs_model(items@) =~= seq![items@[0]@, items@[1]@, items@[2]@]);
            }
            Doc::Concat(items)
        },
        Expression::Int(value) => Doc::Text(int_to_string(*value)),
        Expression::Float(literal) => Doc::Text(literal.clone()),
        Expression::Boolean(value) => if *value {
            text("true")
        } else {
            text("false")
        },
        Expression::Text(parts) => {
            let mut items: Vec<Doc> = Vec::new();
            items.push(text("\""));
            items.push(print_dialogue(parts));
            items.push(text("\""));
            proof {
                assert(docs_model(items@) =~= seq![items@[0]@, items@[1]@, items@[2]@]);
            }
            Doc::Concat(items)
        },
        Expression::Symbol(symbol) => {
            let mut items: Vec<Doc> = Vec::new();
            let mut i: usize = 0;
            let ghost words = spec_print_words(symbol@);
            proof {
                assert(docs_model(items@) =~= joined(words.subrange(0, 0), DocModel::Text("."@)));
            }
            while i < symbol.path.len()
                invariant
                    i <= symbol.path.len(),
                    words == spec_print_words(symbol@),
                    docs_model(items@) == joined(
                        words.subrange(0, i as int),
                        DocModel::Text("."@),
                    ),
                decreases symbol.path.len() - i,
            {
                proof {
                    assert(words.subrange(0, i + 1) =~= words.subrange(0, i as int).push(
                        DocModel::Text(symbol.path@[i as int]@),
                    ));
                }
                push_joined(
                    &mut items,
                    text("."),
                    Doc::Text(symbol.path[i].clone()),
                    Ghost(words.subrange(0, i as int)),
                );
                i += 1;
            }
            proof {
                assert(words.subrange(0, i as int) =~= words);
            }
            Doc::Concat(items)
        },
    }
}

/// The arguments of a call as they print, with a comma and a soft line
/// between them.
pub fn print_arguments(args: &Vec<Expression>) -> (r: Vec<Doc>)
    ensures
        docs_model(r@) == joined(spec_print_expressions(expressions_model(args@)), comma_line()),
    decreases args,
{
    let mut items: Vec<Doc> = Vec::new();
    let mut i: usize = 0;
    let ghost printed = spec_print_expressions(expressions_model(args@));
    proof {
        assert(docs_model(items@) =~= joined(printed.subrange(0, 0), comma_line()));
    }
    while i < args.len()
        invariant
            i <= args.len(),
            printed == spec_print_expressions(expressions_model(args@)),
            docs_model(items@) == joined(printed.subrange(0, i as int), comma_line()),
        decreases args.len() - i,
    {
        let mut sep: Vec<Doc> = Vec::new();
        sep.push(text(","));
        sep.push(Doc::Line);
        proof {
            assert(docs_model(sep@) =~= seq![DocModel::Text(","@), DocModel::Line]);
            assert(printed.subrange(0, i + 1) =~= printed.subrange(0, i as int).push(
                spec_print_expression(args@[i as int]@),
            ));
        }
        push_joined(
            &mut items,
            Doc::Concat(sep),
            print_expression(&args[i]),
            Ghost(printed.subrange(0, i as int)),
        );
        i += 1;
    }
    proof {
        assert(printed.subrange(0, i as int) =~= printed);
    }
    items
}

/// The document of a text: its parts one after the other.
pub fn print_dialogue(text_parts: &Vec<TextPart>) -> (r: Doc)
    ensures
        r@ == spec_print_dialogue(text_parts_model(text_parts@)),
    decreases text_parts,
{
    let mut items: Vec<Doc> = Vec::new();
    let mut i: usize = 0;
    let ghost printed = spec_print_text_parts(text_parts_model(text_parts@));
    proof {
        assert(docs_model(items@) =~= printed.subrange(0, 0));
    }
    while i < text_parts.len()
        invariant
            i <= text_parts.len(),
            printed == spec_print_text_parts(text_parts_model(text_parts@)),
            docs_model(items@) == printed.subrange(0, i as int),
        decreases text_parts.len() - i,
    {
        let item = match &text_parts[i] {
            TextPart::Text(fragment) => Doc::Text(fragment.clone()),
            TextPart::Expression(expression) => {
                let mut braced: Vec<Doc> = Vec::new();
                braced.push(text("{"));
                braced.push(print_expression(expression));
                braced.push(text("}"));
                proof {
                    assert(docs_model(braced@) =~= seq![braced@[0]@, braced@[1]@, braced@[2]@]);
                }
                Doc::Concat(braced)
            },
        };
        proof {
            lemma_docs_push(items@, item);
            assert(printed.subrange(0, i + 1) =~= printed.subrange(0, i as int).push(item@));
        }
        items.push(item);
        i += 1;
    }
    proof {
        assert(printed.subrange(0, i as int) =~= printed);
    }
    Doc::Concat(items)
}

/// `inner` behind a hard line.
pub fn on_new_line(inner: Doc) -> (r: Doc)
    ensures
        r@ == DocModel::Concat(seq![DocModel::HardLine, inner@]),
{
    let mut items: Vec<Doc> = Vec::new();
    items.push(Doc::HardLine);
    items.push(inner);
    proof {
        assert(docs_model(items@) =~= seq![DocModel::HardLine, inner@]);
    }
    Doc::Concat(items)
}

/// The items of a block as they print, each behind a hard line.
pub fn print_block(content: &Vec<ScenePart>) -> (r: Doc)
    ensures
        r@ == DocModel::Concat(spec_print_block(scene_parts_model(content@))),
    decreases content,
{
    let mut items: Vec<Doc> = Vec::new();
    let mut i: usize = 0;
    let ghost printed = spec_print_block(scene_parts_model(content@));
    proof {
        assert(docs_model(items@) =~= printed.subrange(0, 0));
    }
    while i < content.len()
        invariant
            i <= content.len(),
            printed == spec_print_block(scene_parts_model(content@)),
            docs_model(items@) == printed.subrange(0, i as int),
        decreases content.len() - i,
    {
        let item = on_new_line(print_scene_part(&content[i]));
        proof {
            lemma_docs_push(items@, item);
            assert(printed.subrange(0, i + 1) =~= printed.subrange(0, i as int).push(item@));
        }
        items.push(item);
        i += 1;
    }
    proof {
        assert(printed.subrange(0, i as int) =~= printed);
    }
    Doc::Concat(items)
}

/// An option of a prompt as it prints.
pub fn print_option(option: &PromptOption) -> (r: Doc)
    ensures
        r@ == spec_print_option(option@),
    decreases option,
{
    let mut items: Vec<Doc> = Vec::new();
    items.push(text("option "));
    items.push(print_dialogue(&option.text));
    items.push(nest(2, print_block(&option.content)));
    items.push(Doc::HardLine);
    items.push(text("end"));
    proof {
        assert(docs_model(items@) =~= seq![
            items@[0]@,
            items@[1]@,
            items@[2]@,
            items@[3]@,
            items@[4]@,
        ]);
    }
    Doc::Concat(items)
}

/// The options of a prompt as they print, each behind a hard line.
pub fn print_options(options: &Vec<PromptOption>) -> (r: Doc)
    ensures
        r@ == DocModel::Concat(spec_print_options(options_model(options@))),
    decreases options,
{
    let mut items: Vec<Doc> = Vec::new();
    let mut i: usize = 0;
    let ghost printed = spec_print_options(options_model(options@));
    proof {
        assert(docs_model(items@) =~= printed.subrange(0, 0));
    }
    while i < options.len()
        invariant
            i <= options.len(),
            printed == spec_print_options(options_model(options@)),
            docs_model(items@) == printed.subrange(0, i as int),
        decreases options.len() - i,
    {
        let item = on_new_line(print_option(&options[i]));
        proof {
            lemma_docs_push(items@, item);
            assert(printed.subrange(0, i + 1) =~= printed.subrange(0, i as int).push(item@));
        }
        items.push(item);
        i += 1;
    }
    proof {
        assert(printed.subrange(0, i as int) =~= printed);
    }
    Doc::Concat(items)
}

/// The modifiers of a speaker change marker as they print, each behind a
/// space.
pub fn print_modifiers(modifiers: &Vec<String>) -> (r: Doc)
    ensures
        r@ == DocModel::Concat(spec_print_modifiers(strings_view(modifiers@))),
{
    let mut items: Vec<Doc> = Vec::new();
    let mut i: usize = 0;
    let ghost printed = spec_print_modifiers(strings_view(modifiers@));
    proof {
        assert(docs_model(items@) =~= printed.subrange(0, 0));
    }
    while i < modifiers.len()
        invariant
            i <= modifiers.len(),
            printed == spec_print_modifiers(strings_view(modifiers@)),
            docs_model(items@) == printed.subrange(0, i as int),
        decreases modifiers.len() - i,
    {
        let mut pair: Vec<Doc> = Vec::new();
        pair.push(text(" "));
        pair.push(Doc::Text(modifiers[i].clone()));
        proof {
            assert(docs_model(pair@) =~= seq![pair@[0]@, pair@[1]@]);
        }
        let item = Doc::Concat(pair);
        proof {
            lemma_docs_push(items@, item);
            assert(printed.subrange(0, i + 1) =~= printed.subrange(0, i as int).push(item@));
        }
        items.push(item);
        i += 1;
    }
    proof {
        assert(printed.subrange(0, i as int) =~= printed);
    }
    Doc::Concat(items)
}

/// The document of an item of a block.
pub fn print_scene_part(scene_part: &ScenePart) -> (r: Doc)
    ensures
        r@ == spec_print_scene_part(scene_part@),
    decreases scene_part,
{
    match scene_part {
        ScenePart::SpeakerChangeMarker(marker) => {
            let mut items: Vec<Doc> = Vec::new();
            items.push(text("["));
            items.push(Doc::Text(marker.speaker_id.clone()));
            items.push(print_modifiers(&marker.modifiers));
            items.push(text("]"));
            proof {
                assert(docs_model(items@) =~= seq![
                    items@[0]@,
                    items@[1]@,
                    items@[2]@,
                    items@[3]@,
                ]);
            }
            Doc::Concat(items)
        },
        ScenePart::Dialogue(dialogue) => {
            let mut items: Vec<Doc> = Vec::new();
            items.push(text("- "));
            items.push(print_dialogue(&dialogue.parts));
            proof {
                assert(docs_model(items@) =~= seq![items@[0]@, items@[1]@]);
            }
            Doc::Concat(items)
        },
        ScenePart::Narration(narration) => {
            let mut items: Vec<Doc> = Vec::new();
            items.push(text("* "));
            items.push(print_dialogue(&narration.parts));
            proof {
                assert(docs_model(items@) =~= seq![items@[0]@, items@[1]@]);
            }
            Doc::Concat(items)
        },
        ScenePart::Prompt(prompt) => {
            let lead_in = match &prompt.text {
                Some(parts) => {
                    let mut pair: Vec<Doc> = Vec::new();
                    pair.push(text(" "));
                    pair.push(print_dialogue(parts));
                    proof {
                        assert(docs_model(pair@) =~= seq![pair@[0]@, pair@[1]@]);
                    }
                    Doc::Concat(pair)
                },
                None => Doc::Nil,
            };
            let mut items: Vec<Doc> = Vec::new();
            items.push(text("prompt"));
            items.push(lead_in);
            items.push(nest(2, print_options(&prompt.options)));
            items.push(Doc::HardLine);
            items.push(text("end"));
            proof {
                assert(docs_model(items@) =~= seq![
                    items@[0]@,
                    items@[1]@,
                    items@[2]@,
                    items@[3]@,
                    items@[4]@,
                ]);
            }
            Doc::Concat(items)
        },
        ScenePart::Expression(expression) => print_expression(expression),
        ScenePart::Comment(content) => {
            let mut items: Vec<Doc> = Vec::new();
            items.push(text("--"));
            items.push(Doc::Text(content.clone()));
            proof {
                assert(docs_model(items@) =~= seq![items@[0]@, items@[1]@]);
            }
            Doc::Concat(items)
        },
    }
}

/// The document of a scene.
pub fn print_scene(scene: &Scene) -> (r: Doc)
    ensures
        r@ == spec_print_scene(scene@),
{
    let mut parts: Vec<Doc> = Vec::new();
    let mut i: usize = 0;
    let ghost printed = spec_print_scene_parts(scene@.content);
    proof {
        assert(docs_model(parts@) =~= joined(printed.subrange(0, 0), DocModel::HardLine));
    }
    while i < scene.content.len()
        invariant
            i <= scene.content.len(),
            printed == spec_print_scene_parts(scene@.content),
            docs_model(parts@) == joined(printed.subrange(0, i as int), DocModel::HardLine),
        decreases scene.content.len() - i,
    {
        proof {
            assert(printed.subrange(0, i + 1) =~= printed.subrange(0, i as int).push(
                spec_print_scene_part(scene.content@[i as int]@),
            ));
        }
        push_joined(
            &mut parts,
            Doc::HardLine,
            print_scene_part(&scene.content[i]),
            Ghost(printed.subrange(0, i as int)),
        );
        i += 1;
    }
    proof {
        assert(printed.subrange(0, i as int) =~= printed);
    }
    let mut head: Vec<Doc> = Vec::new();
    head.push(text("scene "));
    head.push(Doc::Text(scene.name.clone()));
    head.push(Doc::HardLine);
    head.push(group(concat(parts)));
    proof {
        assert(docs_model(head@) =~= seq![head@[0]@, head@[1]@, head@[2]@, head@[3]@]);
    }
    let mut items: Vec<Doc> = Vec::new();
    items.push(nest(2, concat(head)));
    items.push(Doc::HardLine);
    items.push(text("end"));
    proof {
        assert(docs_model(items@) =~= seq![items@[0]@, items@[1]@, items@[2]@]);
    }
    Doc::Concat(items)
}

/// Two hard lines.
pub fn blank() -> (r: Doc)
    ensures
        r@ == blank_line(),
{
    on_new_line(Doc::HardLine)
}

/// The field assignments of a script as they print, on lines of their own.
pub fn print_fields(fields: &Vec<Field>) -> (r: Doc)
    ensures
        r@ == DocModel::Concat(joined(spec_print_fields(fields_list(fields@)), DocModel::HardLine)),
{
    let mut lines: Vec<Doc> = Vec::new();
    let mut i: usize = 0;
    let ghost printed = spec_print_fields(fields_list(fields@));
    proof {
        assert(docs_model(lines@) =~= joined(printed.subrange(0, 0), DocModel::HardLine));
    }
    while i < fields.len()
        invariant
            i <= fields.len(),
            printed == spec_print_fields(fields_list(fields@)),
            docs_model(lines@) == joined(printed.subrange(0, i as int), DocModel::HardLine),
        decreases fields.len() - i,
    {
        let mut items: Vec<Doc> = Vec::new();
        items.push(Doc::Text(fields[i].name.clone()));
        items.push(text(" = "));
        items.push(print_expression(&fields[i].value));
        proof {
            assert(docs_model(items@) =~= seq![items@[0]@, items@[1]@, items@[2]@]);
            assert(printed.subrange(0, i + 1) =~= printed.subrange(0, i as int).push(
                spec_print_field((fields@[i as int].name@, fields@[i as int].value@)),
            ));
        }
        push_joined(
            &mut lines,
            Doc::HardLine,
            Doc::Concat(items),
            Ghost(printed.subrange(0, i as int)),
        );
        i += 1;
    }
    proof {
        assert(printed.subrange(0, i as int) =~= printed);
    }
    Doc::Concat(lines)
}

/// The document of a script: how it prints, before it is laid out.
pub fn print_script(script: &Module) -> (r: Doc)
    ensures
        r@ == spec_print_script(script@.scenes, fields_list(script.fields@)),
{
    let mut scenes: Vec<Doc> = Vec::new();
    let mut i: usize = 0;
    let ghost printed = spec_print_scenes(script@.scenes);
    proof {
        assert(docs_model(scenes@) =~= joined(printed.subrange(0, 0), blank_line()));
    }
    while i < script.scenes.len()
        invariant
            i <= script.scenes.len(),
            printed == spec_print_scenes(script@.scenes),
            docs_model(scenes@) == joined(printed.subrange(0, i as int), blank_line()),
        decreases script.scenes.len() - i,
    {
        proof {
            assert(printed.subrange(0, i + 1) =~= printed.subrange(0, i as int).push(
                spec_print_scene(script.scenes@[i as int]@),
            ));
        }
        push_joined(
            &mut scenes,
            blank(),
            print_scene(&script.scenes[i]),
            Ghost(printed.subrange(0, i as int)),
        );
        i += 1;
    }
    proof {
        assert(printed.subrange(0, i as int) =~= printed);
    }
    let mut items: Vec<Doc> = Vec::new();
    items.push(print_fields(&script.fields));
    items.push(
        if script.fields.len() > 0 && script.scenes.len() > 0 {
            blank()
        } else {
            Doc::Nil
        },
    );
    items.push(concat(scenes));
    proof {
        assert(docs_model(items@) =~= seq![items@[0]@, items@[1]@, items@[2]@]);
    }
    Doc::Concat(items)
}

/// The canonical source text of a script: what it prints as, laid out for
/// lines of 80 columns.
pub fn render_script(script: &Module) -> (r: String)
    ensures
        r@ == spec_render(
            spec_print_script(script@.scenes, fields_list(script.fields@)),
            CANONICAL_WIDTH as nat,
        ),
{
    let output = print_script(script);
    render(&output, CANONICAL_WIDTH)
}

/// The canonical form of a source text: the script that it parses to,
/// printed and laid out for lines of 80 columns.
///
/// Where the comments of the script read back from their printed form (each
/// on one line, none starting with `[`), the canonical form parses to the
/// same script as the text. A text that does not parse has none; the
/// failure is that of the parser.
pub fn format_script(input: &str) -> (r: Result<String, SyntaxError>)
    ensures
        match (r, spec_script(input@)) {
            (Ok(text), Ok(m)) => {
                &&& exists|fields: Seq<(Seq<char>, ExpressionModel)>|
                    map_of(fields) == m.fields && text@ == #[trigger] spec_render(
                        spec_print_script(m.scenes, fields),
                        CANONICAL_WIDTH as nat,
                    )
                &&& plain_script(m.scenes) ==> spec_script(text@) == Ok::<ModuleModel, SyntaxError>(
                    m,
                )
            },
            (Err(e), Err(f)) => e == f,
            _ => false,
        },
{
    match p_script(input) {
        Ok(script) => {
            let text = render_script(&script);
            proof {
                lemma_fields_are_map(script.fields@);
                if plain_script(script@.scenes) {
                    lemma_parse_print_parse(input@, script, CANONICAL_WIDTH as nat);
                }
            }
            Ok(text)
        },
        Err(e) => Err(e),
    }
}

} // verus!
