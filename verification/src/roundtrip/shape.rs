use vstd::prelude::*;
use crate::parser::ast::{
    ExpressionModel, PromptOptionModel, SceneModel, ScenePartModel, TextPartModel,
};
use crate::parser::grammar::{float_len, is_false_word, is_keyword, is_true_word};
use crate::parser::scan::{
    in_class, is_digit, is_ident_start, is_inline_space, is_newline, CharClass,
};

verus! {

/// A word: a letter or `_`, then letters, digits and `_`.
pub open spec fn is_word(t: Seq<char>) -> bool {
    &&& t.len() > 0
    &&& is_ident_start(t[0])
    &&& forall|j: int| 0 <= j < t.len() ==> in_class(CharClass::IdentChar, #[trigger] t[j])
}

/// An identifier: a word that is not reserved.
pub open spec fn is_identifier(t: Seq<char>) -> bool {
    is_word(t) && !is_keyword(t)
}

/// A name: an identifier that is no truth literal, so that an expression can
/// start with it.
pub open spec fn is_name(t: Seq<char>) -> bool {
    is_identifier(t) && !is_true_word(t) && !is_false_word(t)
}

/// The text of a float literal: a float literal, whole, without separators.
pub open spec fn is_float_literal(t: Seq<char>) -> bool {
    &&& t.len() > 0
    &&& float_len(t, 0) == t.len()
    &&& forall|j: int| 0 <= j < t.len() ==> #[trigger] t[j] != '_'
}

/// The value of an integer literal: from zero to `i32::MAX`.
pub open spec fn is_count(v: int) -> bool {
    0 <= v <= i32::MAX
}

/// A number as the grammar has it: an integer or a float literal.
pub open spec fn is_number(e: ExpressionModel) -> bool {
    match e {
        ExpressionModel::Int(v) => is_count(v),
        ExpressionModel::Float(t) => is_float_literal(t),
        _ => false,
    }
}

/// Whether an expression is one that the grammar yields: its names are
/// names, its numbers are numbers, a unit stands behind a number, a string
/// literal has a part, a symbol has a segment.
pub open spec fn printable_expression(e: ExpressionModel) -> bool
    decreases e,
{
    match e {
        ExpressionModel::Call { name, args } => is_name(name) && forall|i: int|
            0 <= i < args.len() ==> printable_expression(#[trigger] args[i]),
        ExpressionModel::Unit(inner, unit) => is_number(*inner) && is_identifier(unit),
        ExpressionModel::Int(v) => is_count(v),
        ExpressionModel::Float(t) => is_float_literal(t),
        ExpressionModel::Boolean(_) => true,
        ExpressionModel::Text(parts) => parts.len() > 0 && printable_text(
            parts,
            CharClass::StringText,
        ),
        ExpressionModel::Symbol(path) => path.len() > 0 && is_name(path[0]) && forall|i: int|
            0 < i < path.len() ==> is_identifier(#[trigger] path[i]),
    }
}

/// Whether a text is one that the grammar yields for fragments of `class`:
/// each fragment has a character, has only characters of `class` and
/// follows no other fragment; each expression is one that the grammar
/// yields.
pub open spec fn printable_text(parts: Seq<TextPartModel>, class: CharClass) -> bool
    decreases parts,
{
    forall|i: int|
        0 <= i < parts.len() ==> match #[trigger] parts[i] {
            TextPartModel::Text(t) => {
                &&& t.len() > 0
                &&& forall|j: int| 0 <= j < t.len() ==> in_class(class, #[trigger] t[j])
                &&& i > 0 ==> parts[i - 1] is Expression
            },
            TextPartModel::Expression(e) => printable_expression(e),
        }
}

/// Whether a character can start an expression.
pub open spec fn starts_value(c: char) -> bool {
    is_digit(c) || c == '.' || c == '"' || is_ident_start(c)
}

/// Whether an expression may end at `pos`: the input ends there, or `}`, `,`,
/// `)` or a line feed stands there.
pub open spec fn ends_value(s: Seq<char>, pos: int) -> bool {
    pos >= s.len() || s[pos] == '}' || s[pos] == ',' || s[pos] == ')' || s[pos] == '\n'
}

/// Whether a comment is one that reads back from its printed form: it has
/// no line terminator, and does not start with `[`.
pub open spec fn printable_comment(t: Seq<char>) -> bool {
    &&& forall|j: int| 0 <= j < t.len() ==> !is_newline(#[trigger] t[j])
    &&& t.len() > 0 ==> t[0] != '['
}

/// Whether a text is one that the grammar yields behind a word and spaces:
/// a text of a line with a part, whose first character is no space or tab.
pub open spec fn printable_label(parts: Seq<TextPartModel>) -> bool {
    &&& parts.len() > 0
    &&& printable_text(parts, CharClass::LineText)
    &&& match parts[0] {
        TextPartModel::Text(t) => t.len() > 0 && !is_inline_space(t[0]),
        TextPartModel::Expression(_) => true,
    }
}

/// A speaker: an identifier or `&`.
pub open spec fn is_speaker(t: Seq<char>) -> bool {
    is_identifier(t) || t == "&"@
}

/// Whether an item of a block is one that reads back from its printed form.
pub open spec fn printable_part(p: ScenePartModel) -> bool
    decreases p,
{
    match p {
        ScenePartModel::SpeakerChangeMarker(marker) => is_speaker(marker.speaker_id)
            && forall|j: int|
            0 <= j < marker.modifiers.len() ==> is_identifier(#[trigger] marker.modifiers[j]),
        ScenePartModel::Dialogue(parts) => parts.len() > 0 && printable_text(
            parts,
            CharClass::LineText,
        ),
        ScenePartModel::Narration(parts) => printable_text(parts, CharClass::LineText),
        ScenePartModel::Prompt(prompt) => (match prompt.text {
            Some(parts) => printable_label(parts),
            None => true,
        }) && forall|j: int|
            0 <= j < prompt.options.len() ==> printable_option(#[trigger] prompt.options[j]),
        ScenePartModel::Expression(e) => printable_expression(e),
        ScenePartModel::Comment(t) => printable_comment(t),
    }
}

/// Whether an option is one that reads back from its printed form.
pub open spec fn printable_option(o: PromptOptionModel) -> bool
    decreases o,
{
    printable_label(o.text) && forall|j: int|
        0 <= j < o.content.len() ==> printable_part(#[trigger] o.content[j])
}

/// Whether a scene is one that reads back from its printed form.
pub open spec fn printable_scene(scene: SceneModel) -> bool {
    is_identifier(scene.name) && forall|j: int|
        0 <= j < scene.content.len() ==> printable_part(#[trigger] scene.content[j])
}

/// Whether a line ends at `pos`: the input ends there, or a line feed stands
/// there.
pub open spec fn ends_line(s: Seq<char>, pos: int) -> bool {
    pos >= s.len() || s[pos] == '\n'
}

/// Whether the comments of an item of a block, at any depth, read back
/// from their printed form.
pub open spec fn plain_part(p: ScenePartModel) -> bool
    decreases p,
{
    match p {
        ScenePartModel::Comment(t) => printable_comment(t),
        ScenePartModel::Prompt(prompt) => forall|j: int|
            0 <= j < prompt.options.len() ==> plain_option(#[trigger] prompt.options[j]),
        _ => true,
    }
}

/// Whether the comments of an option, at any depth, read back from their
/// printed form.
pub open spec fn plain_option(o: PromptOptionModel) -> bool
    decreases o,
{
    forall|j: int| 0 <= j < o.content.len() ==> plain_part(#[trigger] o.content[j])
}

/// Whether the comments of a scene, at any depth, read back from their
/// printed form.
pub open spec fn plain_scene(scene: SceneModel) -> bool {
    forall|j: int| 0 <= j < scene.content.len() ==> plain_part(#[trigger] scene.content[j])
}

/// Whether the assignments of a list are such as the grammar yields: each
/// has an identifier for its name, and a value that prints and reads back.
pub open spec fn fields_yielded(fields: Seq<(Seq<char>, ExpressionModel)>) -> bool {
    forall|j: int|
        0 <= j < fields.len() ==> is_identifier((#[trigger] fields[j]).0) && printable_expression(
            fields[j].1,
        )
}

/// Whether the comments of scenes, at any depth, read back from their
/// printed form.
pub open spec fn plain_script(scenes: Seq<SceneModel>) -> bool {
    forall|j: int| 0 <= j < scenes.len() ==> plain_scene(#[trigger] scenes[j])
}

} // verus!
