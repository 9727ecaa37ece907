use vstd::prelude::*;
use crate::parser::ast::{ScenePartModel, ScriptPartModel, TextPartModel};
use crate::parser::grammar::{
    keyword_at, remaining, separator_len, spec_block, spec_comment, spec_field, spec_identifier,
    spec_let_scene, spec_line_text, spec_modifiers, spec_option_rest, spec_options, spec_prompt,
    spec_scene_part, spec_script_part, spec_script_parts, spec_speaker_change_marker,
    spec_statement,
};
use crate::parser::scan::{at, at_class, has_word, lemma_run, run, CharClass};
use crate::roundtrip::scene_steps::lemma_words;
use crate::roundtrip::shape::{
    is_identifier, plain_option, plain_part, plain_scene, printable_expression, printable_label,
    printable_option, printable_part, printable_scene, printable_text,
};
use crate::roundtrip::yielded::{
    lemma_yields_expression, lemma_yields_identifier, lemma_yields_text,
};

verus! {

/// What the grammar yields for the text of a line is a text of the shape
/// that prints and reads back.
pub proof fn lemma_yields_line(s: Seq<char>, p: int)
    ensures
        match spec_line_text(s, p) {
            Ok((parts, _)) => {
                &&& printable_text(parts, CharClass::LineText)
                &&& at_class(s, p, CharClass::LineText) || at(s, p, '{') ==> parts.len() > 0
                &&& parts.len() > 0 ==> match parts[0] {
                    TextPartModel::Text(t) => t.len() > 0 && t[0] == s[p] && 0 <= p < s.len(),
                    TextPartModel::Expression(_) => true,
                }
            },
            Err(_) => true,
        },
{
    reveal(spec_line_text);
    lemma_yields_text(s, p, CharClass::LineText);
}

/// A text of a line that starts where no space or tab stands is a label.
pub proof fn lemma_yields_label(s: Seq<char>, p: int)
    requires
        !at_class(s, p, CharClass::InlineSpace),
    ensures
        match spec_line_text(s, p) {
            Ok((parts, _)) => parts.len() > 0 ==> printable_label(parts),
            Err(_) => true,
        },
{
    lemma_yields_line(s, p);
}

/// The modifiers that the grammar yields are identifiers.
pub proof fn lemma_yields_modifiers(s: Seq<char>, p: int)
    ensures
        match spec_modifiers(s, p) {
            Ok((modifiers, _)) => forall|j: int|
                0 <= j < modifiers.len() ==> is_identifier(#[trigger] modifiers[j]),
            Err(_) => true,
        },
    decreases remaining(s, p),
{
    let w = run(s, p, CharClass::InlineSpace);
    if at(s, p + w, ']') {
    } else if at_class(s, p, CharClass::InlineSpace) {
        lemma_yields_identifier(s, p + w);
        match spec_identifier(s, p + w) {
            Ok((word, n)) => {
                lemma_yields_modifiers(s, p + w + n);
                match spec_modifiers(s, p + w + n) {
                    Ok((rest, _)) => {
                        let all = seq![word] + rest;
                        assert forall|j: int| 0 <= j < all.len() implies is_identifier(
                            #[trigger] all[j],
                        ) by {
                            if j > 0 {
                                assert(all[j] == rest[j - 1]);
                            }
                        }
                    },
                    Err(_) => {},
                }
            },
            Err(_) => {},
        }
    }
}

/// What the grammar yields for an item of a block prints and reads back,
/// where its comments do.
pub proof fn lemma_yields_part(s: Seq<char>, p: int)
    ensures
        match spec_scene_part(s, p) {
            Ok((part, _)) => plain_part(part) ==> printable_part(part),
            Err(_) => true,
        },
    decreases remaining(s, p), 1nat,
{
    reveal(spec_comment);
    reveal(spec_speaker_change_marker);
    reveal(spec_statement);
    if has_word(s, p, "--"@) {
    } else if at(s, p, '[') {
        let w = 1 + run(s, p + 1, CharClass::InlineSpace);
        lemma_yields_identifier(s, p + w);
        if at(s, p + w, '&') {
            lemma_yields_modifiers(s, p + w + 1);
        } else {
            match spec_identifier(s, p + w) {
                Ok((_, n)) => {
                    lemma_yields_modifiers(s, p + w + n);
                },
                Err(_) => {},
            }
        }
    } else if has_word(s, p, "- "@) {
        lemma_yields_line(s, p + 2);
    } else if has_word(s, p, "* "@) {
        lemma_yields_line(s, p + 2);
    } else if keyword_at(s, p, "prompt"@) {
        lemma_yields_prompt(s, p);
    } else {
        lemma_yields_expression(s, p);
    }
}

/// The items that the grammar yields for a block print and read back,
/// where their comments do.
pub proof fn lemma_yields_block(s: Seq<char>, p: int)
    ensures
        match spec_block(s, p) {
            Ok((parts, _)) => forall|j: int|
                0 <= j < parts.len() && plain_part(#[trigger] parts[j]) ==> printable_part(
                    parts[j],
                ),
            Err(_) => true,
        },
    decreases remaining(s, p), 2nat,
{
    if keyword_at(s, p, "end"@) {
    } else if p >= s.len() {
    } else {
        lemma_yields_part(s, p);
        match spec_scene_part(s, p) {
            Ok((part, n)) => {
                let sep = separator_len(s, p + n);
                if sep > 0 {
                    lemma_yields_block(s, p + n + sep);
                    match spec_block(s, p + n + sep) {
                        Ok((rest, _)) => {
                            let all = seq![part] + rest;
                            assert forall|j: int|
                                0 <= j < all.len() && plain_part(
                                    #[trigger] all[j],
                                ) implies printable_part(all[j]) by {
                                if j > 0 {
                                    assert(all[j] == rest[j - 1]);
                                }
                            }
                        },
                        Err(_) => {},
                    }
                }
            },
            Err(_) => {},
        }
    }
}

/// What the grammar yields for a prompt prints and reads back, where its
/// comments do.
pub proof fn lemma_yields_prompt(s: Seq<char>, p: int)
    ensures
        match spec_prompt(s, p) {
            Ok((prompt, _)) => plain_part(ScenePartModel::Prompt(prompt)) ==> printable_part(
                ScenePartModel::Prompt(prompt),
            ),
            Err(_) => true,
        },
    decreases remaining(s, p), 0nat,
{
    lemma_words();
    let w = run(s, p + 6, CharClass::InlineSpace);
    if keyword_at(s, p, "prompt"@) {
        lemma_run(s, p + 6, CharClass::InlineSpace);
        let n: nat = if w > 0 && (at_class(s, p + 6 + w, CharClass::LineText) || at(
            s,
            p + 6 + w,
            '{',
        )) {
            lemma_yields_label(s, p + 6 + w);
            lemma_yields_line(s, p + 6 + w);
            match spec_line_text(s, p + 6 + w) {
                Ok((_, n)) => w + n,
                Err(_) => 0,
            }
        } else {
            0
        };
        let g = 6 + n + run(s, p + 6 + n, CharClass::Space);
        lemma_yields_options(s, p + g);
    }
}

/// The options that the grammar yields for a prompt print and read back,
/// where their comments do.
pub proof fn lemma_yields_options(s: Seq<char>, p: int)
    ensures
        match spec_options(s, p) {
            Ok((options, _)) => forall|j: int|
                0 <= j < options.len() && plain_option(#[trigger] options[j])
                    ==> printable_option(options[j]),
            Err(_) => true,
        },
    decreases remaining(s, p), 0nat,
{
    lemma_words();
    if keyword_at(s, p, "end"@) {
    } else if keyword_at(s, p, "option"@) {
        lemma_yields_option(s, p + 6);
        match spec_option_rest(s, p + 6) {
            Ok((option, n)) => {
                let g = 6 + n + run(s, p + 6 + n, CharClass::Space);
                lemma_yields_options(s, p + g);
                match spec_options(s, p + g) {
                    Ok((rest, _)) => {
                        let all = seq![option] + rest;
                        assert forall|j: int|
                            0 <= j < all.len() && plain_option(
                                #[trigger] all[j],
                            ) implies printable_option(all[j]) by {
                            if j > 0 {
                                assert(all[j] == rest[j - 1]);
                            }
                        }
                    },
                    Err(_) => {},
                }
            },
            Err(_) => {},
        }
    }
}

/// What the grammar yields for an option prints and reads back, where its
/// comments do.
pub proof fn lemma_yields_option(s: Seq<char>, p: int)
    ensures
        match spec_option_rest(s, p) {
            Ok((option, _)) => plain_option(option) ==> printable_option(option),
            Err(_) => true,
        },
    decreases remaining(s, p), 0nat,
{
    let w = run(s, p, CharClass::InlineSpace);
    if at_class(s, p, CharClass::InlineSpace) {
        lemma_run(s, p, CharClass::InlineSpace);
        lemma_yields_label(s, p + w);
        match spec_line_text(s, p + w) {
            Ok((text, n)) => {
                if text.len() > 0 {
                    let g = w + n + run(s, p + w + n, CharClass::Space);
                    lemma_yields_block(s, p + g);
                }
            },
            Err(_) => {},
        }
    }
}

/// What the grammar yields for a scene prints and reads back, where its
/// comments do.
pub proof fn lemma_yields_scene(s: Seq<char>, p: int)
    ensures
        match spec_let_scene(s, p) {
            Ok((scene, _)) => plain_scene(scene) ==> printable_scene(scene),
            Err(_) => true,
        },
{
    let w = 5 + run(s, p + 5, CharClass::InlineSpace);
    lemma_yields_identifier(s, p + w);
    match spec_identifier(s, p + w) {
        Ok((name, n)) => {
            let sep = separator_len(s, p + w + n);
            let g = w + n + if sep > 0 {
                sep
            } else {
                run(s, p + w + n, CharClass::InlineSpace)
            };
            lemma_yields_block(s, p + g);
        },
        Err(_) => {},
    }
}

/// What the grammar yields for a field assignment has an identifier for
/// its name, and a value that prints and reads back.
pub proof fn lemma_yields_field(s: Seq<char>, p: int)
    ensures
        match spec_field(s, p) {
            Ok(((name, value), _)) => is_identifier(name) && printable_expression(value),
            Err(_) => true,
        },
{
    lemma_yields_identifier(s, p);
    match spec_identifier(s, p) {
        Ok((name, n)) => {
            let eq = n + run(s, p + n, CharClass::InlineSpace);
            let w = eq + 1 + run(s, p + eq + 1, CharClass::InlineSpace);
            lemma_yields_expression(s, p + w);
        },
        Err(_) => {},
    }
}

/// Whether an item of a script prints and reads back, where its comments
/// do.
pub open spec fn item_ok(part: ScriptPartModel) -> bool {
    match part {
        ScriptPartModel::Scene(scene) => plain_scene(scene) ==> printable_scene(scene),
        ScriptPartModel::Comment(_) => true,
        ScriptPartModel::Field(name, value) => is_identifier(name) && printable_expression(value),
    }
}

/// What the grammar yields for an item of a script prints and reads back,
/// where its comments do.
pub proof fn lemma_yields_item(s: Seq<char>, p: int)
    ensures
        match spec_script_part(s, p) {
            Ok((part, _)) => item_ok(part),
            Err(_) => true,
        },
{
    lemma_yields_scene(s, p);
    lemma_yields_field(s, p);
}

/// The items that the grammar yields for a script print and read back,
/// where their comments do.
pub proof fn lemma_yields_items(s: Seq<char>, p: int)
    ensures
        match spec_script_parts(s, p) {
            Ok((parts, _)) => forall|j: int| 0 <= j < parts.len() ==> item_ok(#[trigger] parts[j]),
            Err(_) => true,
        },
    decreases remaining(s, p),
{
    if p < s.len() {
        lemma_yields_item(s, p);
        match spec_script_part(s, p) {
            Ok((part, n)) => {
                let sep = separator_len(s, p + n);
                if sep > 0 {
                    lemma_yields_items(s, p + n + sep);
                    match spec_script_parts(s, p + n + sep) {
                        Ok((rest, _)) => {
                            let all = seq![part] + rest;
                            assert forall|j: int| 0 <= j < all.len() implies item_ok(
                                #[trigger] all[j],
                            ) by {
                                if j > 0 {
                                    assert(all[j] == rest[j - 1]);
                                }
                            }
                        },
                        Err(_) => {},
                    }
                }
            },
            Err(_) => {},
        }
    }
}

} // verus!
