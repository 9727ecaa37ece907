use vstd::prelude::*;
use crate::parser::ast::{
    lemma_options_push, lemma_scene_parts_push, lemma_strings_push, options_model,
    scene_parts_model, strings_view, text_parts_model, Dialogue, Expression, Narration, Prompt,
    PromptOption, PromptOptionModel, Scene, ScenePart, ScriptPart, SpeakerChangeMarker, TextPart,
};
use crate::parser::error::{fail, Expected, SyntaxError};
use crate::parser::expression::{at_keyword, p_expression, p_identifier, p_text_parts, word_end};
use crate::parser::grammar::{
    after, block_comment_len, keyword_at, lemma_after_end, lemma_after_nothing, lemma_after_one,
    separator_len, spec_block, spec_comment, spec_dialogue, spec_field, spec_let_scene,
    spec_line_text, spec_modifiers, spec_narration, spec_options, spec_prompt, spec_prompt_option,
    spec_scene_part, spec_script_part, spec_speaker_change_marker, spec_statement,
};
use crate::parser::scan::{
    at, is_at, is_at_class, run, scan, slice_to_string, starts_with, CharClass,
};

verus! {

/// The lengths of the reserved words.
pub proof fn lemma_keyword_lengths()
    ensures
        "scene"@.len() == 5,
        "end"@.len() == 3,
        "prompt"@.len() == 6,
        "option"@.len() == 6,
{
    reveal_strlit("scene");
    reveal_strlit("end");
    reveal_strlit("prompt");
    reveal_strlit("option");
}

/// Where the next `]--` starts, looking from `pos` on.
pub fn block_comment_end(input: &Vec<char>, pos: usize) -> (r: Option<usize>)
    requires
        pos <= input.len(),
    ensures
        match (r, block_comment_len(input@, pos as int)) {
            (Some(end), Some(n)) => end == pos + n && end + 3 <= input.len(),
            (None, None) => true,
            _ => false,
        },
{
    let mut cur: usize = pos;
    loop
        invariant
            pos <= cur <= input.len(),
            match block_comment_len(input@, cur as int) {
                Some(n) => block_comment_len(input@, pos as int) == Some((cur - pos + n) as nat),
                None => block_comment_len(input@, pos as int) is None,
            },
        decreases input.len() - cur,
    {
        if starts_with(input, cur, "]--") {
            proof {
                reveal_strlit("]--");
            }
            return Some(cur);
        }
        if cur >= input.len() {
            return None;
        }
        cur += 1;
    }
}

/// The comment at `pos`, as its text, and where it ends.
pub fn p_comment(input: &Vec<char>, pos: usize) -> (r: Result<(String, usize), SyntaxError>)
    requires
        pos <= input.len(),
    ensures
        match (r, spec_comment(input@, pos as int)) {
            (Ok((text, end)), Ok((m, n))) => text@ == m && end == pos + n && pos < end
                <= input.len(),
            (Err(e), Err(f)) => e == f,
            _ => false,
        },
{
    proof {
        reveal(spec_comment);
        reveal_strlit("--[");
        reveal_strlit("--");
    }
    if starts_with(input, pos, "--[") {
        match block_comment_end(input, pos + 3) {
            Some(end) => Ok((slice_to_string(input, pos + 3, end), end + 3)),
            None => Err(SyntaxError { offset: input.len(), expected: Expected::BlockCommentEnd }),
        }
    } else if starts_with(input, pos, "--") {
        let end = scan(input, pos + 2, CharClass::CommentText);
        Ok((slice_to_string(input, pos + 2, end), end))
    } else {
        Err(SyntaxError { offset: pos, expected: Expected::Comment })
    }
}

/// The modifiers of a speaker change marker, from behind its speaker at
/// `pos` up to its `]`.
pub fn p_modifiers(input: &Vec<char>, pos: usize) -> (r: Result<(Vec<String>, usize), SyntaxError>)
    requires
        pos <= input.len(),
    ensures
        match (r, spec_modifiers(input@, pos as int)) {
            (Ok((modifiers, end)), Ok((m, n))) => strings_view(modifiers@) == m && end == pos + n
                && pos < end <= input.len(),
            (Err(e), Err(f)) => e == f,
            _ => false,
        },
{
    let mut modifiers: Vec<String> = Vec::new();
    let mut cur: usize = pos;
    proof {
        lemma_after_nothing(spec_modifiers(input@, pos as int));
        assert(strings_view(modifiers@) =~= Seq::empty());
    }
    loop
        invariant
            pos <= cur <= input.len(),
            spec_modifiers(input@, pos as int) == after(
                strings_view(modifiers@),
                (cur - pos) as nat,
                spec_modifiers(input@, cur as int),
            ),
        decreases input.len() - cur,
    {
        let next = scan(input, cur, CharClass::InlineSpace);
        if is_at(input, next, ']') {
            proof {
                lemma_after_end(
                    strings_view(modifiers@),
                    (cur - pos) as nat,
                    (next + 1 - cur) as nat,
                );
            }
            return Ok((modifiers, next + 1));
        }
        if next == cur {
            return Err(SyntaxError { offset: next, expected: Expected::ClosingBracket });
        }
        match p_identifier(input, next) {
            Ok((word, end)) => {
                proof {
                    lemma_strings_push(modifiers@, word);
                    lemma_after_one(
                        strings_view(modifiers@),
                        (cur - pos) as nat,
                        word@,
                        (end - cur) as nat,
                        spec_modifiers(input@, end as int),
                    );
                }
                modifiers.push(word);
                cur = end;
            },
            Err(_) => {
                return Err(SyntaxError { offset: next, expected: Expected::ClosingBracket });
            },
        }
    }
}

/// The speaker change marker at `pos`, and where it ends.
pub fn p_speaker_change_marker(input: &Vec<char>, pos: usize) -> (r: Result<
    (SpeakerChangeMarker, usize),
    SyntaxError,
>)
    requires
        pos <= input.len(),
    ensures
        match (r, spec_speaker_change_marker(input@, pos as int)) {
            (Ok((marker, end)), Ok((m, n))) => marker@ == m && end == pos + n && pos < end
                <= input.len(),
            (Err(e), Err(f)) => e == f,
            _ => false,
        },
{
    proof {
        reveal(spec_speaker_change_marker);
    }
    if !is_at(input, pos, '[') {
        return Err(SyntaxError { offset: pos, expected: Expected::Marker });
    }
    let start = scan(input, pos + 1, CharClass::InlineSpace);
    let (speaker_id, end) = if is_at(input, start, '&') {
        (slice_to_string(input, start, start + 1), start + 1)
    } else {
        match p_identifier(input, start) {
            Ok(found) => found,
            Err(_) => {
                return Err(SyntaxError { offset: start, expected: Expected::Speaker });
            },
        }
    };
    proof {
        reveal_strlit("&");
        if at(input@, start as int, '&') {
            assert(input@.subrange(start as int, start + 1) =~= "&"@);
        }
    }
    match p_modifiers(input, end) {
        Ok((modifiers, end)) => Ok((SpeakerChangeMarker { speaker_id, modifiers }, end)),
        Err(e) => Err(e),
    }
}

/// The text of a line from `pos` on: its parts, and where it ends.
pub fn p_line_text(input: &Vec<char>, pos: usize) -> (r: Result<
    (Vec<TextPart>, usize),
    SyntaxError,
>)
    requires
        pos <= input.len(),
    ensures
        match (r, spec_line_text(input@, pos as int)) {
            (Ok((parts, end)), Ok((m, n))) => text_parts_model(parts@) == m && end == pos + n
                && end <= input.len(),
            (Err(e), Err(f)) => e == f,
            _ => false,
        },
{
    proof {
        reveal(spec_line_text);
    }
    p_text_parts(input, pos, CharClass::LineText)
}

/// An expression that stands as an item of a block, and where it ends.
pub fn p_statement(input: &Vec<char>, pos: usize) -> (r: Result<(Expression, usize), SyntaxError>)
    requires
        pos <= input.len(),
    ensures
        match (r, spec_statement(input@, pos as int)) {
            (Ok((e, end)), Ok((m, n))) => e@ == m && end == pos + n && end <= input.len(),
            (Err(e), Err(f)) => e == f,
            _ => false,
        },
{
    proof {
        reveal(spec_statement);
    }
    p_expression(input, pos)
}

/// The line of dialogue at `pos`, and where it ends.
pub fn p_dialogue(input: &Vec<char>, pos: usize) -> (r: Result<(Dialogue, usize), SyntaxError>)
    requires
        pos <= input.len(),
    ensures
        match (r, spec_dialogue(input@, pos as int)) {
            (Ok((dialogue, end)), Ok((m, n))) => dialogue@ == m && end == pos + n && pos < end
                <= input.len(),
            (Err(e), Err(f)) => e == f,
            _ => false,
        },
{
    proof {
        reveal_strlit("- ");
    }
    if !starts_with(input, pos, "- ") {
        return Err(SyntaxError { offset: pos, expected: Expected::Dialogue });
    }
    match p_line_text(input, pos + 2) {
        Ok((parts, end)) => {
            if parts.len() == 0 {
                Err(SyntaxError { offset: pos + 2, expected: Expected::Text })
            } else {
                Ok((Dialogue { parts }, end))
            }
        },
        Err(e) => Err(e),
    }
}

/// The line of narration at `pos`, and where it ends.
pub fn p_narration(input: &Vec<char>, pos: usize) -> (r: Result<(Narration, usize), SyntaxError>)
    requires
        pos <= input.len(),
    ensures
        match (r, spec_narration(input@, pos as int)) {
            (Ok((narration, end)), Ok((m, n))) => narration@ == m && end == pos + n && pos < end
                <= input.len(),
            (Err(e), Err(f)) => e == f,
            _ => false,
        },
{
    proof {
        reveal_strlit("* ");
    }
    if !starts_with(input, pos, "* ") {
        return Err(SyntaxError { offset: pos, expected: Expected::Narration });
    }
    match p_line_text(input, pos + 2) {
        Ok((parts, end)) => Ok((Narration { parts }, end)),
        Err(e) => Err(e),
    }
}

/// End of the separator that starts at `pos`; `pos` itself where none
/// starts.
pub fn p_semicolon(input: &Vec<char>, pos: usize) -> (end: usize)
    requires
        pos <= input.len(),
    ensures
        end == pos + separator_len(input@, pos as int),
        pos <= end <= input.len(),
{
    let mark = scan(input, pos, CharClass::InlineSpace);
    if is_at(input, mark, ';') || is_at(input, mark, '\n') || is_at(input, mark, '\r') {
        scan(input, mark + 1, CharClass::Space)
    } else {
        pos
    }
}

/// The item of a block at `pos`, and where it ends.
pub fn p_scene_part(input: &Vec<char>, pos: usize) -> (r: Result<(ScenePart, usize), SyntaxError>)
    requires
        pos <= input.len(),
    ensures
        match (r, spec_scene_part(input@, pos as int)) {
            (Ok((part, end)), Ok((m, n))) => part@ == m && end == pos + n && end <= input.len(),
            (Err(e), Err(f)) => e == f,
            _ => false,
        },
    decreases input.len() - pos, 1nat,
{
    if starts_with(input, pos, "--") {
        match p_comment(input, pos) {
            Ok((text, end)) => Ok((ScenePart::Comment(text), end)),
            Err(e) => Err(e),
        }
    } else if is_at(input, pos, '[') {
        match p_speaker_change_marker(input, pos) {
            Ok((marker, end)) => Ok((ScenePart::SpeakerChangeMarker(marker), end)),
            Err(e) => Err(e),
        }
    } else if starts_with(input, pos, "- ") {
        match p_dialogue(input, pos) {
            Ok((dialogue, end)) => Ok((ScenePart::Dialogue(dialogue), end)),
            Err(e) => Err(e),
        }
    } else if starts_with(input, pos, "* ") {
        match p_narration(input, pos) {
            Ok((narration, end)) => Ok((ScenePart::Narration(narration), end)),
            Err(e) => Err(e),
        }
    } else if at_keyword(input, pos, "prompt") {
        match p_prompt(input, pos) {
            Ok((prompt, end)) => Ok((ScenePart::Prompt(prompt), end)),
            Err(e) => Err(e),
        }
    } else {
        match p_statement(input, pos) {
            Ok((e, end)) => Ok((ScenePart::Expression(e), end)),
            Err(e) => Err(e),
        }
    }
}

/// The items of a block, from `pos`, where the first of them or the closing
/// `end` starts, up to and with that `end`.
pub fn p_scene_block(input: &Vec<char>, pos: usize) -> (r: Result<
    (Vec<ScenePart>, usize),
    SyntaxError,
>)
    requires
        pos <= input.len(),
    ensures
        match (r, spec_block(input@, pos as int)) {
            (Ok((parts, end)), Ok((m, n))) => scene_parts_model(parts@) == m && end == pos + n
                && pos < end <= input.len(),
            (Err(e), Err(f)) => e == f,
            _ => false,
        },
    decreases input.len() - pos, 2nat,
{
    let mut parts: Vec<ScenePart> = Vec::new();
    let mut cur: usize = pos;
    proof {
        lemma_after_nothing(spec_block(input@, pos as int));
        assert(scene_parts_model(parts@) =~= Seq::empty());
        lemma_keyword_lengths();
    }
    loop
        invariant
            pos <= cur <= input.len(),
            "end"@.len() == 3,
            spec_block(input@, pos as int) == after(
                scene_parts_model(parts@),
                (cur - pos) as nat,
                spec_block(input@, cur as int),
            ),
        decreases input.len() - cur,
    {
        if at_keyword(input, cur, "end") {
            proof {
                lemma_after_end(scene_parts_model(parts@), (cur - pos) as nat, 3);
            }
            return Ok((parts, cur + 3));
        }
        if cur >= input.len() {
            return Err(SyntaxError { offset: cur, expected: Expected::End });
        }
        match p_scene_part(input, cur) {
            Ok((part, end)) => {
                let next = p_semicolon(input, end);
                proof {
                    lemma_scene_parts_push(parts@, part);
                }
                if next > end {
                    proof {
                        lemma_after_one(
                            scene_parts_model(parts@),
                            (cur - pos) as nat,
                            part@,
                            (next - cur) as nat,
                            spec_block(input@, next as int),
                        );
                    }
                    parts.push(part);
                    cur = next;
                } else {
                    let last = scan(input, end, CharClass::InlineSpace);
                    if at_keyword(input, last, "end") {
                        proof {
                            assert(scene_parts_model(parts@) + seq![part@] =~= scene_parts_model(
                                parts@,
                            ).push(part@));
                        }
                        parts.push(part);
                        return Ok((parts, last + 3));
                    } else if last >= input.len() {
                        return Err(SyntaxError { offset: last, expected: Expected::End });
                    } else {
                        return Err(SyntaxError { offset: last, expected: Expected::Separator });
                    }
                }
            },
            Err(e) => {
                return Err(e);
            },
        }
    }
}

/// The prompt at `pos`, and where it ends.
pub fn p_prompt(input: &Vec<char>, pos: usize) -> (r: Result<(Prompt, usize), SyntaxError>)
    requires
        pos <= input.len(),
    ensures
        match (r, spec_prompt(input@, pos as int)) {
            (Ok((prompt, end)), Ok((m, n))) => prompt@ == m && end == pos + n && pos < end
                <= input.len(),
            (Err(e), Err(f)) => e == f,
            _ => false,
        },
    decreases input.len() - pos, 0nat,
{
    proof {
        lemma_keyword_lengths();
    }
    if !at_keyword(input, pos, "prompt") {
        return Err(SyntaxError { offset: pos, expected: Expected::Prompt });
    }
    let start = scan(input, pos + 6, CharClass::InlineSpace);
    let (text, end) = if start > pos + 6 && (is_at_class(input, start, CharClass::LineText)
        || is_at(input, start, '{')) {
        match p_line_text(input, start) {
            Ok((parts, end)) => (Some(parts), end),
            Err(e) => {
                return Err(e);
            },
        }
    } else {
        (None, pos + 6)
    };
    let first = scan(input, end, CharClass::Space);
    match p_options(input, first) {
        Ok((options, end)) => Ok((Prompt { text, options }, end)),
        Err(e) => Err(e),
    }
}

/// The options of a prompt are the first of them and those behind it.
pub proof fn lemma_options_step(s: Seq<char>, pos: int)
    ensures
        spec_options(s, pos) == (if keyword_at(s, pos, "end"@) {
            Ok((Seq::empty(), 3))
        } else if keyword_at(s, pos, "option"@) {
            match spec_prompt_option(s, pos) {
                Ok((option, n)) => {
                    let g = n + run(s, pos + n, CharClass::Space);
                    after(seq![option], g, spec_options(s, pos + g))
                },
                Err(e) => Err(e),
            }
        } else {
            fail(pos, Expected::OptionOrEnd)
        }),
{
}

/// The option that starts at `pos` and the place behind it and the white
/// space that follows; nothing where the prompt's `end` stands at `pos`.
pub fn p_next_option(input: &Vec<char>, pos: usize) -> (r: Result<
    Option<(PromptOption, usize)>,
    SyntaxError,
>)
    requires
        pos <= input.len(),
    ensures
        match r {
            Ok(None) => spec_options(input@, pos as int) == Ok::<
                (Seq<PromptOptionModel>, nat),
                SyntaxError,
            >((Seq::empty(), 3)) && pos + 3 <= input.len(),
            Ok(Some((option, next))) => spec_options(input@, pos as int) == after(
                seq![option@],
                (next - pos) as nat,
                spec_options(input@, next as int),
            ) && pos < next <= input.len(),
            Err(e) => spec_options(input@, pos as int) == Err::<
                (Seq<PromptOptionModel>, nat),
                SyntaxError,
            >(e),
        },
    decreases input.len() - pos, 1nat,
{
    proof {
        lemma_keyword_lengths();
        lemma_options_step(input@, pos as int);
    }
    if at_keyword(input, pos, "end") {
        return Ok(None);
    }
    if !at_keyword(input, pos, "option") {
        return Err(SyntaxError { offset: pos, expected: Expected::OptionOrEnd });
    }
    match p_prompt_option(input, pos) {
        Ok((option, end)) => {
            let next = scan(input, end, CharClass::Space);
            Ok(Some((option, next)))
        },
        Err(e) => Err(e),
    }
}

/// The options of a prompt, from `pos`, where the first of them or the
/// closing `end` starts, up to and with that `end`.
pub fn p_options(input: &Vec<char>, pos: usize) -> (r: Result<
    (Vec<PromptOption>, usize),
    SyntaxError,
>)
    requires
        pos <= input.len(),
    ensures
        match (r, spec_options(input@, pos as int)) {
            (Ok((options, end)), Ok((m, n))) => options_model(options@) == m && end == pos + n
                && pos < end <= input.len(),
            (Err(e), Err(f)) => e == f,
            _ => false,
        },
    decreases input.len() - pos, 2nat,
{
    let mut options: Vec<PromptOption> = Vec::new();
    let mut cur: usize = pos;
    proof {
        lemma_after_nothing(spec_options(input@, pos as int));
        assert(options_model(options@) =~= Seq::empty());
    }
    loop
        invariant
            pos <= cur <= input.len(),
            spec_options(input@, pos as int) == after(
                options_model(options@),
                (cur - pos) as nat,
                spec_options(input@, cur as int),
            ),
        decreases input.len() - cur,
    {
        match p_next_option(input, cur) {
            Ok(None) => {
                proof {
                    lemma_after_end(options_model(options@), (cur - pos) as nat, 3);
                }
                return Ok((options, cur + 3));
            },
            Ok(Some((option, next))) => {
                proof {
                    lemma_options_push(options@, option);
                    lemma_after_one(
                        options_model(options@),
                        (cur - pos) as nat,
                        option@,
                        (next - cur) as nat,
                        spec_options(input@, next as int),
                    );
                }
                options.push(option);
                cur = next;
            },
            Err(e) => {
                return Err(e);
            },
        }
    }
}

/// The option at `pos`, and where it ends.
pub fn p_prompt_option(input: &Vec<char>, pos: usize) -> (r: Result<
    (PromptOption, usize),
    SyntaxError,
>)
    requires
        pos <= input.len(),
    ensures
        match (r, spec_prompt_option(input@, pos as int)) {
            (Ok((option, end)), Ok((m, n))) => option@ == m && end == pos + n && pos + 6 < end
                <= input.len(),
            (Err(e), Err(f)) => e == f,
            _ => false,
        },
    decreases input.len() - pos, 0nat,
{
    proof {
        lemma_keyword_lengths();
    }
    if !at_keyword(input, pos, "option") {
        return Err(SyntaxError { offset: pos, expected: Expected::PromptOption });
    }
    let label = scan(input, pos + 6, CharClass::InlineSpace);
    if label == pos + 6 {
        return Err(SyntaxError { offset: pos + 6, expected: Expected::Space });
    }
    match p_line_text(input, label) {
        Ok((text, end)) => {
            if text.len() == 0 {
                return Err(SyntaxError { offset: label, expected: Expected::Text });
            }
            let first = scan(input, end, CharClass::Space);
            match p_scene_block(input, first) {
                Ok((content, end)) => Ok((PromptOption { text, content }, end)),
                Err(e) => Err(e),
            }
        },
        Err(e) => Err(e),
    }
}

/// A scene at `pos`, and where it ends.
pub fn p_scene_def(input: &Vec<char>, pos: usize) -> (r: Result<(Scene, usize), SyntaxError>)
    requires
        pos <= input.len(),
    ensures
        match (r, spec_let_scene(input@, pos as int)) {
            (Ok((scene, end)), Ok((m, n))) => scene@ == m && end == pos + n && pos < end
                <= input.len(),
            (Err(e), Err(f)) => e == f,
            _ => false,
        },
{
    proof {
        lemma_keyword_lengths();
    }
    if !at_keyword(input, pos, "scene") {
        return Err(SyntaxError { offset: pos, expected: Expected::Scene });
    }
    let start = scan(input, pos + 5, CharClass::InlineSpace);
    if start == pos + 5 {
        return Err(SyntaxError { offset: pos + 5, expected: Expected::Space });
    }
    match p_identifier(input, start) {
        Ok((name, end)) => {
            let sep = p_semicolon(input, end);
            let first = if sep > end {
                sep
            } else {
                scan(input, end, CharClass::InlineSpace)
            };
            match p_scene_block(input, first) {
                Ok((content, end)) => Ok((Scene { name, content }, end)),
                Err(e) => Err(e),
            }
        },
        Err(e) => Err(e),
    }
}

/// A field assignment at `pos`, and where it ends.
pub fn p_field_at(input: &Vec<char>, pos: usize) -> (r: Result<
    ((String, Expression), usize),
    SyntaxError,
>)
    requires
        pos <= input.len(),
    ensures
        match (r, spec_field(input@, pos as int)) {
            (Ok(((name, value), end)), Ok(((m, v), n))) => name@ == m && value@ == v && end == pos
                + n && pos < end <= input.len(),
            (Err(e), Err(f)) => e == f,
            _ => false,
        },
{
    match p_identifier(input, pos) {
        Ok((name, end)) => {
            let eq = scan(input, end, CharClass::InlineSpace);
            if !is_at(input, eq, '=') {
                return Err(SyntaxError { offset: eq, expected: Expected::Equals });
            }
            let start = scan(input, eq + 1, CharClass::InlineSpace);
            match p_expression(input, start) {
                Ok((value, end)) => Ok(((name, value), end)),
                Err(e) => Err(e),
            }
        },
        Err(e) => Err(e),
    }
}

/// The item of a script at `pos`, and where it ends.
pub fn p_script_part(input: &Vec<char>, pos: usize) -> (r: Result<
    (ScriptPart, usize),
    SyntaxError,
>)
    requires
        pos <= input.len(),
    ensures
        match (r, spec_script_part(input@, pos as int)) {
            (Ok((part, end)), Ok((m, n))) => part@ == m && end == pos + n && pos < end
                <= input.len(),
            (Err(e), Err(f)) => e == f,
            _ => false,
        },
{
    if starts_with(input, pos, "--") {
        match p_comment(input, pos) {
            Ok((text, end)) => Ok((ScriptPart::Comment(text), end)),
            Err(e) => Err(e),
        }
    } else if at_keyword(input, pos, "scene") {
        match p_scene_def(input, pos) {
            Ok((scene, end)) => Ok((ScriptPart::Scene(scene), end)),
            Err(e) => Err(e),
        }
    } else if word_end(input, pos) > pos {
        match p_field_at(input, pos) {
            Ok(((name, value), end)) => Ok((ScriptPart::Field(name, value), end)),
            Err(e) => Err(e),
        }
    } else {
        Err(SyntaxError { offset: pos, expected: Expected::Item })
    }
}

} // verus!
