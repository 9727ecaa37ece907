use vstd::prelude::*;
use crate::parser::ast::{
    ExpressionModel, PromptModel, PromptOptionModel, SceneModel, ScenePartModel,
    SpeakerChangeMarkerModel, TextPartModel,
};
use crate::parser::error::SyntaxError;
use crate::parser::grammar::{
    is_keyword, keyword_at, separator_len, spec_block, spec_comment, spec_let_scene, spec_line_text,
    spec_modifiers, spec_option_rest, spec_options, spec_scene_part, spec_speaker_change_marker,
    spec_statement, word_len,
};
use crate::parser::scan::{at, at_class, has_word, in_class, run, CharClass};
use crate::roundtrip::shape::{
    ends_line, is_identifier, is_speaker, is_word, printable_comment, starts_value,
};
use crate::roundtrip::steps::{reads_expression, reads_text};
use crate::roundtrip::text::{holds, lemma_holds_char, lemma_run_is, lemma_run_over};
use crate::roundtrip::tokens::{lemma_identifier, lemma_word};

verus! {

/// Whether the grammar reads the text of a line at `p`.
pub open spec fn reads_line(s: Seq<char>, p: int, parts: Seq<TextPartModel>, n: nat) -> bool {
    spec_line_text(s, p) == Ok::<(Seq<TextPartModel>, nat), SyntaxError>((parts, n))
}

/// A text of fragments of a line is the text of a line.
pub proof fn lemma_reads_line(s: Seq<char>, p: int, parts: Seq<TextPartModel>, n: nat)
    requires
        reads_text(s, p, CharClass::LineText, parts, n),
    ensures
        reads_line(s, p, parts, n),
{
    reveal(reads_text);
    reveal(spec_line_text);
}

/// Whether the grammar reads the item `part` at `p`, over `n` characters.
#[verifier::opaque]
pub open spec fn reads_part(s: Seq<char>, p: int, part: ScenePartModel, n: nat) -> bool {
    spec_scene_part(s, p) == Ok::<(ScenePartModel, nat), SyntaxError>((part, n))
}

/// Whether the grammar reads the items `parts` and the `end` behind them at
/// `p`, over `n` characters.
#[verifier::opaque]
pub open spec fn reads_block(s: Seq<char>, p: int, parts: Seq<ScenePartModel>, n: nat) -> bool {
    spec_block(s, p) == Ok::<(Seq<ScenePartModel>, nat), SyntaxError>((parts, n))
}

/// Whether the grammar reads the options `options` and the `end` behind
/// them at `p`, over `n` characters.
#[verifier::opaque]
pub open spec fn reads_options(
    s: Seq<char>,
    p: int,
    options: Seq<PromptOptionModel>,
    n: nat,
) -> bool {
    spec_options(s, p) == Ok::<(Seq<PromptOptionModel>, nat), SyntaxError>((options, n))
}

/// The lengths of the reserved words and marks.
pub proof fn lemma_words()
    ensures
        "scene"@.len() == 5,
        "end"@.len() == 3,
        "prompt"@.len() == 6,
        "option"@.len() == 6,
        "--"@.len() == 2,
        "--["@.len() == 3,
        "- "@.len() == 2,
        "* "@.len() == 2,
        "&"@.len() == 1,
        "--"@[0] == '-',
        "--"@[1] == '-',
        "--["@[0] == '-',
        "--["@[1] == '-',
        "--["@[2] == '[',
        "- "@[0] == '-',
        "- "@[1] == ' ',
        "* "@[0] == '*',
        "* "@[1] == ' ',
        "&"@[0] == '&',
        "end"@[0] == 'e',
        "prompt"@[0] == 'p',
        "option"@[0] == 'o',
        "scene"@[0] == 's',
{
    reveal_strlit("scene");
    reveal_strlit("end");
    reveal_strlit("prompt");
    reveal_strlit("option");
    reveal_strlit("--");
    reveal_strlit("--[");
    reveal_strlit("- ");
    reveal_strlit("* ");
    reveal_strlit("&");
}

/// Where `s` holds a reserved word and no word character behind it, that
/// word stands there.
pub proof fn lemma_keyword(s: Seq<char>, p: int, keyword: Seq<char>)
    requires
        holds(s, p, keyword),
        is_word(keyword),
        !at_class(s, p + keyword.len(), CharClass::IdentChar),
    ensures
        keyword_at(s, p, keyword),
{
    lemma_word(s, p, keyword);
}

/// The reserved words are words.
pub proof fn lemma_keywords_are_words()
    ensures
        is_word("scene"@),
        is_word("end"@),
        is_word("prompt"@),
        is_word("option"@),
{
    reveal_strlit("scene");
    reveal_strlit("end");
    reveal_strlit("prompt");
    reveal_strlit("option");
}

/// A comment that is printable, on a line of its own.
pub proof fn lemma_comment_step(s: Seq<char>, p: int, t: Seq<char>)
    requires
        holds(s, p, "--"@),
        holds(s, p + 2, t),
        printable_comment(t),
        ends_line(s, p + 2 + t.len()),
    ensures
        reads_part(s, p, ScenePartModel::Comment(t), 2 + t.len()),
{
    reveal(reads_part);
    reveal(spec_comment);
    lemma_words();
    if t.len() > 0 {
        lemma_holds_char(s, p + 2, t, 0);
    }
    assert(!has_word(s, p, "--["@)) by {
        if has_word(s, p, "--["@) {
            assert(s.subrange(p, p + 3)[2] == "--["@[2]);
        }
    }
    assert forall|j: int| 0 <= j < t.len() implies in_class(
        CharClass::CommentText,
        #[trigger] t[j],
    ) by {}
    lemma_run_over(s, p + 2, t, CharClass::CommentText);
    assert(s.subrange(p + 2, p + 2 + t.len()) == t);
}

/// Dialogue: `- `, then a text of a line with a part.
pub proof fn lemma_dialogue_step(s: Seq<char>, p: int, parts: Seq<TextPartModel>, n: nat)
    requires
        holds(s, p, "- "@),
        parts.len() > 0,
        reads_line(s, p + 2, parts, n),
    ensures
        reads_part(s, p, ScenePartModel::Dialogue(parts), n + 2),
{
    reveal(reads_part);
    lemma_words();
    lemma_holds_char(s, p, "- "@, 0);
    lemma_holds_char(s, p, "- "@, 1);
    assert(!has_word(s, p, "--"@)) by {
        if has_word(s, p, "--"@) {
            assert(s.subrange(p, p + 2)[1] == "--"@[1]);
        }
    }
}

/// Narration: `* `, then a text of a line.
pub proof fn lemma_narration_step(s: Seq<char>, p: int, parts: Seq<TextPartModel>, n: nat)
    requires
        holds(s, p, "* "@),
        reads_line(s, p + 2, parts, n),
    ensures
        reads_part(s, p, ScenePartModel::Narration(parts), n + 2),
{
    reveal(reads_part);
    lemma_words();
    lemma_holds_char(s, p, "* "@, 0);
    lemma_holds_char(s, p, "* "@, 1);
    assert(!has_word(s, p, "--"@)) by {
        if has_word(s, p, "--"@) {
            assert(s.subrange(p, p + 2)[0] == "--"@[0]);
        }
    }
    assert(!has_word(s, p, "- "@)) by {
        if has_word(s, p, "- "@) {
            assert(s.subrange(p, p + 2)[0] == "- "@[0]);
        }
    }
}

/// An expression as an item of a block.
pub proof fn lemma_statement_step(s: Seq<char>, p: int, e: ExpressionModel, n: nat)
    requires
        reads_expression(s, p, e, n),
        0 <= p < s.len(),
        starts_value(s[p]),
    ensures
        reads_part(s, p, ScenePartModel::Expression(e), n),
{
    reveal(reads_part);
    reveal(reads_expression);
    reveal(spec_statement);
    lemma_words();
    assert(!has_word(s, p, "--"@)) by {
        if has_word(s, p, "--"@) {
            assert(s.subrange(p, p + 2)[0] == "--"@[0]);
        }
    }
    assert(!has_word(s, p, "- "@)) by {
        if has_word(s, p, "- "@) {
            assert(s.subrange(p, p + 2)[0] == "- "@[0]);
        }
    }
    assert(!has_word(s, p, "* "@)) by {
        if has_word(s, p, "* "@) {
            assert(s.subrange(p, p + 2)[0] == "* "@[0]);
        }
    }
    if keyword_at(s, p, "prompt"@) {
        assert(s.subrange(p, p + word_len(s, p)) == "prompt"@);
        assert(is_keyword(s.subrange(p, p + word_len(s, p))));
    }
}

/// No item of a block starts with the word `end`.
pub proof fn lemma_part_is_not_end(s: Seq<char>, p: int, part: ScenePartModel, n: nat)
    requires
        reads_part(s, p, part, n),
    ensures
        !keyword_at(s, p, "end"@),
        0 <= p < s.len(),
{
    reveal(reads_part);
    reveal(spec_statement);
    reveal(spec_comment);
    reveal(spec_speaker_change_marker);
    lemma_words();
    if keyword_at(s, p, "end"@) {
        assert(s.subrange(p, p + 3)[0] == "end"@[0]);
        assert(s[p] == 'e');
        assert(!has_word(s, p, "--"@)) by {
            if has_word(s, p, "--"@) {
                assert(s.subrange(p, p + 2)[0] == "--"@[0]);
            }
        }
        assert(!has_word(s, p, "- "@)) by {
            if has_word(s, p, "- "@) {
                assert(s.subrange(p, p + 2)[0] == "- "@[0]);
            }
        }
        assert(!has_word(s, p, "* "@)) by {
            if has_word(s, p, "* "@) {
                assert(s.subrange(p, p + 2)[0] == "* "@[0]);
            }
        }
        assert(!keyword_at(s, p, "prompt"@));
        assert(s.subrange(p, p + word_len(s, p)) == "end"@);
        assert(is_keyword(s.subrange(p, p + word_len(s, p))));
    }
    if p >= s.len() || p < 0 {
        assert(!has_word(s, p, "--"@));
        assert(!has_word(s, p, "- "@));
        assert(!has_word(s, p, "* "@));
        assert(word_len(s, p) == 0);
    }
}

/// The `end` that closes a block without further items.
pub proof fn lemma_block_end(s: Seq<char>, p: int)
    requires
        keyword_at(s, p, "end"@),
    ensures
        reads_block(s, p, Seq::empty(), 3),
{
    reveal(reads_block);
}

/// An item of a block, a separator, and the rest of the block.
pub proof fn lemma_block_more(
    s: Seq<char>,
    p: int,
    part: ScenePartModel,
    n: nat,
    sep: nat,
    rest: Seq<ScenePartModel>,
    m: nat,
)
    requires
        reads_part(s, p, part, n),
        separator_len(s, p + n) == sep,
        sep > 0,
        reads_block(s, p + n + sep, rest, m),
    ensures
        reads_block(s, p, seq![part] + rest, n + sep + m),
{
    lemma_part_is_not_end(s, p, part, n);
    reveal(reads_block);
    reveal(reads_part);
}

/// A line break and white space up to the next visible character make a
/// separator.
pub proof fn lemma_separator(s: Seq<char>, p: int, q: int)
    requires
        0 <= p < q <= s.len(),
        s[p] == '\n',
        forall|j: int| p < j < q ==> in_class(CharClass::Space, #[trigger] s[j]),
        !at_class(s, q, CharClass::Space),
    ensures
        separator_len(s, p) == q - p,
        run(s, p, CharClass::Space) == q - p,
{
    assert(run(s, p, CharClass::InlineSpace) == 0);
    lemma_run_is(s, p + 1, q, CharClass::Space);
    assert forall|j: int| p <= j < q implies in_class(CharClass::Space, #[trigger] s[j]) by {}
    lemma_run_is(s, p, q, CharClass::Space);
}

/// Whether the grammar reads the modifiers `modifiers` and the `]` behind
/// them at `p`, over `n` characters.
#[verifier::opaque]
pub open spec fn reads_modifiers(
    s: Seq<char>,
    p: int,
    modifiers: Seq<Seq<char>>,
    n: nat,
) -> bool {
    spec_modifiers(s, p) == Ok::<(Seq<Seq<char>>, nat), SyntaxError>((modifiers, n))
}

/// Whether the grammar reads the option `option` behind the word `option`
/// at `p`, over `n` characters.
#[verifier::opaque]
pub open spec fn reads_option(s: Seq<char>, p: int, option: PromptOptionModel, n: nat) -> bool {
    spec_option_rest(s, p) == Ok::<(PromptOptionModel, nat), SyntaxError>((option, n))
}

/// Whether the grammar reads the scene `scene` at `p`, over `n` characters.
#[verifier::opaque]
pub open spec fn reads_scene(s: Seq<char>, p: int, scene: SceneModel, n: nat) -> bool {
    spec_let_scene(s, p) == Ok::<(SceneModel, nat), SyntaxError>((scene, n))
}

/// The `]` that closes a marker without further modifiers.
pub proof fn lemma_modifiers_end(s: Seq<char>, p: int)
    requires
        at(s, p, ']'),
    ensures
        reads_modifiers(s, p, Seq::empty(), 1),
{
    reveal(reads_modifiers);
    assert(run(s, p, CharClass::InlineSpace) == 0);
}

/// A modifier behind a space, and the rest of the marker.
pub proof fn lemma_modifiers_more(
    s: Seq<char>,
    p: int,
    word: Seq<char>,
    rest: Seq<Seq<char>>,
    n: nat,
)
    requires
        at(s, p, ' '),
        holds(s, p + 1, word),
        is_identifier(word),
        !at_class(s, p + 1 + word.len(), CharClass::IdentChar),
        reads_modifiers(s, p + 1 + word.len(), rest, n),
    ensures
        reads_modifiers(s, p, seq![word] + rest, 1 + word.len() + n),
{
    reveal(reads_modifiers);
    lemma_identifier(s, p + 1, word);
    lemma_holds_char(s, p + 1, word, 0);
    assert(run(s, p + 1, CharClass::InlineSpace) == 0);
    assert(run(s, p, CharClass::InlineSpace) == 1);
}

/// A speaker change marker: `[`, the speaker, the modifiers, `]`.
pub proof fn lemma_marker_step(
    s: Seq<char>,
    p: int,
    speaker: Seq<char>,
    modifiers: Seq<Seq<char>>,
    n: nat,
)
    requires
        at(s, p, '['),
        holds(s, p + 1, speaker),
        is_speaker(speaker),
        !at_class(s, p + 1 + speaker.len(), CharClass::IdentChar),
        reads_modifiers(s, p + 1 + speaker.len(), modifiers, n),
    ensures
        reads_part(
            s,
            p,
            ScenePartModel::SpeakerChangeMarker(
                SpeakerChangeMarkerModel { speaker_id: speaker, modifiers },
            ),
            1 + speaker.len() + n,
        ),
{
    reveal(reads_part);
    reveal(reads_modifiers);
    reveal(spec_speaker_change_marker);
    lemma_words();
    assert(!has_word(s, p, "--"@)) by {
        if has_word(s, p, "--"@) {
            assert(s.subrange(p, p + 2)[0] == "--"@[0]);
        }
    }
    lemma_holds_char(s, p + 1, speaker, 0);
    assert(run(s, p + 1, CharClass::InlineSpace) == 0);
    if is_identifier(speaker) {
        lemma_identifier(s, p + 1, speaker);
    } else {
        assert(speaker =~= "&"@);
    }
}

/// A prompt without lead-in: `prompt`, white space, the options.
pub proof fn lemma_prompt_bare(
    s: Seq<char>,
    p: int,
    ws: nat,
    options: Seq<PromptOptionModel>,
    m: nat,
)
    requires
        keyword_at(s, p, "prompt"@),
        !at_class(s, p + 6, CharClass::InlineSpace),
        run(s, p + 6, CharClass::Space) == ws,
        reads_options(s, p + 6 + ws, options, m),
    ensures
        reads_part(
            s,
            p,
            ScenePartModel::Prompt(PromptModel { text: None, options }),
            6 + ws + m,
        ),
{
    reveal(reads_part);
    reveal(reads_options);
    lemma_prompt_is_no_other(s, p);
    assert(run(s, p + 6, CharClass::InlineSpace) == 0);
}

/// Where the word `prompt` stands, no comment, marker, dialogue or
/// narration starts.
pub proof fn lemma_prompt_is_no_other(s: Seq<char>, p: int)
    requires
        keyword_at(s, p, "prompt"@),
    ensures
        !has_word(s, p, "--"@),
        !at(s, p, '['),
        !has_word(s, p, "- "@),
        !has_word(s, p, "* "@),
        "prompt"@.len() == 6,
{
    lemma_words();
    assert(s.subrange(p, p + 6)[0] == "prompt"@[0]);
    assert(!has_word(s, p, "--"@)) by {
        if has_word(s, p, "--"@) {
            assert(s.subrange(p, p + 2)[0] == "--"@[0]);
        }
    }
    assert(!has_word(s, p, "- "@)) by {
        if has_word(s, p, "- "@) {
            assert(s.subrange(p, p + 2)[0] == "- "@[0]);
        }
    }
    assert(!has_word(s, p, "* "@)) by {
        if has_word(s, p, "* "@) {
            assert(s.subrange(p, p + 2)[0] == "* "@[0]);
        }
    }
}

/// A prompt with a lead-in: `prompt`, a space, the lead-in, white space,
/// the options.
pub proof fn lemma_prompt_led(
    s: Seq<char>,
    p: int,
    parts: Seq<TextPartModel>,
    n: nat,
    ws: nat,
    options: Seq<PromptOptionModel>,
    m: nat,
)
    requires
        keyword_at(s, p, "prompt"@),
        at(s, p + 6, ' '),
        at_class(s, p + 7, CharClass::LineText) || at(s, p + 7, '{'),
        !at_class(s, p + 7, CharClass::InlineSpace),
        reads_line(s, p + 7, parts, n),
        run(s, p + 7 + n, CharClass::Space) == ws,
        reads_options(s, p + 7 + n + ws, options, m),
    ensures
        reads_part(
            s,
            p,
            ScenePartModel::Prompt(PromptModel { text: Some(parts), options }),
            7 + n + ws + m,
        ),
{
    reveal(reads_part);
    reveal(reads_options);
    lemma_prompt_is_no_other(s, p);
    assert(run(s, p + 7, CharClass::InlineSpace) == 0);
    assert(run(s, p + 6, CharClass::InlineSpace) == 1);
}

/// The `end` that closes a prompt without further options.
pub proof fn lemma_options_end(s: Seq<char>, p: int)
    requires
        keyword_at(s, p, "end"@),
    ensures
        reads_options(s, p, Seq::empty(), 3),
{
    reveal(reads_options);
}

/// An option, white space, and the rest of the prompt.
pub proof fn lemma_options_more(
    s: Seq<char>,
    p: int,
    option: PromptOptionModel,
    n: nat,
    ws: nat,
    rest: Seq<PromptOptionModel>,
    m: nat,
)
    requires
        keyword_at(s, p, "option"@),
        reads_option(s, p + 6, option, n),
        run(s, p + 6 + n, CharClass::Space) == ws,
        reads_options(s, p + 6 + n + ws, rest, m),
    ensures
        reads_options(s, p, seq![option] + rest, 6 + n + ws + m),
{
    reveal(reads_options);
    reveal(reads_option);
    lemma_words();
}

/// An option behind its word: a space, the label, white space, the items
/// and `end`.
pub proof fn lemma_option_step(
    s: Seq<char>,
    p: int,
    label: Seq<TextPartModel>,
    n: nat,
    ws: nat,
    content: Seq<ScenePartModel>,
    m: nat,
)
    requires
        at(s, p, ' '),
        !at_class(s, p + 1, CharClass::InlineSpace),
        label.len() > 0,
        reads_line(s, p + 1, label, n),
        run(s, p + 1 + n, CharClass::Space) == ws,
        reads_block(s, p + 1 + n + ws, content, m),
    ensures
        reads_option(s, p, PromptOptionModel { text: label, content }, 1 + n + ws + m),
{
    reveal(reads_option);
    reveal(reads_block);
    assert(run(s, p + 1, CharClass::InlineSpace) == 0);
    assert(run(s, p, CharClass::InlineSpace) == 1);
}

/// A scene: `scene`, a space, the name, a separator, the items and `end`.
pub proof fn lemma_scene_step(
    s: Seq<char>,
    p: int,
    name: Seq<char>,
    gap: nat,
    content: Seq<ScenePartModel>,
    m: nat,
)
    requires
        keyword_at(s, p, "scene"@),
        at(s, p + 5, ' '),
        holds(s, p + 6, name),
        is_identifier(name),
        !at_class(s, p + 6 + name.len(), CharClass::IdentChar),
        separator_len(s, p + 6 + name.len()) == gap,
        gap > 0,
        reads_block(s, p + 6 + name.len() + gap, content, m),
    ensures
        reads_scene(s, p, SceneModel { name, content }, 6 + name.len() + gap + m),
{
    reveal(reads_scene);
    reveal(reads_block);
    lemma_words();
    lemma_identifier(s, p + 6, name);
    lemma_holds_char(s, p + 6, name, 0);
    assert(run(s, p + 6, CharClass::InlineSpace) == 0);
    assert(run(s, p + 5, CharClass::InlineSpace) == 1);
}

} // verus!
