use vstd::prelude::*;
use crate::parser::ast::{
    ExpressionModel, ModuleModel, PromptModel, PromptOptionModel, SceneModel, ScenePartModel,
    ScriptPartModel, SpeakerChangeMarkerModel, TextPartModel,
};
use crate::parser::error::{fail, Expected, SyntaxError};
use crate::parser::scan::{at, at_class, has_word, is_digit, is_ident_start, run, CharClass};

verus! {

/// What a rule of the grammar yields at a position: the value and the number
/// of characters that it spans, or the failure.
pub type Parsed<T> = Result<(T, nat), SyntaxError>;

/// The measure that every recursive rule decreases: the characters from `pos`
/// to the end of the input.
pub open spec fn remaining(s: Seq<char>, pos: int) -> nat {
    if pos <= s.len() {
        (s.len() - pos) as nat
    } else {
        0
    }
}

/// Whether a word is reserved.
pub open spec fn is_keyword(word: Seq<char>) -> bool {
    word == "scene"@ || word == "end"@ || word == "prompt"@ || word == "option"@
}

/// Whether a word spells the truth literal for true.
pub open spec fn is_true_word(word: Seq<char>) -> bool {
    word == "true"@ || word == "yes"@ || word == "on"@
}

/// Whether a word spells the truth literal for false.
pub open spec fn is_false_word(word: Seq<char>) -> bool {
    word == "false"@ || word == "no"@ || word == "off"@
}

/// Length of the word at `pos`: a letter or `_`, then letters, digits and
/// `_`. Zero where no word starts.
pub open spec fn word_len(s: Seq<char>, pos: int) -> nat {
    if 0 <= pos < s.len() && is_ident_start(s[pos]) {
        run(s, pos, CharClass::IdentChar)
    } else {
        0
    }
}

/// Whether the word at `pos` is exactly `keyword`.
pub open spec fn keyword_at(s: Seq<char>, pos: int, keyword: Seq<char>) -> bool {
    word_len(s, pos) == keyword.len() && has_word(s, pos, keyword)
}

/// An identifier: a word that is not reserved.
pub open spec fn spec_identifier(s: Seq<char>, pos: int) -> Parsed<Seq<char>> {
    let n = word_len(s, pos);
    let word = s.subrange(pos, pos + n);
    if n == 0 || is_keyword(word) {
        fail(pos, Expected::Identifier)
    } else {
        Ok((word, n))
    }
}

/// Length of the digit run at `pos`: a digit, then digits and `_`. Zero
/// where no digit stands.
pub open spec fn digits_len(s: Seq<char>, pos: int) -> nat {
    if 0 <= pos < s.len() && is_digit(s[pos]) {
        run(s, pos, CharClass::DigitOrUnderscore)
    } else {
        0
    }
}

/// Length of the exponent at `pos`: `e` or `E`, an optional sign, a digit
/// run. Zero where none stands.
pub open spec fn exponent_len(s: Seq<char>, pos: int) -> nat {
    if at(s, pos, 'e') || at(s, pos, 'E') {
        let sign: nat = if at(s, pos + 1, '+') || at(s, pos + 1, '-') {
            1
        } else {
            0
        };
        let d = digits_len(s, pos + 1 + sign);
        if d > 0 {
            1 + sign + d
        } else {
            0
        }
    } else {
        0
    }
}

/// Length of the float literal at `pos`, zero where none stands. A float
/// literal is `.D`, `.DeD`, `D.`, `D.D`, `D.DeD` or `DeD`, where `D` is a
/// digit run and `e` an exponent mark with an optional sign.
pub open spec fn float_len(s: Seq<char>, pos: int) -> nat {
    if at(s, pos, '.') {
        let d = digits_len(s, pos + 1);
        if d > 0 {
            1 + d + exponent_len(s, pos + 1 + d)
        } else {
            0
        }
    } else {
        let i = digits_len(s, pos);
        if i == 0 {
            0
        } else if at(s, pos + i, '.') {
            let d = digits_len(s, pos + i + 1);
            if d > 0 {
                i + 1 + d + exponent_len(s, pos + i + 1 + d)
            } else {
                i + 1
            }
        } else {
            let e = exponent_len(s, pos + i);
            if e > 0 {
                i + e
            } else {
                0
            }
        }
    }
}

/// The number that a digit stands for.
pub open spec fn digit_value(c: char) -> nat {
    (c as int - '0' as int) as nat
}

/// The number that a digit run stands for; its `_` separators count for
/// nothing.
pub open spec fn decimal_value(digits: Seq<char>) -> nat
    decreases digits.len(),
{
    if digits.len() == 0 {
        0
    } else if digits.last() == '_' {
        decimal_value(digits.drop_last())
    } else {
        decimal_value(digits.drop_last()) * 10 + digit_value(digits.last())
    }
}

/// `text` with every `_` taken out.
pub open spec fn without_underscores(text: Seq<char>) -> Seq<char>
    decreases text.len(),
{
    if text.len() == 0 {
        Seq::empty()
    } else if text.last() == '_' {
        without_underscores(text.drop_last())
    } else {
        without_underscores(text.drop_last()).push(text.last())
    }
}

/// An integer literal: a digit run whose value fits in `i32`.
pub open spec fn spec_integer_decimal(s: Seq<char>, pos: int) -> Parsed<int> {
    let n = digits_len(s, pos);
    let value = decimal_value(s.subrange(pos, pos + n));
    if n == 0 {
        fail(pos, Expected::Digit)
    } else if value > i32::MAX {
        fail(pos, Expected::IntegerInRange)
    } else {
        Ok((value as int, n))
    }
}

/// A float literal, as its text without separators.
pub open spec fn spec_float(s: Seq<char>, pos: int) -> Parsed<Seq<char>> {
    let n = float_len(s, pos);
    if n == 0 {
        fail(pos, Expected::Digit)
    } else {
        Ok((without_underscores(s.subrange(pos, pos + n)), n))
    }
}

/// A number that ends at `end` and spans `n` characters, with the unit that
/// follows it, if one does: spaces or tabs, then an identifier.
pub open spec fn with_unit(s: Seq<char>, end: int, number: ExpressionModel, n: nat) -> (
    ExpressionModel,
    nat,
) {
    let w = run(s, end, CharClass::InlineSpace);
    match spec_identifier(s, end + w) {
        Ok((unit, u)) => if w > 0 {
            (ExpressionModel::Unit(Box::new(number), unit), n + w + u)
        } else {
            (number, n)
        },
        Err(_) => (number, n),
    }
}

/// The segments of a symbol after its first: each a `.` and an identifier.
pub open spec fn spec_symbol_rest(s: Seq<char>, pos: int) -> (Seq<Seq<char>>, nat)
    decreases remaining(s, pos),
{
    if at(s, pos, '.') {
        match spec_identifier(s, pos + 1) {
            Ok((word, n)) => {
                let (rest, m) = spec_symbol_rest(s, pos + 1 + n);
                (seq![word] + rest, 1 + n + m)
            },
            Err(_) => (Seq::empty(), 0),
        }
    } else {
        (Seq::empty(), 0)
    }
}

/// A symbol: identifiers joined by `.`.
pub open spec fn spec_symbol(s: Seq<char>, pos: int) -> Parsed<Seq<Seq<char>>> {
    match spec_identifier(s, pos) {
        Ok((word, n)) => {
            let (rest, m) = spec_symbol_rest(s, pos + n);
            Ok((seq![word] + rest, n + m))
        },
        Err(e) => Err(e),
    }
}

/// An expression. The alternatives, in the order in which they are tried: a
/// float literal, an integer literal (either with a unit, if one follows), a
/// string literal, a truth literal, a call, a symbol.
pub open spec fn spec_expression(s: Seq<char>, pos: int) -> Parsed<ExpressionModel>
    decreases remaining(s, pos), 0nat,
{
    let f = float_len(s, pos);
    let d = digits_len(s, pos);
    let w = word_len(s, pos);
    let word = s.subrange(pos, pos + w);
    if f > 0 {
        Ok(
            with_unit(
                s,
                pos + f,
                ExpressionModel::Float(without_underscores(s.subrange(pos, pos + f))),
                f,
            ),
        )
    } else if d > 0 {
        match spec_integer_decimal(s, pos) {
            Ok((value, _)) => Ok(with_unit(s, pos + d, ExpressionModel::Int(value), d)),
            Err(e) => Err(e),
        }
    } else if at(s, pos, '"') {
        match spec_text_parts(s, pos + 1, CharClass::StringText) {
            Ok((parts, n)) => if parts.len() == 0 {
                fail(pos + 1, Expected::Text)
            } else if at(s, pos + 1 + n, '"') {
                Ok((ExpressionModel::Text(parts), n + 2))
            } else {
                fail(pos + 1 + n, Expected::ClosingQuote)
            },
            Err(e) => Err(e),
        }
    } else if w == 0 || is_keyword(word) {
        fail(pos, Expected::Expression)
    } else if is_true_word(word) {
        Ok((ExpressionModel::Boolean(true), w))
    } else if is_false_word(word) {
        Ok((ExpressionModel::Boolean(false), w))
    } else if at(s, pos + w, '(') {
        match spec_call_args(s, pos + w + 1, true) {
            Ok((args, n)) => Ok((ExpressionModel::Call { name: word, args }, w + 1 + n)),
            Err(e) => Err(e),
        }
    } else {
        let (rest, n) = spec_symbol_rest(s, pos + w);
        Ok((ExpressionModel::Symbol(seq![word] + rest), w + n))
    }
}

/// One part of a text: a fragment of characters of `class`, as long as it
/// can be, or an expression in braces.
pub open spec fn spec_text_part(s: Seq<char>, pos: int, class: CharClass) -> Parsed<TextPartModel> {
    if at_class(s, pos, class) {
        let r = 1 + run(s, pos + 1, class);
        Ok((TextPartModel::Text(s.subrange(pos, pos + r)), r))
    } else if at(s, pos, '{') {
        let open = 1 + run(s, pos + 1, CharClass::Space);
        match spec_expression(s, pos + open) {
            Ok((e, n)) => {
                let close = open + n + run(s, pos + open + n, CharClass::Space);
                if at(s, pos + close, '}') {
                    Ok((TextPartModel::Expression(e), close + 1))
                } else {
                    fail(pos + close, Expected::ClosingBrace)
                }
            },
            Err(e) => Err(e),
        }
    } else {
        fail(pos, Expected::Text)
    }
}

/// A string literal: text between double quotes, at least one part.
pub open spec fn spec_string(s: Seq<char>, pos: int) -> Parsed<Seq<TextPartModel>> {
    if at(s, pos, '"') {
        match spec_text_parts(s, pos + 1, CharClass::StringText) {
            Ok((parts, n)) => if parts.len() == 0 {
                fail(pos + 1, Expected::Text)
            } else if at(s, pos + 1 + n, '"') {
                Ok((parts, n + 2))
            } else {
                fail(pos + 1 + n, Expected::ClosingQuote)
            },
            Err(e) => Err(e),
        }
    } else {
        fail(pos, Expected::ClosingQuote)
    }
}

/// The items of `rest` behind those of `done`, which span `skipped`
/// characters.
pub open spec fn after<T>(done: Seq<T>, skipped: nat, rest: Parsed<Seq<T>>) -> Parsed<Seq<T>> {
    match rest {
        Ok((items, n)) => Ok((done + items, skipped + n)),
        Err(e) => Err(e),
    }
}

/// Behind no items, the rest is all.
pub proof fn lemma_after_nothing<T>(rest: Parsed<Seq<T>>)
    ensures
        after(Seq::empty(), 0, rest) == rest,
{
    match rest {
        Ok((items, n)) => {
            assert(Seq::<T>::empty() + items =~= items);
        },
        Err(e) => {},
    }
}

/// One item more may be counted with those that are done.
pub proof fn lemma_after_one<T>(done: Seq<T>, skipped: nat, item: T, n: nat, rest: Parsed<Seq<T>>)
    ensures
        after(done, skipped, after(seq![item], n, rest)) == after(
            done.push(item),
            skipped + n,
            rest,
        ),
{
    match rest {
        Ok((items, m)) => {
            assert(done + (seq![item] + items) =~= done.push(item) + items);
        },
        Err(e) => {},
    }
}

/// Where nothing more follows, the items that are done are all.
pub proof fn lemma_after_end<T>(done: Seq<T>, skipped: nat, n: nat)
    ensures
        after(done, skipped, Ok((Seq::empty(), n))) == Ok::<(Seq<T>, nat), SyntaxError>(
            (done, skipped + n),
        ),
{
    assert(done + Seq::<T>::empty() =~= done);
}

/// Text: fragments of characters of `class` and expressions in braces, as
/// many as follow one another.
pub open spec fn spec_text_parts(s: Seq<char>, pos: int, class: CharClass) -> Parsed<
    Seq<TextPartModel>,
>
    decreases remaining(s, pos), 1nat,
{
    if at_class(s, pos, class) {
        let r = 1 + run(s, pos + 1, class);
        match spec_text_parts(s, pos + r, class) {
            Ok((rest, n)) => Ok(
                (seq![TextPartModel::Text(s.subrange(pos, pos + r))] + rest, r + n),
            ),
            Err(e) => Err(e),
        }
    } else if at(s, pos, '{') {
        let open = 1 + run(s, pos + 1, CharClass::Space);
        match spec_expression(s, pos + open) {
            Ok((e, n)) => {
                let close = open + n + run(s, pos + open + n, CharClass::Space);
                if at(s, pos + close, '}') {
                    match spec_text_parts(s, pos + close + 1, class) {
                        Ok((rest, m)) => Ok(
                            (seq![TextPartModel::Expression(e)] + rest, close + 1 + m),
                        ),
                        Err(e) => Err(e),
                    }
                } else {
                    fail(pos + close, Expected::ClosingBrace)
                }
            },
            Err(e) => Err(e),
        }
    } else {
        Ok((Seq::empty(), 0))
    }
}

/// The arguments of a call, from behind its `(` or a `,` up to its `)`.
/// Only the first argument may be missing.
pub open spec fn spec_call_args(s: Seq<char>, pos: int, first: bool) -> Parsed<
    Seq<ExpressionModel>,
>
    decreases remaining(s, pos), 1nat,
{
    let w = run(s, pos, CharClass::Space);
    if first && at(s, pos + w, ')') {
        Ok((Seq::empty(), w + 1))
    } else {
        match spec_expression(s, pos + w) {
            Ok((arg, n)) => {
                let end = w + n + run(s, pos + w + n, CharClass::Space);
                if at(s, pos + end, ',') {
                    match spec_call_args(s, pos + end + 1, false) {
                        Ok((rest, m)) => Ok((seq![arg] + rest, end + 1 + m)),
                        Err(e) => Err(e),
                    }
                } else if at(s, pos + end, ')') {
                    Ok((seq![arg], end + 1))
                } else {
                    fail(pos + end, Expected::ClosingParen)
                }
            },
            Err(e) => Err(e),
        }
    }
}

/// The text of a line: fragments without braces, and expressions in braces,
/// as many as follow one another before the line ends.
#[verifier::opaque]
pub open spec fn spec_line_text(s: Seq<char>, pos: int) -> Parsed<Seq<TextPartModel>> {
    spec_text_parts(s, pos, CharClass::LineText)
}

/// An expression that stands as an item of a block.
#[verifier::opaque]
pub open spec fn spec_statement(s: Seq<char>, pos: int) -> Parsed<ExpressionModel> {
    spec_expression(s, pos)
}

/// Number of characters from `pos` up to the next `]--`, if one follows.
pub open spec fn block_comment_len(s: Seq<char>, pos: int) -> Option<nat>
    decreases remaining(s, pos),
{
    if has_word(s, pos, "]--"@) {
        Some(0)
    } else if 0 <= pos < s.len() {
        match block_comment_len(s, pos + 1) {
            Some(n) => Some(n + 1),
            None => None,
        }
    } else {
        None
    }
}

/// A comment, as its text: what stands between `--[` and the next `]--`, or
/// else what follows `--` on its line.
#[verifier::opaque]
pub open spec fn spec_comment(s: Seq<char>, pos: int) -> Parsed<Seq<char>> {
    if has_word(s, pos, "--["@) {
        match block_comment_len(s, pos + 3) {
            Some(n) => Ok((s.subrange(pos + 3, pos + 3 + n), n + 6)),
            None => fail(s.len() as int, Expected::BlockCommentEnd),
        }
    } else if has_word(s, pos, "--"@) {
        let n = run(s, pos + 2, CharClass::CommentText);
        Ok((s.subrange(pos + 2, pos + 2 + n), n + 2))
    } else {
        fail(pos, Expected::Comment)
    }
}

/// The modifiers of a speaker change marker, each behind spaces or tabs, up
/// to its `]`.
pub open spec fn spec_modifiers(s: Seq<char>, pos: int) -> Parsed<Seq<Seq<char>>>
    decreases remaining(s, pos),
{
    let w = run(s, pos, CharClass::InlineSpace);
    if at(s, pos + w, ']') {
        Ok((Seq::empty(), w + 1))
    } else if at_class(s, pos, CharClass::InlineSpace) {
        match spec_identifier(s, pos + w) {
            Ok((word, n)) => after(seq![word], w + n, spec_modifiers(s, pos + w + n)),
            Err(_) => fail(pos + w, Expected::ClosingBracket),
        }
    } else {
        fail(pos + w, Expected::ClosingBracket)
    }
}

/// A speaker change marker: `[`, the speaker (an identifier or `&`), the
/// modifiers, `]`.
#[verifier::opaque]
pub open spec fn spec_speaker_change_marker(s: Seq<char>, pos: int) -> Parsed<
    SpeakerChangeMarkerModel,
> {
    let w = 1 + run(s, pos + 1, CharClass::InlineSpace);
    let speaker: Parsed<Seq<char>> = if at(s, pos + w, '&') {
        Ok(("&"@, 1))
    } else {
        spec_identifier(s, pos + w)
    };
    if !at(s, pos, '[') {
        fail(pos, Expected::Marker)
    } else {
        match speaker {
            Ok((speaker_id, n)) => match spec_modifiers(s, pos + w + n) {
                Ok((modifiers, m)) => Ok(
                    (SpeakerChangeMarkerModel { speaker_id, modifiers }, w + n + m),
                ),
                Err(e) => Err(e),
            },
            Err(_) => fail(pos + w, Expected::Speaker),
        }
    }
}

/// A line of dialogue: `- `, then text of at least one part.
pub open spec fn spec_dialogue(s: Seq<char>, pos: int) -> Parsed<Seq<TextPartModel>> {
    if has_word(s, pos, "- "@) {
        match spec_line_text(s, pos + 2) {
            Ok((parts, n)) => if parts.len() == 0 {
                fail(pos + 2, Expected::Text)
            } else {
                Ok((parts, n + 2))
            },
            Err(e) => Err(e),
        }
    } else {
        fail(pos, Expected::Dialogue)
    }
}

/// A line of narration: `* `, then text, which may be empty.
pub open spec fn spec_narration(s: Seq<char>, pos: int) -> Parsed<Seq<TextPartModel>> {
    if has_word(s, pos, "* "@) {
        match spec_line_text(s, pos + 2) {
            Ok((parts, n)) => Ok((parts, n + 2)),
            Err(e) => Err(e),
        }
    } else {
        fail(pos, Expected::Narration)
    }
}

/// Length of the separator at `pos`: spaces and tabs, a `;` or a line
/// terminator, then white space of any kind. Zero where none stands.
pub open spec fn separator_len(s: Seq<char>, pos: int) -> nat {
    let w = run(s, pos, CharClass::InlineSpace);
    if at(s, pos + w, ';') || at(s, pos + w, '\n') || at(s, pos + w, '\r') {
        w + 1 + run(s, pos + w + 1, CharClass::Space)
    } else {
        0
    }
}

/// One item of a block. The alternatives, in the order in which they are
/// tried: a comment, a speaker change marker, dialogue, narration, a prompt,
/// an expression.
pub open spec fn spec_scene_part(s: Seq<char>, pos: int) -> Parsed<ScenePartModel>
    decreases remaining(s, pos), 1nat,
{
    if has_word(s, pos, "--"@) {
        match spec_comment(s, pos) {
            Ok((text, n)) => Ok((ScenePartModel::Comment(text), n)),
            Err(e) => Err(e),
        }
    } else if at(s, pos, '[') {
        match spec_speaker_change_marker(s, pos) {
            Ok((marker, n)) => Ok((ScenePartModel::SpeakerChangeMarker(marker), n)),
            Err(e) => Err(e),
        }
    } else if has_word(s, pos, "- "@) {
        match spec_dialogue(s, pos) {
            Ok((parts, n)) => Ok((ScenePartModel::Dialogue(parts), n)),
            Err(e) => Err(e),
        }
    } else if has_word(s, pos, "* "@) {
        match spec_narration(s, pos) {
            Ok((parts, n)) => Ok((ScenePartModel::Narration(parts), n)),
            Err(e) => Err(e),
        }
    } else if keyword_at(s, pos, "prompt"@) {
        match spec_prompt(s, pos) {
            Ok((prompt, n)) => Ok((ScenePartModel::Prompt(prompt), n)),
            Err(e) => Err(e),
        }
    } else {
        match spec_statement(s, pos) {
            Ok((e, n)) => Ok((ScenePartModel::Expression(e), n)),
            Err(e) => Err(e),
        }
    }
}

/// The items of a block, from `pos`, where the first of them or the closing
/// `end` starts, up to and with that `end`. Two items have a separator
/// between them; the last may have one behind it.
pub open spec fn spec_block(s: Seq<char>, pos: int) -> Parsed<Seq<ScenePartModel>>
    decreases remaining(s, pos), 2nat,
{
    if keyword_at(s, pos, "end"@) {
        Ok((Seq::empty(), 3))
    } else if pos >= s.len() {
        fail(pos, Expected::End)
    } else {
        match spec_scene_part(s, pos) {
            Ok((part, n)) => {
                let sep = separator_len(s, pos + n);
                let w = run(s, pos + n, CharClass::InlineSpace);
                if sep > 0 {
                    after(seq![part], n + sep, spec_block(s, pos + n + sep))
                } else if keyword_at(s, pos + n + w, "end"@) {
                    Ok((seq![part], n + w + 3))
                } else if pos + n + w >= s.len() {
                    fail(pos + n + w, Expected::End)
                } else {
                    fail(pos + n + w, Expected::Separator)
                }
            },
            Err(e) => Err(e),
        }
    }
}

/// A prompt: `prompt`, on the same line an optional lead-in text, then the
/// options, then `end`.
pub open spec fn spec_prompt(s: Seq<char>, pos: int) -> Parsed<PromptModel>
    decreases remaining(s, pos), 0nat,
{
    let w = run(s, pos + 6, CharClass::InlineSpace);
    let lead: Parsed<Option<Seq<TextPartModel>>> = if w > 0 && (at_class(
        s,
        pos + 6 + w,
        CharClass::LineText,
    ) || at(s, pos + 6 + w, '{')) {
        match spec_line_text(s, pos + 6 + w) {
            Ok((parts, n)) => Ok((Some(parts), w + n)),
            Err(e) => Err(e),
        }
    } else {
        Ok((None, 0))
    };
    if !keyword_at(s, pos, "prompt"@) {
        fail(pos, Expected::Prompt)
    } else {
        match lead {
            Ok((text, n)) => {
                let g = 6 + n + run(s, pos + 6 + n, CharClass::Space);
                proof {
                    reveal_strlit("prompt");
                }
                match spec_options(s, pos + g) {
                    Ok((options, m)) => Ok((PromptModel { text, options }, g + m)),
                    Err(e) => Err(e),
                }
            },
            Err(e) => Err(e),
        }
    }
}

/// The options of a prompt, from `pos`, where the first of them or the
/// closing `end` starts, up to and with that `end`.
pub open spec fn spec_options(s: Seq<char>, pos: int) -> Parsed<Seq<PromptOptionModel>>
    decreases remaining(s, pos), 0nat,
{
    if keyword_at(s, pos, "end"@) {
        Ok((Seq::empty(), 3))
    } else if keyword_at(s, pos, "option"@) {
        proof {
            reveal_strlit("option");
        }
        match spec_option_rest(s, pos + 6) {
            Ok((option, n)) => {
                let g = 6 + n + run(s, pos + 6 + n, CharClass::Space);
                after(seq![option], g, spec_options(s, pos + g))
            },
            Err(e) => Err(e),
        }
    } else {
        fail(pos, Expected::OptionOrEnd)
    }
}

/// An option from behind the word `option`: spaces or tabs, the label (text
/// of at least one part), then the items of its block up to its `end`.
pub open spec fn spec_option_rest(s: Seq<char>, pos: int) -> Parsed<PromptOptionModel>
    decreases remaining(s, pos), 0nat,
{
    let w = run(s, pos, CharClass::InlineSpace);
    if !at_class(s, pos, CharClass::InlineSpace) {
        fail(pos, Expected::Space)
    } else {
        match spec_line_text(s, pos + w) {
            Ok((text, n)) => if text.len() == 0 {
                fail(pos + w, Expected::Text)
            } else {
                let g = w + n + run(s, pos + w + n, CharClass::Space);
                match spec_block(s, pos + g) {
                    Ok((content, m)) => Ok((PromptOptionModel { text, content }, g + m)),
                    Err(e) => Err(e),
                }
            },
            Err(e) => Err(e),
        }
    }
}

/// An option of a prompt: `option`, the label, the items, `end`.
pub open spec fn spec_prompt_option(s: Seq<char>, pos: int) -> Parsed<PromptOptionModel> {
    if keyword_at(s, pos, "option"@) {
        match spec_option_rest(s, pos + 6) {
            Ok((option, n)) => Ok((option, n + 6)),
            Err(e) => Err(e),
        }
    } else {
        fail(pos, Expected::PromptOption)
    }
}

/// A scene: `scene`, its name, the items of its block, `end`.
pub open spec fn spec_let_scene(s: Seq<char>, pos: int) -> Parsed<SceneModel> {
    let w = 5 + run(s, pos + 5, CharClass::InlineSpace);
    if !keyword_at(s, pos, "scene"@) {
        fail(pos, Expected::Scene)
    } else if w == 5 {
        fail(pos + 5, Expected::Space)
    } else {
        match spec_identifier(s, pos + w) {
            Ok((name, n)) => {
                let sep = separator_len(s, pos + w + n);
                let g = w + n + if sep > 0 {
                    sep
                } else {
                    run(s, pos + w + n, CharClass::InlineSpace)
                };
                match spec_block(s, pos + g) {
                    Ok((content, m)) => Ok((SceneModel { name, content }, g + m)),
                    Err(e) => Err(e),
                }
            },
            Err(e) => Err(e),
        }
    }
}

/// A field assignment: an identifier, `=`, an expression, with spaces or
/// tabs around the `=` as one likes.
pub open spec fn spec_field(s: Seq<char>, pos: int) -> Parsed<(Seq<char>, ExpressionModel)> {
    match spec_identifier(s, pos) {
        Ok((name, n)) => {
            let eq = n + run(s, pos + n, CharClass::InlineSpace);
            let w = eq + 1 + run(s, pos + eq + 1, CharClass::InlineSpace);
            if at(s, pos + eq, '=') {
                match spec_expression(s, pos + w) {
                    Ok((value, m)) => Ok(((name, value), w + m)),
                    Err(e) => Err(e),
                }
            } else {
                fail(pos + eq, Expected::Equals)
            }
        },
        Err(e) => Err(e),
    }
}

/// One item of a script. The alternatives, in the order in which they are
/// tried: a comment, a scene, a field assignment.
pub open spec fn spec_script_part(s: Seq<char>, pos: int) -> Parsed<ScriptPartModel> {
    if has_word(s, pos, "--"@) {
        match spec_comment(s, pos) {
            Ok((text, n)) => Ok((ScriptPartModel::Comment(text), n)),
            Err(e) => Err(e),
        }
    } else if keyword_at(s, pos, "scene"@) {
        match spec_let_scene(s, pos) {
            Ok((scene, n)) => Ok((ScriptPartModel::Scene(scene), n)),
            Err(e) => Err(e),
        }
    } else if word_len(s, pos) > 0 {
        match spec_field(s, pos) {
            Ok(((name, value), n)) => Ok((ScriptPartModel::Field(name, value), n)),
            Err(e) => Err(e),
        }
    } else {
        fail(pos, Expected::Item)
    }
}

/// The items of a script from `pos`, where the first of them starts or the
/// input ends, up to the end of the input. Two items have a separator
/// between them; the last may have one behind it.
pub open spec fn spec_script_parts(s: Seq<char>, pos: int) -> Parsed<Seq<ScriptPartModel>>
    decreases remaining(s, pos),
{
    if pos >= s.len() {
        Ok((Seq::empty(), 0))
    } else {
        match spec_script_part(s, pos) {
            Ok((part, n)) => {
                let sep = separator_len(s, pos + n);
                let w = run(s, pos + n, CharClass::InlineSpace);
                if sep > 0 {
                    after(seq![part], n + sep, spec_script_parts(s, pos + n + sep))
                } else if pos + n + w >= s.len() {
                    Ok((seq![part], n + w))
                } else {
                    fail(pos + n + w, Expected::Separator)
                }
            },
            Err(e) => Err(e),
        }
    }
}

/// The script that a list of items makes: the scenes in their order, and the
/// fields, where a later assignment to a name replaces an earlier one.
/// Comments are left out.
pub open spec fn assemble(parts: Seq<ScriptPartModel>) -> ModuleModel
    decreases parts.len(),
{
    if parts.len() == 0 {
        ModuleModel { scenes: Seq::empty(), fields: Map::empty() }
    } else {
        let before = assemble(parts.drop_last());
        match parts.last() {
            ScriptPartModel::Scene(scene) => ModuleModel {
                scenes: before.scenes.push(scene),
                fields: before.fields,
            },
            ScriptPartModel::Comment(_) => before,
            ScriptPartModel::Field(name, value) => ModuleModel {
                scenes: before.scenes,
                fields: before.fields.insert(name, value),
            },
        }
    }
}

/// A script: white space, then its items up to the end of the input.
pub open spec fn spec_script(s: Seq<char>) -> Result<ModuleModel, SyntaxError> {
    match spec_script_parts(s, run(s, 0, CharClass::Space) as int) {
        Ok((parts, _)) => Ok(assemble(parts)),
        Err(e) => Err(e),
    }
}

} // verus!
