use vstd::prelude::*;

verus! {

/// What the parser was looking for where it stopped.
#[derive(Clone, Copy, Debug, PartialEq, Eq, Structural)]
pub enum Expected {
    /// An identifier that is not a reserved word.
    Identifier,
    /// The start of an expression.
    Expression,
    /// A decimal digit.
    Digit,
    /// An integer literal no greater than `i32::MAX`.
    IntegerInRange,
    /// At least one text fragment or embedded expression.
    Text,
    /// The `"` that closes a string literal.
    ClosingQuote,
    /// The `}` that closes an embedded expression.
    ClosingBrace,
    /// A `,` before a further argument, or the `)` that closes a call.
    ClosingParen,
    /// A modifier, or the `]` that closes a speaker change marker.
    ClosingBracket,
    /// The `[` that opens a speaker change marker.
    Marker,
    /// A speaker: an identifier or `&`.
    Speaker,
    /// The `--` that opens a comment.
    Comment,
    /// The `]--` that closes a block comment.
    BlockCommentEnd,
    /// The `- ` that opens a line of dialogue.
    Dialogue,
    /// The `* ` that opens a line of narration.
    Narration,
    /// The `=` of a field assignment.
    Equals,
    /// A space or a tab.
    Space,
    /// A `;` or a line break between two items.
    Separator,
    /// The word `scene`.
    Scene,
    /// The word `prompt`.
    Prompt,
    /// The word `option`.
    PromptOption,
    /// A further `option`, or the `end` that closes a prompt.
    OptionOrEnd,
    /// A further item, or the `end` that closes a block.
    End,
    /// A comment, a scene or a field assignment.
    Item,
}

/// The parser could not consume the input from `offset` on: it counts the
/// characters before the place where `expected` was looked for.
#[derive(Clone, Copy, Debug, PartialEq, Eq, Structural)]
pub struct SyntaxError {
    pub offset: usize,
    pub expected: Expected,
}

/// The failure at `pos`, as the grammar reports it.
pub open spec fn fail<T>(pos: int, expected: Expected) -> Result<T, SyntaxError> {
    Err(SyntaxError { offset: pos as usize, expected })
}

impl Expected {
    /// A phrase for messages: what should have stood in the input.
    pub fn describe(&self) -> (r: &'static str)
        ensures
            r@ == self.phrase(),
    {
        match self {
            Expected::Identifier => "an identifier",
            Expected::Expression => "an expression",
            Expected::Digit => "a digit",
            Expected::IntegerInRange => "an integer that fits in 32 bits",
            Expected::Text => "text",
            Expected::ClosingQuote => "a closing `\"`",
            Expected::ClosingBrace => "a closing `}`",
            Expected::ClosingParen => "`,` or a closing `)`",
            Expected::ClosingBracket => "a modifier or a closing `]`",
            Expected::Marker => "`[`",
            Expected::Speaker => "a speaker",
            Expected::Comment => "`--`",
            Expected::BlockCommentEnd => "a closing `]--`",
            Expected::Dialogue => "`- `",
            Expected::Narration => "`* `",
            Expected::Equals => "`=`",
            Expected::Space => "a space",
            Expected::Separator => "`;` or a line break",
            Expected::Scene => "`scene`",
            Expected::Prompt => "`prompt`",
            Expected::PromptOption => "`option`",
            Expected::OptionOrEnd => "`option` or `end`",
            Expected::End => "`end`",
            Expected::Item => "a comment, a scene or a field",
        }
    }

    /// The phrase that `describe` gives.
    pub open spec fn phrase(&self) -> Seq<char> {
        match self {
            Expected::Identifier => "an identifier"@,
            Expected::Expression => "an expression"@,
            Expected::Digit => "a digit"@,
            Expected::IntegerInRange => "an integer that fits in 32 bits"@,
            Expected::Text => "text"@,
            Expected::ClosingQuote => "a closing `\"`"@,
            Expected::ClosingBrace => "a closing `}`"@,
            Expected::ClosingParen => "`,` or a closing `)`"@,
            Expected::ClosingBracket => "a modifier or a closing `]`"@,
            Expected::Marker => "`[`"@,
            Expected::Speaker => "a speaker"@,
            Expected::Comment => "`--`"@,
            Expected::BlockCommentEnd => "a closing `]--`"@,
            Expected::Dialogue => "`- `"@,
            Expected::Narration => "`* `"@,
            Expected::Equals => "`=`"@,
            Expected::Space => "a space"@,
            Expected::Separator => "`;` or a line break"@,
            Expected::Scene => "`scene`"@,
            Expected::Prompt => "`prompt`"@,
            Expected::PromptOption => "`option`"@,
            Expected::OptionOrEnd => "`option` or `end`"@,
            Expected::End => "`end`"@,
            Expected::Item => "a comment, a scene or a field"@,
        }
    }
}

} // verus!
