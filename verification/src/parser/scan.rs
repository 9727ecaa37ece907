use vstd::prelude::*;

verus! {

/// `String::push` of the standard library: it appends the character to the
/// end of the string, and changes nothing else.
pub assume_specification[ String::push ](s: &mut String, c: char)
    ensures
        final(s)@ == old(s)@.push(c),
;

/// The sets of characters that the grammar scans runs of.
#[derive(Clone, Copy, Debug)]
pub enum CharClass {
    /// Space and tab.
    InlineSpace,
    /// Space, tab, line feed and carriage return.
    Space,
    /// `0` to `9`.
    Digit,
    /// `0` to `9` and the separator `_`.
    DigitOrUnderscore,
    /// ASCII letters, digits and `_`.
    IdentChar,
    /// Anything but a line terminator.
    CommentText,
    /// Anything but a line terminator or a brace.
    LineText,
    /// Anything but a line terminator, a brace or a double quote.
    StringText,
}

/// Whether a character is a space or a tab.
pub open spec fn is_inline_space(c: char) -> bool {
    c == ' ' || c == '\t'
}

/// Whether a character is a line terminator.
pub open spec fn is_newline(c: char) -> bool {
    c == '\n' || c == '\r'
}

/// Whether a character is a decimal digit.
pub open spec fn is_digit(c: char) -> bool {
    '0' <= c <= '9'
}

/// Whether a character can start a word: an ASCII letter or `_`.
pub open spec fn is_ident_start(c: char) -> bool {
    ('a' <= c <= 'z') || ('A' <= c <= 'Z') || c == '_'
}

/// Whether a character belongs to a class.
pub open spec fn in_class(class: CharClass, c: char) -> bool {
    match class {
        CharClass::InlineSpace => is_inline_space(c),
        CharClass::Space => is_inline_space(c) || is_newline(c),
        CharClass::Digit => is_digit(c),
        CharClass::DigitOrUnderscore => is_digit(c) || c == '_',
        CharClass::IdentChar => is_ident_start(c) || is_digit(c),
        CharClass::CommentText => !is_newline(c),
        CharClass::LineText => !is_newline(c) && c != '{' && c != '}',
        CharClass::StringText => !is_newline(c) && c != '{' && c != '}' && c != '"',
    }
}

/// Whether the character at `pos` exists and is `c`.
pub open spec fn at(s: Seq<char>, pos: int, c: char) -> bool {
    0 <= pos < s.len() && s[pos] == c
}

/// Whether the character at `pos` exists and belongs to `class`.
pub open spec fn at_class(s: Seq<char>, pos: int, class: CharClass) -> bool {
    0 <= pos < s.len() && in_class(class, s[pos])
}

/// Whether `word` stands in `s` at `pos`.
pub open spec fn has_word(s: Seq<char>, pos: int, word: Seq<char>) -> bool {
    0 <= pos && pos + word.len() <= s.len() && s.subrange(pos, pos + word.len()) == word
}

/// Length of the longest run of characters of `class` that starts at `pos`.
pub open spec fn run(s: Seq<char>, pos: int, class: CharClass) -> nat
    decreases s.len() - pos,
{
    if at_class(s, pos, class) {
        1 + run(s, pos + 1, class)
    } else {
        0
    }
}

/// A run lies within the text, holds only characters of its class, and cannot
/// be longer.
pub proof fn lemma_run(s: Seq<char>, pos: int, class: CharClass)
    requires
        0 <= pos <= s.len(),
    ensures
        pos + run(s, pos, class) <= s.len(),
        forall|i: int| pos <= i < pos + run(s, pos, class) ==> in_class(class, #[trigger] s[i]),
        !at_class(s, pos + run(s, pos, class), class),
    decreases s.len() - pos,
{
    if at_class(s, pos, class) {
        lemma_run(s, pos + 1, class);
    }
}

/// Whether a character is a decimal digit.
pub fn is_digit_char(c: char) -> (r: bool)
    ensures
        r == is_digit(c),
{
    '0' <= c && c <= '9'
}

/// Whether a character can start a word.
pub fn is_ident_start_char(c: char) -> (r: bool)
    ensures
        r == is_ident_start(c),
{
    ('a' <= c && c <= 'z') || ('A' <= c && c <= 'Z') || c == '_'
}

/// Whether a character belongs to a class.
pub fn class_has(class: CharClass, c: char) -> (r: bool)
    ensures
        r == in_class(class, c),
{
    let inline = c == ' ' || c == '\t';
    let newline = c == '\n' || c == '\r';
    match class {
        CharClass::InlineSpace => inline,
        CharClass::Space => inline || newline,
        CharClass::Digit => is_digit_char(c),
        CharClass::DigitOrUnderscore => is_digit_char(c) || c == '_',
        CharClass::IdentChar => is_ident_start_char(c) || is_digit_char(c),
        CharClass::CommentText => !newline,
        CharClass::LineText => !newline && c != '{' && c != '}',
        CharClass::StringText => !newline && c != '{' && c != '}' && c != '"',
    }
}

/// Skips the longest run of characters of `class` that starts at `pos`.
pub fn scan(input: &Vec<char>, pos: usize, class: CharClass) -> (end: usize)
    requires
        pos <= input.len(),
    ensures
        end == pos + run(input@, pos as int, class),
        pos <= end <= input.len(),
{
    let mut i: usize = pos;
    while i < input.len() && class_has(class, input[i])
        invariant
            pos <= i <= input.len(),
            pos + run(input@, pos as int, class) == i + run(input@, i as int, class),
        decreases input.len() - i,
    {
        i += 1;
    }
    i
}

/// Whether the character at `pos` exists and is `c`.
pub fn is_at(input: &Vec<char>, pos: usize, c: char) -> (r: bool)
    ensures
        r == at(input@, pos as int, c),
{
    pos < input.len() && input[pos] == c
}

/// Whether the character at `pos` exists and belongs to `class`.
pub fn is_at_class(input: &Vec<char>, pos: usize, class: CharClass) -> (r: bool)
    ensures
        r == at_class(input@, pos as int, class),
{
    pos < input.len() && class_has(class, input[pos])
}

/// Whether `word` stands in `input` at `pos`.
pub fn starts_with(input: &Vec<char>, pos: usize, word: &str) -> (r: bool)
    ensures
        r == has_word(input@, pos as int, word@),
{
    let n = word.unicode_len();
    if pos > input.len() || n > input.len() - pos {
        return false;
    }
    let mut i: usize = 0;
    while i < n
        invariant
            i <= n,
            n == word@.len(),
            pos + n <= input.len(),
            forall|j: int| 0 <= j < i ==> input@[pos + j] == word@[j],
        decreases n - i,
    {
        if input[pos + i] != word.get_char(i) {
            assert(input@.subrange(pos as int, pos + n)[i as int] != word@[i as int]);
            return false;
        }
        i += 1;
    }
    assert(input@.subrange(pos as int, pos + n) =~= word@);
    true
}

/// The characters of `input` from `from` up to `to`, as a string.
pub fn slice_to_string(input: &Vec<char>, from: usize, to: usize) -> (r: String)
    requires
        from <= to <= input.len(),
    ensures
        r@ == input@.subrange(from as int, to as int),
{
    let mut out = String::new();
    let mut i: usize = from;
    while i < to
        invariant
            from <= i <= to <= input.len(),
            out@ == input@.subrange(from as int, i as int),
        decreases to - i,
    {
        out.push(input[i]);
        i += 1;
        assert(input@.subrange(from as int, i as int) == input@.subrange(
            from as int,
            i - 1,
        ).push(input@[i - 1]));
    }
    out
}

/// The characters of a string.
pub fn string_to_chars(s: &str) -> (r: Vec<char>)
    ensures
        r@ == s@,
{
    let mut out: Vec<char> = Vec::new();
    for c in it: s.chars()
        invariant
            it.seq() == s@,
            out@ == s@.subrange(0, it.index() as int),
    {
        out.push(c);
        assert(s@.subrange(0, it.index() + 1) == s@.subrange(0, it.index() as int).push(c));
    }
    assert(s@.subrange(0, s@.len() as int) == s@);
    out
}

} // verus!
