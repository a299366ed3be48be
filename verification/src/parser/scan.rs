use vstd::prelude::*;

verus! {

/// Whether `c` is one of the ten decimal digits.
pub open spec fn is_digit(c: char) -> bool {
    '0' <= c <= '9'
}

/// Whether `c` can start an identifier: a letter of the basic Latin alphabet
/// or an underscore.
pub open spec fn is_identifier_start(c: char) -> bool {
    ('a' <= c <= 'z') || ('A' <= c <= 'Z') || c == '_'
}

/// Whether `c` can continue an identifier: what can start one, or a digit.
pub open spec fn is_identifier_part(c: char) -> bool {
    is_identifier_start(c) || is_digit(c)
}

/// Whether `c` can stand in an unquoted path: what can continue an
/// identifier, a slash or a dot.
pub open spec fn is_path_part(c: char) -> bool {
    is_identifier_part(c) || c == '/' || c == '.'
}

/// Whether `c` is white space: a character with the Unicode property
/// `White_Space`.
pub open spec fn is_whitespace(c: char) -> bool {
    ('\u{9}' <= c <= '\u{D}') || c == ' ' || c == '\u{85}' || c == '\u{A0}' || c == '\u{1680}' || (
    '\u{2000}' <= c <= '\u{200A}') || c == '\u{2028}' || c == '\u{2029}' || c == '\u{202F}' || c
        == '\u{205F}' || c == '\u{3000}'
}

/// The classes of characters that the lexer reads runs of.
#[derive(Debug, Clone, Copy, PartialEq, Eq, Structural)]
pub enum CharClass {
    /// A decimal digit.
    Digit,
    /// A character that can continue an identifier.
    IdentifierPart,
    /// A character that can stand in an unquoted path.
    PathPart,
    /// White space.
    Whitespace,
    /// A character inside a string literal: anything but the double quote.
    StringBody,
}

impl CharClass {
    /// Whether `c` belongs to this class.
    pub open spec fn accepts(self, c: char) -> bool {
        match self {
            CharClass::Digit => is_digit(c),
            CharClass::IdentifierPart => is_identifier_part(c),
            CharClass::PathPart => is_path_part(c),
            CharClass::Whitespace => is_whitespace(c),
            CharClass::StringBody => c != '"',
        }
    }

    /// Whether `c` belongs to this class.
    pub fn contains(self, c: char) -> (yes: bool)
        ensures
            yes == self.accepts(c),
    {
        match self {
            CharClass::Digit => digit(c),
            CharClass::IdentifierPart => identifier_part(c),
            CharClass::PathPart => identifier_part(c) || c == '/' || c == '.',
            CharClass::Whitespace => whitespace(c),
            CharClass::StringBody => c != '"',
        }
    }
}

/// Whether `c` is a decimal digit.
pub fn digit(c: char) -> (yes: bool)
    ensures
        yes == is_digit(c),
{
    '0' <= c && c <= '9'
}

/// Whether `c` can start an identifier.
pub fn identifier_start(c: char) -> (yes: bool)
    ensures
        yes == is_identifier_start(c),
{
    ('a' <= c && c <= 'z') || ('A' <= c && c <= 'Z') || c == '_'
}

/// Whether `c` can continue an identifier.
pub fn identifier_part(c: char) -> (yes: bool)
    ensures
        yes == is_identifier_part(c),
{
    identifier_start(c) || digit(c)
}

/// Whether `c` is white space.
pub fn whitespace(c: char) -> (yes: bool)
    ensures
        yes == is_whitespace(c),
{
    ('\u{9}' <= c && c <= '\u{D}') || c == ' ' || c == '\u{85}' || c == '\u{A0}' || c == '\u{1680}'
        || ('\u{2000}' <= c && c <= '\u{200A}') || c == '\u{2028}' || c == '\u{2029}' || c
        == '\u{202F}' || c == '\u{205F}' || c == '\u{3000}'
}

/// Where the run of characters of `class` that starts at `from` ends: the
/// first position at or after `from` that holds no character of the class,
/// or the end of `text`.
pub open spec fn span(text: Seq<char>, from: int, class: CharClass) -> int
    decreases text.len() - from,
{
    if 0 <= from < text.len() && class.accepts(text[from]) {
        span(text, from + 1, class)
    } else {
        from
    }
}

/// A run ends at or after its start and within the text, holds only
/// characters of its class, and is not followed by one.
pub proof fn lemma_span(text: Seq<char>, from: int, class: CharClass)
    requires
        0 <= from <= text.len(),
    ensures
        from <= span(text, from, class) <= text.len(),
        forall|i: int| from <= i < span(text, from, class) ==> class.accepts(#[trigger] text[i]),
        span(text, from, class) < text.len() ==> !class.accepts(text[span(text, from, class)]),
    decreases text.len() - from,
{
    if from < text.len() && class.accepts(text[from]) {
        lemma_span(text, from + 1, class);
    }
}

/// The end of a run is the only position that the run's properties fit.
pub proof fn lemma_span_unique(text: Seq<char>, from: int, class: CharClass, end: int)
    requires
        0 <= from <= end <= text.len(),
        forall|i: int| from <= i < end ==> class.accepts(#[trigger] text[i]),
        end < text.len() ==> !class.accepts(text[end]),
    ensures
        span(text, from, class) == end,
    decreases end - from,
{
    if from < end {
        lemma_span_unique(text, from + 1, class, end);
    }
}

/// Reads the run of characters of `class` that starts at `from`, and returns
/// the position at which it ends.
pub fn scan(text: &[char], from: usize, class: CharClass) -> (end: usize)
    requires
        from <= text.len(),
    ensures
        end == span(text@, from as int, class),
        from <= end <= text.len(),
{
    let mut at: usize = from;
    while at < text.len() && class.contains(text[at])
        invariant
            from <= at <= text.len(),
            forall|i: int| from <= i < at ==> class.accepts(#[trigger] text@[i]),
        decreases text.len() - at,
    {
        at += 1;
    }
    proof {
        lemma_span_unique(text@, from as int, class, at as int);
    }
    at
}

/// The number that a decimal digit stands for.
pub open spec fn digit_value(c: char) -> int {
    c as int - '0' as int
}

/// The number that a sequence of decimal digits writes; the empty sequence
/// writes zero.
pub open spec fn decimal_value(digits: Seq<char>) -> int
    decreases digits.len(),
{
    if digits.len() == 0 {
        0
    } else {
        decimal_value(digits.drop_last()) * 10 + digit_value(digits.last())
    }
}

/// The number written by the first digits of a numeral is at most the number
/// written by all of them.
pub proof fn lemma_decimal_value_grows(digits: Seq<char>, count: int)
    requires
        0 <= count <= digits.len(),
        forall|i: int| 0 <= i < digits.len() ==> is_digit(#[trigger] digits[i]),
    ensures
        0 <= decimal_value(digits.take(count)) <= decimal_value(digits),
    decreases digits.len(),
{
    if digits.len() == 0 {
        assert(digits.take(count) =~= digits);
    } else if count == digits.len() {
        assert(digits.take(count) =~= digits);
        lemma_decimal_value_grows(digits.drop_last(), count - 1);
    } else {
        lemma_decimal_value_grows(digits.drop_last(), count);
        assert(digits.drop_last().take(count) =~= digits.take(count));
    }
}

} // verus!
