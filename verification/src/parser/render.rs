use vstd::prelude::*;

use super::lexer::LexError;
use super::token::{push_char, LexerType, Token, TokenModel, TokenType};
use super::{ParseError, ParseErrorModel, Rule};

verus! {

/// The character that writes a decimal digit.
pub open spec fn digit_char(digit: int) -> char {
    if digit == 0 {
        '0'
    } else if digit == 1 {
        '1'
    } else if digit == 2 {
        '2'
    } else if digit == 3 {
        '3'
    } else if digit == 4 {
        '4'
    } else if digit == 5 {
        '5'
    } else if digit == 6 {
        '6'
    } else if digit == 7 {
        '7'
    } else if digit == 8 {
        '8'
    } else {
        '9'
    }
}

/// A natural number written in decimal digits, without leading zeros.
pub open spec fn decimal_text(number: nat) -> Seq<char>
    decreases number,
{
    if number < 10 {
        seq![digit_char(number as int)]
    } else {
        decimal_text(number / 10).push(digit_char((number % 10) as int))
    }
}

/// An integer written in decimal digits, with a minus sign before them
/// where it is negative.
pub open spec fn integer_text(number: int) -> Seq<char> {
    if number < 0 {
        seq!['-'] + decimal_text((-number) as nat)
    } else {
        decimal_text(number as nat)
    }
}

/// A token as a diagnostic shows it: a word, a symbol and an operator by
/// its canonical spelling; a name, a path and a numeric literal as written;
/// a string literal between double quotes.
pub open spec fn token_text(token: TokenModel) -> Seq<char> {
    match token {
        TokenModel::Identifier(name) => name,
        TokenModel::Integer(value) => integer_text(value as int),
        TokenModel::Float(literal) => literal,
        TokenModel::String(text) => seq!['"'] + text + seq!['"'],
        TokenModel::Keyword(word) => word.spec_spelling(),
        TokenModel::ControlCharacter(symbol) => symbol.spec_spelling(),
        TokenModel::Operator(operator) => operator.spec_spelling(),
        TokenModel::FilePath(path) => path,
        TokenModel::EOI => "end of input"@,
    }
}

/// A kind of token as a diagnostic shows it: a word, a symbol and an
/// operator by its canonical spelling, every other kind by its name.
pub open spec fn kind_text(kind: TokenType) -> Seq<char> {
    match kind {
        TokenType::Identifier => "identifier"@,
        TokenType::Integer => "integer"@,
        TokenType::Float => "float"@,
        TokenType::String => "string"@,
        TokenType::Keyword(word) => word.spec_spelling(),
        TokenType::ControlCharacter(symbol) => symbol.spec_spelling(),
        TokenType::Operator(operator) => operator.spec_spelling(),
        TokenType::FilePath => "path"@,
        TokenType::EOI => "end of input"@,
        TokenType::TypeName => "type name"@,
    }
}

/// What stands after the kind at index `at` in a list of `count` kinds:
/// nothing after the last, `, or ` after the last but one, and `, ` after
/// every earlier one.
pub open spec fn separator(at: int, count: int) -> Seq<char> {
    if at + 1 >= count {
        Seq::empty()
    } else if at + 2 == count {
        ", or "@
    } else {
        ", "@
    }
}

/// The first `upto` kinds of a list as a diagnostic shows them, each with
/// what stands after it.
pub open spec fn kinds_text(kinds: Seq<TokenType>, upto: int) -> Seq<char>
    decreases upto,
{
    if upto <= 0 {
        Seq::empty()
    } else {
        kinds_text(kinds, upto - 1) + kind_text(kinds[upto - 1]) + separator(
            upto - 1,
            kinds.len() as int,
        )
    }
}

/// What a diagnostic adds for the rule that an error reports: nothing for
/// the grammar itself, and the rule in words, in parentheses, for every
/// other one.
pub open spec fn rule_text(rule: Rule) -> Seq<char> {
    match rule {
        Rule::Grammar => Seq::empty(),
        Rule::ConstTypeAnnotation => " (const requires a type annotation)"@,
        Rule::LiteralRange => " (integer literal out of range for its type)"@,
        Rule::DuplicateName => " (name is already taken)"@,
    }
}

/// The message of a parse error: `parse error at`, the position, `: found`,
/// the token, `; expected`, the kinds, and the rule where it is not the
/// grammar itself.
pub open spec fn parse_error_text(error: ParseErrorModel) -> Seq<char> {
    "parse error at "@ + decimal_text(error.at.start) + ": found "@ + token_text(error.at.token)
        + "; expected "@ + kinds_text(error.expected, error.expected.len() as int) + rule_text(
        error.rule,
    )
}

/// The message of a lexer error: `lexer error at`, the position,
/// `: unexpected character`, and the character between single quotes.
pub open spec fn lex_error_text(error: LexError) -> Seq<char> {
    "lexer error at "@ + decimal_text(error.at as nat) + ": unexpected character '"@
        + seq![error.found] + "'"@
}

/// The character that writes the decimal digit `digit`.
pub fn digit_of(digit: u64) -> (c: char)
    requires
        digit < 10,
    ensures
        c == digit_char(digit as int),
{
    if digit == 0 {
        '0'
    } else if digit == 1 {
        '1'
    } else if digit == 2 {
        '2'
    } else if digit == 3 {
        '3'
    } else if digit == 4 {
        '4'
    } else if digit == 5 {
        '5'
    } else if digit == 6 {
        '6'
    } else if digit == 7 {
        '7'
    } else if digit == 8 {
        '8'
    } else {
        '9'
    }
}

/// Appends `number`, written in decimal digits, to `text`.
pub fn append_decimal(text: &mut String, number: u64)
    ensures
        final(text)@ == old(text)@ + decimal_text(number as nat),
    decreases number,
{
    if number < 10 {
        push_char(text, digit_of(number));
        assert(final(text)@ =~= old(text)@ + decimal_text(number as nat));
    } else {
        append_decimal(text, number / 10);
        push_char(text, digit_of(number % 10));
        assert(final(text)@ =~= old(text)@ + decimal_text(number as nat));
    }
}

/// Appends `number`, written in decimal digits with its sign, to `text`.
pub fn append_integer(text: &mut String, number: i64)
    ensures
        final(text)@ == old(text)@ + integer_text(number as int),
{
    if number < 0 {
        let magnitude: i128 = -(number as i128);
        push_char(text, '-');
        append_decimal(text, magnitude as u64);
        assert(final(text)@ =~= old(text)@ + integer_text(number as int));
    } else {
        append_decimal(text, number as u64);
    }
}

/// Appends `token`, as a diagnostic shows it, to `text`.
pub fn append_token(text: &mut String, token: &Token)
    ensures
        final(text)@ == old(text)@ + token_text(token@),
{
    match token {
        Token::Identifier(name) => text.append(name.as_str()),
        Token::Integer(value) => append_integer(text, *value),
        Token::Float(literal) => text.append(literal.as_str()),
        Token::String(body) => {
            push_char(text, '"');
            text.append(body.as_str());
            push_char(text, '"');
            assert(final(text)@ =~= old(text)@ + token_text(token@));
        },
        Token::Keyword(word) => text.append(word.spelling()),
        Token::ControlCharacter(symbol) => text.append(symbol.spelling()),
        Token::Operator(operator) => text.append(operator.spelling()),
        Token::FilePath(path) => text.append(path.as_str()),
        Token::EOI => text.append("end of input"),
    }
}

/// Appends the kind `kind`, as a diagnostic shows it, to `text`.
pub fn append_kind(text: &mut String, kind: TokenType)
    ensures
        final(text)@ == old(text)@ + kind_text(kind),
{
    match kind {
        TokenType::Identifier => text.append("identifier"),
        TokenType::Integer => text.append("integer"),
        TokenType::Float => text.append("float"),
        TokenType::String => text.append("string"),
        TokenType::Keyword(word) => text.append(word.spelling()),
        TokenType::ControlCharacter(symbol) => text.append(symbol.spelling()),
        TokenType::Operator(operator) => text.append(operator.spelling()),
        TokenType::FilePath => text.append("path"),
        TokenType::EOI => text.append("end of input"),
        TokenType::TypeName => text.append("type name"),
    }
}

/// Appends the kinds of `kinds`, as a diagnostic shows them, to `text`.
pub fn append_kinds(text: &mut String, kinds: &[TokenType])
    ensures
        final(text)@ == old(text)@ + kinds_text(kinds@, kinds@.len() as int),
{
    let count = kinds.len();
    let mut at: usize = 0;
    assert(text@ =~= old(text)@ + kinds_text(kinds@, 0));
    while at < count
        invariant
            at <= count,
            count == kinds@.len(),
            text@ == old(text)@ + kinds_text(kinds@, at as int),
        decreases count - at,
    {
        let ghost before = text@;
        append_kind(text, kinds[at]);
        let ghost shown = text@;
        if at + 1 < count {
            if at + 2 == count {
                text.append(", or ");
            } else {
                text.append(", ");
            }
        }
        assert(text@ =~= shown + separator(at as int, count as int));
        at += 1;
        assert(text@ =~= old(text)@ + kinds_text(kinds@, at as int));
    }
}

/// Appends what a diagnostic adds for the rule `rule` to `text`.
pub fn append_rule(text: &mut String, rule: Rule)
    ensures
        final(text)@ == old(text)@ + rule_text(rule),
{
    match rule {
        Rule::Grammar => {
            assert(text@ =~= old(text)@ + rule_text(rule));
        },
        Rule::ConstTypeAnnotation => text.append(" (const requires a type annotation)"),
        Rule::LiteralRange => text.append(" (integer literal out of range for its type)"),
        Rule::DuplicateName => text.append(" (name is already taken)"),
    }
}

impl ParseError {
    /// The message of this error.
    pub fn to_string(&self) -> (message: String)
        ensures
            message@ == parse_error_text(self@),
    {
        let mut message = String::from_str("parse error at ");
        append_decimal(&mut message, self.at.start as u64);
        message.append(": found ");
        append_token(&mut message, &self.at.token);
        message.append("; expected ");
        append_kinds(&mut message, self.expected.as_slice());
        append_rule(&mut message, self.rule);
        message
    }
}

impl LexError {
    /// The message of this error.
    pub fn to_string(&self) -> (message: String)
        ensures
            message@ == lex_error_text(*self),
    {
        let mut message = String::from_str("lexer error at ");
        append_decimal(&mut message, self.at as u64);
        message.append(": unexpected character '");
        push_char(&mut message, self.found);
        message.append("'");
        assert(message@ =~= lex_error_text(*self));
        message
    }
}

} // verus!
