use vstd::prelude::*;

use super::ast::{DeclarationModel, ValueModel};
use super::grammar::{
    kind_of, spec_binary, spec_binding, spec_climb, spec_const,
    spec_declaration, spec_operand,
    spec_program, spec_value, symbol, token_at,
};
use super::lexer::{opens_import, spec_next_token, spec_tokenize, spec_tokenize_from, LexError};
use super::scan::{
    is_digit, is_identifier_part, is_identifier_start, is_whitespace, lemma_span_unique, CharClass,
};
use super::types::TypeModel;
use super::{spec_parse_source, ParseErrorModel, Rule, SourceErrorModel};
use super::token::{
    end_of_input, is_longest_match, lemma_longest_match_unique, lemma_parse_bounds,
    lemma_symbol_bounds, spec_parse, spec_parse_control, spec_parse_identifier,
    spec_parse_keyword, spec_parse_number, spec_parse_operator, spec_parse_string,
    spec_parse_symbol, ControlCharacter, Keyword, LexerType, Operator, Positioned, TokenModel,
    TypeName,
};

verus! {

/// A text that another text starts with has the same first character.
pub proof fn lemma_prefix_first(word: Seq<char>, text: Seq<char>)
    requires
        word.is_prefix_of(text),
        word.len() > 0,
    ensures
        text.len() > 0,
        word[0] == text[0],
{
    assert(word[0] == text.subrange(0, word.len() as int)[0]);
}

/// A member of a symbol set is the one that is recognized in its own
/// spelling, at the full length of the spelling.
pub proof fn lemma_symbol_round_trip<T: LexerType>(member: T)
    ensures
        spec_parse_symbol::<T>(member.spec_spelling()) == Some(
            (member, member.spec_spelling().len()),
        ),
{
    let text = member.spec_spelling();
    assert(text.is_prefix_of(text)) by {
        assert(text =~= text.subrange(0, text.len() as int));
    }
    assert(is_longest_match(member, text));
    let chosen = choose|m: T| is_longest_match(m, text);
    lemma_longest_match_unique(member, chosen, text);
}

/// The first character of a type name's spelling can start an identifier,
/// and every character of it can continue one.
pub proof fn lemma_type_name_letters(name: TypeName)
    ensures
        is_identifier_start(name.spec_spelling()[0]),
        forall|i: int|
            0 <= i < name.spec_spelling().len() ==> is_identifier_part(
                #[trigger] name.spec_spelling()[i],
            ),
{
    TypeName::reveal_spellings();
    let s = name.spec_spelling();
    assert forall|i: int| 0 <= i < s.len() implies is_identifier_part(#[trigger] s[i]) by {
        if i == 0 {
        } else if i == 1 {
        } else if i == 2 {
        } else if i == 3 {
        } else if i == 4 {
        } else if i == 5 {
        } else if i == 6 {
        } else if i == 7 {
        } else if i == 8 {
        } else if i == 9 {
        } else {
        }
    }
}

/// The first character of a reserved word's spelling can start an
/// identifier, and every character of it can continue one.
pub proof fn lemma_keyword_letters(word: Keyword)
    ensures
        is_identifier_start(word.spec_spelling()[0]),
        forall|i: int|
            0 <= i < word.spec_spelling().len() ==> is_identifier_part(
                #[trigger] word.spec_spelling()[i],
            ),
{
    match word {
        Keyword::TypeName(name) => {
            lemma_type_name_letters(name);
        },
        _ => {
            Keyword::reveal_spellings();
            let s = word.spec_spelling();
            assert forall|i: int| 0 <= i < s.len() implies is_identifier_part(#[trigger] s[i]) by {
                if i == 0 {
                } else if i == 1 {
                } else if i == 2 {
                } else if i == 3 {
                } else if i == 4 {
                } else {
                }
            }
        },
    }
}

/// The spelling of a punctuation symbol starts with a character that is no
/// white space, no digit, no double quote, and cannot start an identifier;
/// and no numeric literal stands at its start.
pub proof fn lemma_control_first(symbol: ControlCharacter)
    ensures
        !is_identifier_start(symbol.spec_spelling()[0]),
        !is_digit(symbol.spec_spelling()[0]),
        !is_whitespace(symbol.spec_spelling()[0]),
        symbol.spec_spelling()[0] != '"',
        spec_parse_number(symbol.spec_spelling()) is None,
{
    ControlCharacter::reveal_spellings();
    let s = symbol.spec_spelling();
    if s[0] == '-' {
        lemma_span_unique(s, 1, CharClass::Digit, 1);
    } else {
        lemma_span_unique(s, 0, CharClass::Digit, 0);
    }
}

/// The spelling of an operator starts with a character that is no white
/// space, no digit, no double quote, and cannot start an identifier; and no
/// numeric literal stands at its start.
pub proof fn lemma_operator_first(operator: Operator)
    ensures
        !is_identifier_start(operator.spec_spelling()[0]),
        !is_digit(operator.spec_spelling()[0]),
        !is_whitespace(operator.spec_spelling()[0]),
        operator.spec_spelling()[0] != '"',
        spec_parse_number(operator.spec_spelling()) is None,
{
    Operator::reveal_spellings();
    let s = operator.spec_spelling();
    if s[0] == '-' {
        lemma_span_unique(s, 1, CharClass::Digit, 1);
    } else {
        lemma_span_unique(s, 0, CharClass::Digit, 0);
    }
}

/// No punctuation symbol is spelled as an operator is.
pub proof fn lemma_control_operator_distinct(symbol: ControlCharacter, operator: Operator)
    ensures
        symbol.spec_spelling() != operator.spec_spelling(),
{
    ControlCharacter::reveal_spellings();
    Operator::reveal_spellings();
    let s = symbol.spec_spelling();
    let t = operator.spec_spelling();
    if s == t {
        assert(s.len() == t.len());
        assert(s[0] == t[0]);
        if s.len() > 1 {
            assert(s[1] == t[1]);
        }
    }
}

/// In a text that starts with a character that cannot start an identifier,
/// no reserved word and no identifier is recognized.
pub proof fn lemma_no_word(text: Seq<char>)
    requires
        text.len() > 0,
        !is_identifier_start(text[0]),
    ensures
        spec_parse_keyword(text) is None,
        spec_parse_identifier(text) is None,
{
    assert forall|word: Keyword| !is_longest_match(word, text) by {
        if word.spec_spelling().is_prefix_of(text) {
            Keyword::lemma_spelling_nonempty(word);
            lemma_prefix_first(word.spec_spelling(), text);
            lemma_keyword_letters(word);
        }
    }
}

/// In a text that starts with a character that can start an identifier, no
/// punctuation symbol, no operator, no numeric literal and no string literal
/// is recognized.
pub proof fn lemma_only_words(text: Seq<char>)
    requires
        text.len() > 0,
        is_identifier_start(text[0]),
    ensures
        spec_parse_control(text) is None,
        spec_parse_operator(text) is None,
        spec_parse_number(text) is None,
        spec_parse_string(text) is None,
{
    assert forall|symbol: ControlCharacter| !is_longest_match(symbol, text) by {
        if symbol.spec_spelling().is_prefix_of(text) {
            ControlCharacter::lemma_spelling_nonempty(symbol);
            lemma_prefix_first(symbol.spec_spelling(), text);
            lemma_control_first(symbol);
        }
    }
    assert forall|operator: Operator| !is_longest_match(operator, text) by {
        if operator.spec_spelling().is_prefix_of(text) {
            Operator::lemma_spelling_nonempty(operator);
            lemma_prefix_first(operator.spec_spelling(), text);
            lemma_operator_first(operator);
        }
    }
    lemma_span_unique(text, 0, CharClass::Digit, 0);
}

/// Reading the canonical spelling of a reserved word gives that word, at
/// the full length of the spelling.
pub proof fn lemma_keyword_round_trip(word: Keyword)
    ensures
        spec_parse(word.spec_spelling()) == Some(
            (TokenModel::Keyword(word), word.spec_spelling().len()),
        ),
{
    let text = word.spec_spelling();
    Keyword::lemma_spelling_nonempty(word);
    lemma_keyword_letters(word);
    lemma_symbol_round_trip(word);
    lemma_only_words(text);
    lemma_span_unique(text, 1, CharClass::IdentifierPart, text.len() as int);
}

/// Reading the canonical spelling of a punctuation symbol gives that
/// symbol, at the full length of the spelling.
pub proof fn lemma_control_round_trip(symbol: ControlCharacter)
    ensures
        spec_parse(symbol.spec_spelling()) == Some(
            (TokenModel::ControlCharacter(symbol), symbol.spec_spelling().len()),
        ),
{
    let text = symbol.spec_spelling();
    ControlCharacter::lemma_spelling_nonempty(symbol);
    lemma_control_first(symbol);
    lemma_symbol_round_trip(symbol);
    lemma_no_word(text);
    lemma_symbol_bounds::<Operator>(text);
}

/// Reading the canonical spelling of an operator gives that operator, at
/// the full length of the spelling.
pub proof fn lemma_operator_round_trip(operator: Operator)
    ensures
        spec_parse(operator.spec_spelling()) == Some(
            (TokenModel::Operator(operator), operator.spec_spelling().len()),
        ),
{
    let text = operator.spec_spelling();
    Operator::lemma_spelling_nonempty(operator);
    lemma_operator_first(operator);
    lemma_symbol_round_trip(operator);
    lemma_no_word(text);
    lemma_symbol_bounds::<ControlCharacter>(text);
    if let Some((symbol, length)) = spec_parse_symbol::<ControlCharacter>(text) {
        lemma_control_operator_distinct(symbol, operator);
        if length == text.len() {
            assert(symbol.spec_spelling() =~= text.subrange(0, length as int));
            assert(text.subrange(0, length as int) =~= text);
        }
    }
}

/// A text that holds exactly one token, from its first character to its
/// last, has the token sequence of that token and the end of input.
pub proof fn lemma_single_token(text: Seq<char>, token: TokenModel)
    requires
        0 < text.len(),
        !is_whitespace(text[0]),
        spec_parse(text) == Some((token, text.len())),
    ensures
        spec_tokenize(text) == Ok::<Seq<Positioned>, LexError>(
            seq![
                Positioned { start: 0, length: text.len(), token },
                end_of_input(text.len()),
            ],
        ),
{
    let length = text.len() as int;
    lemma_span_unique(text, 0, CharClass::Whitespace, 0);
    lemma_span_unique(text, length, CharClass::Whitespace, length);
    assert(text.subrange(0, length) =~= text);
    assert(text.subrange(length, length).len() == 0);
    let first = Positioned { start: 0, length: text.len(), token };
    assert(spec_next_token(text, 0, false) == Ok::<Positioned, LexError>(first));
    lemma_parse_bounds(text);
    let operand = opens_import(token);
    assert(spec_next_token(text, length, operand) == Ok::<Positioned, LexError>(
        end_of_input(text.len()),
    ));
    assert(spec_tokenize_from(text, length, operand) == Ok::<
        Seq<Positioned>,
        LexError,
    >(seq![end_of_input(text.len())]));
    assert(seq![first] + seq![end_of_input(text.len())] =~= seq![
        first,
        end_of_input(text.len()),
    ]);
}

/// The round trip of canonical spellings: the token sequence of the
/// spelling of a reserved word, of a punctuation symbol and of an operator
/// is that word, symbol or operator, spanning the whole spelling, and the
/// end of input.
pub proof fn lemma_spelling_round_trip(word: Keyword, symbol: ControlCharacter, operator: Operator)
    ensures
        spec_tokenize(word.spec_spelling()) == Ok::<Seq<Positioned>, LexError>(
            seq![
                Positioned {
                    start: 0,
                    length: word.spec_spelling().len(),
                    token: TokenModel::Keyword(word),
                },
                end_of_input(word.spec_spelling().len()),
            ],
        ),
        spec_tokenize(symbol.spec_spelling()) == Ok::<Seq<Positioned>, LexError>(
            seq![
                Positioned {
                    start: 0,
                    length: symbol.spec_spelling().len(),
                    token: TokenModel::ControlCharacter(symbol),
                },
                end_of_input(symbol.spec_spelling().len()),
            ],
        ),
        spec_tokenize(operator.spec_spelling()) == Ok::<Seq<Positioned>, LexError>(
            seq![
                Positioned {
                    start: 0,
                    length: operator.spec_spelling().len(),
                    token: TokenModel::Operator(operator),
                },
                end_of_input(operator.spec_spelling().len()),
            ],
        ),
{
    Keyword::lemma_spelling_nonempty(word);
    ControlCharacter::lemma_spelling_nonempty(symbol);
    Operator::lemma_spelling_nonempty(operator);
    lemma_keyword_letters(word);
    lemma_control_first(symbol);
    lemma_operator_first(operator);
    lemma_keyword_round_trip(word);
    lemma_control_round_trip(symbol);
    lemma_operator_round_trip(operator);
    lemma_single_token(word.spec_spelling(), TokenModel::Keyword(word));
    lemma_single_token(symbol.spec_spelling(), TokenModel::ControlCharacter(symbol));
    lemma_single_token(operator.spec_spelling(), TokenModel::Operator(operator));
}

/// How two operators in a row group their three operands.
///
/// Where three names `x`, `y` and `z` stand with an operator between each
/// two, and no operator follows, the value is read to its end; the second
/// operation is the right operand of the first where the second operator
/// binds tighter than the first, and the first operation is the left operand
/// of the second else: a tighter operator takes its operands first, and
/// operators of equal rank group from the left.
pub proof fn lemma_operators_group(
    tokens: Seq<Positioned>,
    at: int,
    annotation: Option<TypeModel>,
    x: Seq<char>,
    first: Operator,
    y: Seq<char>,
    second: Operator,
    z: Seq<char>,
)
    requires
        0 <= at,
        token_at(tokens, at).token == TokenModel::Identifier(x),
        token_at(tokens, at + 1).token == TokenModel::Operator(first),
        token_at(tokens, at + 2).token == TokenModel::Identifier(y),
        token_at(tokens, at + 3).token == TokenModel::Operator(second),
        token_at(tokens, at + 4).token == TokenModel::Identifier(z),
        !(token_at(tokens, at + 5).token is Operator),
    ensures
        second.spec_binding() > first.spec_binding() ==> spec_value(tokens, at, annotation) == Ok::<
            (ValueModel, int),
            ParseErrorModel,
        >(
            (
                ValueModel::Math(
                    Box::new(ValueModel::Identifier(x)),
                    first,
                    Box::new(
                        ValueModel::Math(
                            Box::new(ValueModel::Identifier(y)),
                            second,
                            Box::new(ValueModel::Identifier(z)),
                        ),
                    ),
                ),
                at + 5,
            ),
        ),
        second.spec_binding() <= first.spec_binding() ==> spec_value(tokens, at, annotation) == Ok::<
            (ValueModel, int),
            ParseErrorModel,
        >(
            (
                ValueModel::Math(
                    Box::new(
                        ValueModel::Math(
                            Box::new(ValueModel::Identifier(x)),
                            first,
                            Box::new(ValueModel::Identifier(y)),
                        ),
                    ),
                    second,
                    Box::new(ValueModel::Identifier(z)),
                ),
                at + 5,
            ),
        ),
{
    let vx = ValueModel::Identifier(x);
    let vy = ValueModel::Identifier(y);
    let vz = ValueModel::Identifier(z);
    let b1 = first.spec_binding() as int;
    let b2 = second.spec_binding() as int;
    assert(at + 4 < tokens.len());
    assert(spec_operand(tokens, at, annotation) == Ok::<(ValueModel, int), ParseErrorModel>(
        (vx, at + 1),
    ));
    assert(spec_operand(tokens, at + 2, annotation) == Ok::<(ValueModel, int), ParseErrorModel>(
        (vy, at + 3),
    ));
    assert(spec_operand(tokens, at + 4, annotation) == Ok::<(ValueModel, int), ParseErrorModel>(
        (vz, at + 5),
    ));
    if b2 > b1 {
        let inner = ValueModel::Math(Box::new(vy), second, Box::new(vz));
        let outer = ValueModel::Math(Box::new(vx), first, Box::new(inner));
        assert(spec_climb(tokens, at + 5, annotation, b2 + 1, vz) == Ok::<
            (ValueModel, int),
            ParseErrorModel,
        >((vz, at + 5)));
        assert(spec_binary(tokens, at + 4, annotation, b2 + 1) == Ok::<
            (ValueModel, int),
            ParseErrorModel,
        >((vz, at + 5)));
        assert(spec_climb(tokens, at + 5, annotation, b1 + 1, inner) == Ok::<
            (ValueModel, int),
            ParseErrorModel,
        >((inner, at + 5)));
        assert(spec_climb(tokens, at + 3, annotation, b1 + 1, vy) == Ok::<
            (ValueModel, int),
            ParseErrorModel,
        >((inner, at + 5)));
        assert(spec_binary(tokens, at + 2, annotation, b1 + 1) == Ok::<
            (ValueModel, int),
            ParseErrorModel,
        >((inner, at + 5)));
        assert(spec_climb(tokens, at + 5, annotation, 1, outer) == Ok::<
            (ValueModel, int),
            ParseErrorModel,
        >((outer, at + 5)));
        assert(spec_climb(tokens, at + 1, annotation, 1, vx) == Ok::<
            (ValueModel, int),
            ParseErrorModel,
        >((outer, at + 5)));
    } else {
        let inner = ValueModel::Math(Box::new(vx), first, Box::new(vy));
        let outer = ValueModel::Math(Box::new(inner), second, Box::new(vz));
        assert(spec_climb(tokens, at + 3, annotation, b1 + 1, vy) == Ok::<
            (ValueModel, int),
            ParseErrorModel,
        >((vy, at + 3)));
        assert(spec_binary(tokens, at + 2, annotation, b1 + 1) == Ok::<
            (ValueModel, int),
            ParseErrorModel,
        >((vy, at + 3)));
        assert(spec_climb(tokens, at + 5, annotation, b2 + 1, vz) == Ok::<
            (ValueModel, int),
            ParseErrorModel,
        >((vz, at + 5)));
        assert(spec_binary(tokens, at + 4, annotation, b2 + 1) == Ok::<
            (ValueModel, int),
            ParseErrorModel,
        >((vz, at + 5)));
        assert(spec_climb(tokens, at + 5, annotation, 1, outer) == Ok::<
            (ValueModel, int),
            ParseErrorModel,
        >((outer, at + 5)));
        assert(spec_climb(tokens, at + 3, annotation, 1, inner) == Ok::<
            (ValueModel, int),
            ParseErrorModel,
        >((outer, at + 5)));
        assert(spec_climb(tokens, at + 1, annotation, 1, vx) == Ok::<
            (ValueModel, int),
            ParseErrorModel,
        >((outer, at + 5)));
    }
}

/// A constant requires a type annotation: where `const` and a name are
/// followed by anything but `:`, the declaration is an error that reports
/// that token under the rule on the annotation of constants, and expects
/// `:`.
pub proof fn lemma_const_requires_annotation(tokens: Seq<Positioned>, at: int, name: Seq<char>)
    requires
        token_at(tokens, at).token == TokenModel::Keyword(Keyword::Const),
        token_at(tokens, at + 1).token == TokenModel::Identifier(name),
        kind_of(tokens, at + 2) != symbol(ControlCharacter::TypeClarify),
    ensures
        spec_declaration(tokens, at) == Err::<(DeclarationModel, int), ParseErrorModel>(
            ParseErrorModel {
                at: token_at(tokens, at + 2),
                expected: seq![symbol(ControlCharacter::TypeClarify)],
                rule: Rule::ConstTypeAnnotation,
            },
        ),
{
    assert(spec_binding(tokens, at + 1, true) is Err);
    assert(spec_const(tokens, at) is Err);
}

/// A source text that holds nothing but white space is the program without
/// declarations.
pub proof fn lemma_blank_source(text: Seq<char>)
    requires
        forall|i: int| 0 <= i < text.len() ==> is_whitespace(#[trigger] text[i]),
    ensures
        spec_parse_source(text) == Ok::<Seq<DeclarationModel>, SourceErrorModel>(Seq::empty()),
{
    let length = text.len() as int;
    lemma_span_unique(text, 0, CharClass::Whitespace, length);
    assert(text.subrange(length, length).len() == 0);
    assert(spec_next_token(text, 0, false) == Ok::<Positioned, LexError>(
        end_of_input(text.len()),
    ));
    let tokens = seq![end_of_input(text.len())];
    assert(spec_tokenize(text) == Ok::<Seq<Positioned>, LexError>(tokens));
    assert(token_at(tokens, 0) == tokens[0]);
}

} // verus!
