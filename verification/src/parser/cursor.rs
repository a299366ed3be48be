use vstd::prelude::*;

use super::grammar::{end_position, spec_expect, spec_name, spec_type, token_at};
use super::lexer::models;
use super::token::{Keyword, Token, TokenHolder, TokenType};
use super::types::EFSType;
use super::{ParseError, ParseErrorModel, Rule};

verus! {

/// The outcome of reading one node, as a mathematical value: the model of
/// the node and the index after it, or the model of the error.
pub open spec fn parsed<T: View>(outcome: Result<(T, usize), ParseError>) -> Result<
    (T::V, int),
    ParseErrorModel,
> {
    match outcome {
        Ok((node, next)) => Ok((node@, next as int)),
        Err(error) => Err(error@),
    }
}

/// The outcome of passing one token, as a mathematical value.
pub open spec fn stepped(outcome: Result<usize, ParseError>) -> Result<int, ParseErrorModel> {
    match outcome {
        Ok(next) => Ok(next as int),
        Err(error) => Err(error@),
    }
}

/// Where the text of the tokens ends.
pub fn end_of(tokens: &[TokenHolder]) -> (pos: usize)
    ensures
        pos == end_position(models(tokens@)),
{
    if tokens.len() == 0 {
        0
    } else {
        let last = &tokens[tokens.len() - 1];
        if last.length <= usize::MAX - last.start {
            last.start + last.length
        } else {
            usize::MAX
        }
    }
}

/// The token at index `at`, or nothing past the last token.
pub fn look<'a>(tokens: &'a [TokenHolder], at: usize) -> (token: Option<&'a Token>)
    ensures
        match token {
            Some(token) => at < tokens.len() && token@ == token_at(models(tokens@), at as int).token,
            None => at >= tokens.len(),
        },
{
    if at < tokens.len() {
        Some(&tokens[at].token)
    } else {
        None
    }
}

/// The token at index `at` with its place; past the last token, the end of
/// input.
pub fn holder_at(tokens: &[TokenHolder], at: usize) -> (holder: TokenHolder)
    ensures
        holder@ == token_at(models(tokens@), at as int),
{
    if at < tokens.len() {
        tokens[at].clone()
    } else {
        TokenHolder::new(Token::EOI, end_of(tokens), 0)
    }
}

/// The kind of the token at index `at`.
pub fn kind_at(tokens: &[TokenHolder], at: usize) -> (kind: TokenType)
    ensures
        kind == token_at(models(tokens@), at as int).token.token_type(),
        kind != TokenType::EOI ==> at < tokens.len(),
{
    if at < tokens.len() {
        tokens[at].token.token_type()
    } else {
        TokenType::EOI
    }
}

/// Whether `kind` is one of the kinds in `list`.
pub fn contains_kind(list: &[TokenType], kind: TokenType) -> (yes: bool)
    ensures
        yes == list@.contains(kind),
{
    let mut at: usize = 0;
    while at < list.len()
        invariant
            at <= list.len(),
            forall|j: int| 0 <= j < at ==> list@[j] != kind,
        decreases list.len() - at,
    {
        if list[at] == kind {
            return true;
        }
        at += 1;
    }
    false
}

/// The error that reports the token at index `at` under `rule`, where a
/// token of one of the kinds `expected` had to stand.
pub fn fail(tokens: &[TokenHolder], at: usize, expected: Vec<TokenType>, rule: Rule) -> (error:
    ParseError)
    ensures
        error@ == (ParseErrorModel {
            at: token_at(models(tokens@), at as int),
            expected: expected@,
            rule,
        }),
{
    ParseError { at: holder_at(tokens, at), expected, rule }
}

/// Passes the token at index `at` where it is of the kind `kind`.
pub fn expect(tokens: &[TokenHolder], at: usize, kind: TokenType) -> (outcome: Result<
    usize,
    ParseError,
>)
    requires
        kind != TokenType::EOI,
    ensures
        stepped(outcome) == spec_expect(models(tokens@), at as int, kind),
        outcome matches Ok(next) ==> at < tokens.len() && next == at + 1,
{
    if kind_at(tokens, at) == kind {
        Ok(at + 1)
    } else {
        let mut expected: Vec<TokenType> = Vec::new();
        expected.push(kind);
        assert(expected@ =~= seq![kind]);
        Err(fail(tokens, at, expected, Rule::Grammar))
    }
}

/// Reads the identifier at index `at`.
pub fn name_at(tokens: &[TokenHolder], at: usize) -> (outcome: Result<(String, usize), ParseError>)
    ensures
        parsed(outcome) == spec_name(models(tokens@), at as int),
        outcome matches Ok((_, next)) ==> at < tokens.len() && next == at + 1,
{
    match look(tokens, at) {
        Some(Token::Identifier(name)) => Ok((name.clone(), at + 1)),
        _ => {
            let mut expected: Vec<TokenType> = Vec::new();
            expected.push(TokenType::Identifier);
            assert(expected@ =~= seq![TokenType::Identifier]);
            Err(fail(tokens, at, expected, Rule::Grammar))
        },
    }
}

/// Reads the type at index `at`.
pub fn type_at(tokens: &[TokenHolder], at: usize) -> (outcome: Result<(EFSType, usize), ParseError>)
    ensures
        parsed(outcome) == spec_type(models(tokens@), at as int),
        outcome matches Ok((_, next)) ==> at < tokens.len() && next == at + 1,
{
    match look(tokens, at) {
        Some(Token::Keyword(Keyword::TypeName(name))) => Ok((name.to_type(), at + 1)),
        Some(Token::Identifier(name)) => Ok((EFSType::Struct(name.clone()), at + 1)),
        _ => {
            let mut expected: Vec<TokenType> = Vec::new();
            expected.push(TokenType::TypeName);
            expected.push(TokenType::Identifier);
            assert(expected@ =~= seq![TokenType::TypeName, TokenType::Identifier]);
            Err(fail(tokens, at, expected, Rule::Grammar))
        },
    }
}

} // verus!
