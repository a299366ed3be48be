use efs_lib::parser::lexer::{tokenize, LexError};
use efs_lib::parser::render::{append_decimal, append_integer, append_kinds};
use efs_lib::parser::token::{ControlCharacter, Keyword, Operator, Token, TokenHolder, TokenType};
use efs_lib::parser::{parse, ParseError, Rule, SourceError};

fn parse_error(source: &str) -> ParseError {
    match parse(source) {
        Err(SourceError::Parse(error)) => error,
        other => panic!("expected a parse error, got {:?}", other),
    }
}

#[test]
fn lex_error_message() {
    assert_eq!(
        tokenize("   $").unwrap_err().to_string(),
        "lexer error at 3: unexpected character '$'"
    );
    assert_eq!(
        LexError { at: 120, found: '@' }.to_string(),
        "lexer error at 120: unexpected character '@'"
    );
}

#[test]
fn const_without_type_message_cites_the_rule() {
    assert_eq!(
        parse_error("const x = 5;").to_string(),
        "parse error at 8: found =; expected : (const requires a type annotation)"
    );
}

#[test]
fn message_with_one_expected_kind() {
    assert_eq!(
        parse_error("const x: i32 = 5").to_string(),
        "parse error at 16: found end of input; expected ;"
    );
}

#[test]
fn message_with_two_expected_kinds() {
    assert_eq!(
        parse_error("const x: \"i32\" = 5;").to_string(),
        "parse error at 9: found \"i32\"; expected type name, or identifier"
    );
}

#[test]
fn message_with_four_expected_kinds() {
    assert_eq!(
        parse_error("while").to_string(),
        "parse error at 0: found while; expected const, use, fn, or struct"
    );
}

#[test]
fn message_for_literal_out_of_range() {
    assert_eq!(
        parse_error("const x: i8 = -300;").to_string(),
        "parse error at 14: found -300; expected integer (integer literal out of range for its type)"
    );
}

#[test]
fn message_shows_each_token_form() {
    let show = |token: Token| {
        ParseError {
            at: TokenHolder::new(token, 7, 1),
            expected: vec![TokenType::Operator(Operator::LessOrEqual)],
            rule: Rule::Grammar,
        }
        .to_string()
    };
    assert_eq!(
        show(Token::Identifier(String::from("abc"))),
        "parse error at 7: found abc; expected <="
    );
    assert_eq!(
        show(Token::Integer(i64::MIN)),
        "parse error at 7: found -9223372036854775808; expected <="
    );
    assert_eq!(show(Token::Integer(0)), "parse error at 7: found 0; expected <=");
    assert_eq!(
        show(Token::Float(String::from("-1.25"))),
        "parse error at 7: found -1.25; expected <="
    );
    assert_eq!(
        show(Token::FilePath(String::from("a/b.efs"))),
        "parse error at 7: found a/b.efs; expected <="
    );
    assert_eq!(
        show(Token::Operator(Operator::LogicalAnd)),
        "parse error at 7: found &&; expected <="
    );
    assert_eq!(
        show(Token::ControlCharacter(ControlCharacter::Scope)),
        "parse error at 7: found ::; expected <="
    );
    assert_eq!(
        show(Token::Keyword(Keyword::Nil)),
        "parse error at 7: found None; expected <="
    );
}

#[test]
fn kinds_are_joined_with_commas_and_or() {
    let join = |kinds: &[TokenType]| {
        let mut text = String::from(">");
        append_kinds(&mut text, kinds);
        text
    };
    assert_eq!(join(&[]), ">");
    assert_eq!(join(&[TokenType::Integer]), ">integer");
    assert_eq!(join(&[TokenType::Integer, TokenType::Float]), ">integer, or float");
    assert_eq!(
        join(&[TokenType::Integer, TokenType::Float, TokenType::String]),
        ">integer, float, or string"
    );
    assert_eq!(
        join(&[
            TokenType::FilePath,
            TokenType::EOI,
            TokenType::TypeName,
            TokenType::Identifier,
            TokenType::Keyword(Keyword::VarDeceleration),
        ]),
        ">path, end of input, type name, identifier, or let"
    );
}

#[test]
fn decimal_rendering() {
    let decimal = |number: u64| {
        let mut text = String::new();
        append_decimal(&mut text, number);
        text
    };
    assert_eq!(decimal(0), "0");
    assert_eq!(decimal(9), "9");
    assert_eq!(decimal(10), "10");
    assert_eq!(decimal(1234567890), "1234567890");
    assert_eq!(decimal(u64::MAX), "18446744073709551615");
    let integer = |number: i64| {
        let mut text = String::new();
        append_integer(&mut text, number);
        text
    };
    assert_eq!(integer(-1), "-1");
    assert_eq!(integer(i64::MAX), "9223372036854775807");
    assert_eq!(integer(i64::MIN), "-9223372036854775808");
}
