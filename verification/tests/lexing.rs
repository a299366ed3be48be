use efs_lib::parser::lexer::{tokenize, LexError, Lexer};
use efs_lib::parser::token::{ControlCharacter, Keyword, Operator, Token, TokenType, TypeName};

fn kinds_of(source: &str) -> Vec<Token> {
    tokenize(source).unwrap().into_iter().map(|holder| holder.token).collect()
}

#[test]
fn token() {
    let text = String::from("i8");
    let mut lex = Lexer::new(text);

    assert_eq!(
        lex.next_token().unwrap().token,
        Token::Keyword(Keyword::TypeName(TypeName::Byte))
    )
}

#[test]
fn longer_identifier_beats_keyword() {
    let tokens = tokenize("forest").unwrap();
    assert_eq!(tokens.len(), 2);
    assert_eq!(tokens[0].token, Token::Identifier(String::from("forest")));
    assert_eq!(tokens[0].start, 0);
    assert_eq!(tokens[0].length, 6);
    assert_eq!(tokens[1].token, Token::EOI);
    assert_eq!(tokens[1].start, 6);
    assert_eq!(tokens[1].length, 0);
}

#[test]
fn keyword_wins_tie_with_identifier() {
    let tokens = tokenize("for ").unwrap();
    assert_eq!(tokens[0].token, Token::Keyword(Keyword::For));
    assert_eq!(tokens[0].length, 3);
    assert_eq!(tokens[1].token, Token::EOI);
    assert_eq!(tokens[1].start, 4);
}

#[test]
fn operator_maximal_munch() {
    assert_eq!(
        kinds_of(">="),
        vec![Token::Operator(Operator::GreaterOrEqual), Token::EOI]
    );
    assert_eq!(
        kinds_of("::"),
        vec![Token::ControlCharacter(ControlCharacter::Scope), Token::EOI]
    );
    assert_eq!(
        kinds_of("->"),
        vec![Token::ControlCharacter(ControlCharacter::FunctionReturn), Token::EOI]
    );
}

#[test]
fn unrecognized_character_after_whitespace() {
    assert_eq!(tokenize("   $").unwrap_err(), LexError { at: 3, found: '$' });
}

#[test]
fn numbers() {
    assert_eq!(kinds_of("42"), vec![Token::Integer(42), Token::EOI]);
    assert_eq!(kinds_of("-7"), vec![Token::Integer(-7), Token::EOI]);
    assert_eq!(kinds_of("1.5"), vec![Token::Float(String::from("1.5")), Token::EOI]);
    assert_eq!(
        kinds_of("2."),
        vec![Token::Integer(2), Token::ControlCharacter(ControlCharacter::Dot), Token::EOI]
    );
    assert_eq!(
        kinds_of("-9223372036854775808"),
        vec![Token::Integer(i64::MIN), Token::EOI]
    );
    assert_eq!(
        kinds_of("9223372036854775807"),
        vec![Token::Integer(i64::MAX), Token::EOI]
    );
    assert_eq!(
        tokenize("9223372036854775808").unwrap_err(),
        LexError { at: 0, found: '9' }
    );
}

#[test]
fn kind_of_type_name() {
    assert_eq!(
        Token::Keyword(Keyword::TypeName(TypeName::Int)).token_type(),
        TokenType::TypeName
    );
    assert_eq!(
        Token::Keyword(Keyword::If).token_type(),
        TokenType::Keyword(Keyword::If)
    );
}

#[test]
fn lexer() {
    let text = String::from(
        "i8
            const val: string = \"hello world\";

            fn test(x: int) {
                let x: float = 2.;
                x = 5. + x;
                say(test);
            }
        ",
    );

    let mut lex = Lexer::new(text);
    let mut failed = false;
    let mut count = 0;
    loop {
        match lex.next_token() {
            Ok(token) => {
                println!("{:?}", token);
                count += 1;
                if token.token.token_type() == TokenType::EOI {
                    break;
                }
            }
            Err(pos) => {
                println!("unknown at {}", pos.to_string());
                failed = true;
                break;
            }
        }
    }

    assert!(!failed);
    assert_eq!(count, 38);
}
