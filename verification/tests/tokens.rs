use efs_lib::config::Config;
use efs_lib::parser::lexer::{characters, tokenize, LexError, Lexer};
use efs_lib::parser::scan::{scan, CharClass};
use efs_lib::parser::token::{
    parse_symbol, stands_at_start, text_of, ControlCharacter, Keyword, LexerType, Operator,
    Token, TokenHolder, TokenType, TypeName,
};
use efs_lib::parser::types::EFSType;
use efs_lib::project::Project;

fn chars(text: &str) -> Vec<char> {
    text.chars().collect()
}

fn only_token(source: &str) -> Token {
    let mut tokens = tokenize(source).unwrap();
    assert_eq!(tokens.len(), 2, "{:?}", source);
    assert_eq!(tokens[0].start, 0);
    assert_eq!(tokens[0].length, source.chars().count());
    assert_eq!(tokens[1].token, Token::EOI);
    assert_eq!(tokens[1].start, source.chars().count());
    assert_eq!(tokens[1].length, 0);
    tokens.swap_remove(0).token
}

#[test]
fn every_keyword_round_trips() {
    let all = Keyword::all();
    assert_eq!(all.len(), 27);
    for word in all {
        assert_eq!(only_token(word.spelling()), Token::Keyword(word));
        assert_eq!(word.to_string(), word.spelling());
    }
}

#[test]
fn every_punctuation_symbol_round_trips() {
    let all = ControlCharacter::all();
    assert_eq!(all.len(), 14);
    for symbol in all {
        assert_eq!(only_token(symbol.spelling()), Token::ControlCharacter(symbol));
        assert_eq!(symbol.to_string(), symbol.spelling());
    }
}

#[test]
fn every_operator_round_trips() {
    let all = Operator::all();
    assert_eq!(all.len(), 15);
    for operator in all {
        assert_eq!(only_token(operator.spelling()), Token::Operator(operator));
        assert_eq!(operator.to_string(), operator.spelling());
    }
}

#[test]
fn spellings_are_the_fixed_tables() {
    let words: Vec<&str> = Keyword::all().iter().map(|word| word.spelling()).collect();
    assert_eq!(
        words,
        vec![
            "static", "fn", "for", "while", "const", "let", "use", "if", "struct", "in", "true",
            "false", "None", "num", "i8", "i16", "i32", "i64", "f32", "f64", "string", "bool",
            "Dict", "NBTi8Array", "NBTi32Array", "NBTi64Array", "_",
        ]
    );
    let symbols: Vec<&str> = ControlCharacter::all().iter().map(|symbol| symbol.spelling()).collect();
    assert_eq!(
        symbols,
        vec![";", "#", ",", "->", ":", ".", "::", "(", ")", "[", "]", "{", "}", "="]
    );
    let operators: Vec<&str> = Operator::all().iter().map(|operator| operator.spelling()).collect();
    assert_eq!(
        operators,
        vec!["+", "-", "*", "/", "==", "!=", "<", "<=", ">", ">=", "||", "&&", "|", "&", "^"]
    );
    let names: Vec<String> = TypeName::all().iter().map(|name| name.to_string()).collect();
    assert_eq!(names.len(), 14);
    assert_eq!(names[1], "i8");
}

#[test]
fn spelling_is_exact_about_case() {
    assert_eq!(only_token("For"), Token::Identifier(String::from("For")));
    assert_eq!(only_token("none"), Token::Identifier(String::from("none")));
    assert_eq!(only_token("None"), Token::Keyword(Keyword::Nil));
    assert_eq!(only_token("dict"), Token::Identifier(String::from("dict")));
}

#[test]
fn symbol_match_takes_the_longest() {
    assert_eq!(
        Operator::parse(&chars("<=3")),
        Some((Operator::LessOrEqual, 2))
    );
    assert_eq!(Operator::parse(&chars("<3")), Some((Operator::Less, 1)));
    assert_eq!(Operator::parse(&chars("x")), None);
    assert_eq!(Operator::parse(&chars("")), None);
    assert_eq!(
        ControlCharacter::parse(&chars("::a")),
        Some((ControlCharacter::Scope, 2))
    );
    assert_eq!(
        ControlCharacter::parse(&chars(":a")),
        Some((ControlCharacter::TypeClarify, 1))
    );
    assert_eq!(Keyword::parse(&chars("forest")), Some((Keyword::For, 3)));
    assert_eq!(
        Keyword::parse(&chars("i16")),
        Some((Keyword::TypeName(TypeName::Short), 3))
    );
    assert_eq!(
        parse_symbol::<TypeName>(&chars("NBTi64Array;")),
        Some((TypeName::NBTLongArray, 11))
    );
    assert!(stands_at_start(&chars("struct S"), "struct"));
    assert!(!stands_at_start(&chars("stru"), "struct"));
    assert!(stands_at_start(&chars("abc"), ""));
}

#[test]
fn token_at_start_of_remaining_source() {
    assert_eq!(Token::parse(&chars("")), Some((Token::EOI, 0)));
    assert_eq!(Token::parse(&chars("$")), None);
    assert_eq!(
        Token::parse(&chars("forest for")),
        Some((Token::Identifier(String::from("forest")), 6))
    );
    assert_eq!(
        Token::parse(&chars("a/b")),
        Some((Token::Identifier(String::from("a")), 1))
    );
    assert_eq!(
        Token::parse_operand(&chars("a/b;")),
        Some((Token::FilePath(String::from("a/b")), 3))
    );
    assert_eq!(
        Token::parse_operand(&chars("\"a b\";")),
        Some((Token::String(String::from("a b")), 5))
    );
    assert_eq!(Token::parse_operand(&chars("")), Some((Token::EOI, 0)));
    assert_eq!(
        Token::parse_path(&chars("lib/util.efs;")),
        Some((Token::FilePath(String::from("lib/util.efs")), 12))
    );
    assert_eq!(Token::parse_path(&chars(";")), None);
    assert_eq!(
        Token::parse_identifier(&chars("_a1-")),
        Some((Token::Identifier(String::from("_a1")), 3))
    );
    assert_eq!(Token::parse_identifier(&chars("1a")), None);
    assert_eq!(
        Token::parse_number(&chars("-12.50x")),
        Some((Token::Float(String::from("-12.50")), 6))
    );
    assert_eq!(Token::parse_number(&chars("-")), None);
    assert_eq!(Token::parse_number(&chars(".5")), None);
    assert_eq!(Token::parse_number(&chars("007")), Some((Token::Integer(7), 3)));
    assert_eq!(
        Token::parse_number(&chars("99999999999999999999")),
        None
    );
    assert_eq!(
        Token::parse_number(&chars("99999999999999999999.0")),
        Some((Token::Float(String::from("99999999999999999999.0")), 22))
    );
}

#[test]
fn string_literals_have_no_escapes() {
    assert_eq!(
        Token::parse_string(&chars("\"a\\\"b\"")),
        Some((Token::String(String::from("a\\")), 4))
    );
    assert_eq!(Token::parse_string(&chars("\"\"")), Some((Token::String(String::new()), 2)));
    assert_eq!(Token::parse_string(&chars("\"open")), None);
    assert_eq!(tokenize("\"open").unwrap_err(), LexError { at: 0, found: '"' });
}

#[test]
fn identifiers_are_ascii() {
    assert_eq!(tokenize("caf\u{e9}").unwrap_err(), LexError { at: 3, found: '\u{e9}' });
}

#[test]
fn unicode_white_space_is_skipped() {
    let tokens = tokenize("\u{a0}\u{2003}x\u{3000}\t\r\n").unwrap();
    assert_eq!(tokens.len(), 2);
    assert_eq!(tokens[0].token, Token::Identifier(String::from("x")));
    assert_eq!(tokens[0].start, 2);
    assert_eq!(tokens[1].start, 7);
    assert_eq!(scan(&chars("  \u{200b}"), 0, CharClass::Whitespace), 2);
    assert!(CharClass::Digit.contains('7'));
    assert!(!CharClass::Digit.contains('a'));
    assert!(CharClass::PathPart.contains('/'));
    assert!(!CharClass::IdentifierPart.contains('/'));
    assert!(!CharClass::StringBody.contains('"'));
}

#[test]
fn positions_count_characters() {
    let tokens = tokenize("\"\u{e9}\u{e9}\" x").unwrap();
    assert_eq!(tokens[0].start, 0);
    assert_eq!(tokens[0].length, 4);
    assert_eq!(tokens[1].start, 5);
    assert_eq!(characters("a\u{e9}b"), vec!['a', '\u{e9}', 'b']);
    assert_eq!(text_of(&chars("hello"), 1, 4), "ell");
    assert_eq!(text_of(&chars("hello"), 2, 2), "");
}

#[test]
fn lexer_advances_until_end_of_input() {
    let mut lexer = Lexer::new(String::from("a b"));
    assert_eq!(lexer.position(), 0);
    let first = lexer.next_token().unwrap();
    assert_eq!((first.start, first.length), (0, 1));
    assert_eq!(lexer.position(), 1);
    let second = lexer.next_token().unwrap();
    assert_eq!((second.start, second.length), (2, 1));
    assert_eq!(lexer.position(), 3);
    let end = lexer.next_token().unwrap();
    assert_eq!(end.token, Token::EOI);
    assert_eq!((end.start, end.length), (3, 0));
    let again = lexer.next_token().unwrap();
    assert_eq!(again.token, Token::EOI);
    assert_eq!(lexer.position(), 3);
    let mut failing = Lexer::new(String::from("a ?"));
    assert!(failing.next_token().is_ok());
    assert_eq!(failing.next_token().unwrap_err(), LexError { at: 2, found: '?' });
    assert_eq!(failing.position(), 2);
}

#[test]
fn precedence_table() {
    let numbers: Vec<u8> = Operator::all().iter().map(|operator| operator.precedence()).collect();
    assert_eq!(numbers, vec![6, 6, 5, 5, 2, 2, 2, 2, 2, 2, 3, 3, 4, 4, 4]);
    let ranks: Vec<u8> = Operator::all().iter().map(|operator| operator.binding()).collect();
    assert_eq!(ranks, vec![4, 4, 5, 5, 3, 3, 3, 3, 3, 3, 1, 1, 2, 2, 2]);
}

#[test]
fn type_names_map_to_types() {
    let types: Vec<EFSType> = TypeName::all().iter().map(|name| name.to_type()).collect();
    assert_eq!(
        types,
        vec![
            EFSType::Number,
            EFSType::Byte,
            EFSType::Short,
            EFSType::Int,
            EFSType::Long,
            EFSType::Float,
            EFSType::Double,
            EFSType::String,
            EFSType::Bool,
            EFSType::Dict,
            EFSType::NBTByteArray,
            EFSType::NBTIntArray,
            EFSType::NBTLongArray,
            EFSType::Nil,
        ]
    );
}

#[test]
fn types_compare_by_shape_and_name() {
    let list = EFSType::List(Box::new(EFSType::Struct(String::from("P"))));
    assert_eq!(list.clone(), list);
    assert!(list.same(&list.duplicate()));
    assert_ne!(list, EFSType::List(Box::new(EFSType::Struct(String::from("Q")))));
    assert_ne!(list, EFSType::List(Box::new(EFSType::Int)));
    assert_ne!(EFSType::Int, EFSType::Number);
}

#[test]
fn token_kind_tests() {
    let holder = TokenHolder::new(Token::Identifier(String::from("x")), 4, 1);
    assert!(holder.token.is(TokenType::Identifier));
    assert!(!holder.token.is(TokenType::Integer));
    assert!(holder.token.is_many(&[TokenType::Integer, TokenType::Identifier]));
    assert!(!holder.token.is_many(&[]));
    assert_eq!(holder.is(TokenType::Identifier).unwrap().start, 4);
    let error = holder.is(TokenType::Integer).unwrap_err();
    assert_eq!(error.at.start, 4);
    assert_eq!(error.at.token, Token::Identifier(String::from("x")));
    assert_eq!(error.expected, vec![TokenType::Integer]);
    let kinds = [TokenType::Float, TokenType::String];
    let error = holder.is_many(&kinds).unwrap_err();
    assert_eq!(error.expected, vec![TokenType::Float, TokenType::String]);
    assert!(holder.is_many(&[TokenType::Float, TokenType::Identifier]).is_ok());
    assert!(TokenHolder::is_or_eoi(Some(&holder), TokenType::Identifier, 9).is_ok());
    let error = TokenHolder::is_or_eoi(None, TokenType::Identifier, 9).unwrap_err();
    assert_eq!(error.at.token, Token::EOI);
    assert_eq!((error.at.start, error.at.length), (9, 0));
    assert_eq!(error.expected, vec![TokenType::Identifier]);
    let error = TokenHolder::is_many_or_eoi(None, &kinds, 11).unwrap_err();
    assert_eq!(error.at.token, Token::EOI);
    assert_eq!(error.at.start, 11);
    assert_eq!(error.expected, vec![TokenType::Float, TokenType::String]);
    assert!(TokenHolder::is_many_or_eoi(Some(&holder), &kinds, 11).is_err());
}

#[test]
fn new_config() {
    let config = Config::new(String::from("demo"));
    assert_eq!(config.name, "demo");
    assert_eq!(config.version, "0.1.0");
    assert!(config.targets.is_empty());
    assert_eq!(config.datapack_format, "");
    assert_eq!(config.command_format, "");
}

#[test]
fn project_paths() {
    assert_eq!(Project::config_file(), "efs-config.toml");
    assert_eq!(Project::source_pattern("/work/demo"), "/work/demo/src/**/*.efs");
    let project = Project::assemble(
        Config::new(String::from("demo")),
        vec![(String::from("src/a.efs"), String::from("const x: i32 = 1;"))],
    );
    assert_eq!(project.config.name, "demo");
    assert_eq!(project.files.len(), 1);
}

#[test]
fn project_files_are_keyed_by_path() {
    let mut project = Project::assemble(
        Config::new(String::from("demo")),
        vec![
            (String::from("src/a.efs"), String::from("first")),
            (String::from("src/b.efs"), String::from("second")),
            (String::from("src/a.efs"), String::from("third")),
        ],
    );
    assert_eq!(
        project.files,
        vec![
            (String::from("src/a.efs"), String::from("third")),
            (String::from("src/b.efs"), String::from("second")),
        ]
    );
    assert_eq!(project.find_file(&String::from("src/b.efs")), Some(1));
    assert_eq!(project.find_file(&String::from("src/c.efs")), None);
    project.add_file(String::from("src/c.efs"), String::from("fourth"));
    project.add_file(String::from("src/b.efs"), String::from("fifth"));
    assert_eq!(
        project.files,
        vec![
            (String::from("src/a.efs"), String::from("third")),
            (String::from("src/b.efs"), String::from("fifth")),
            (String::from("src/c.efs"), String::from("fourth")),
        ]
    );
}
