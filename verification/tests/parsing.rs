use efs_lib::parser::ast::{Declaration, Expression, Math, Program, Statement, Value};
use efs_lib::parser::lexer::{tokenize, LexError};
use efs_lib::parser::token::{ControlCharacter, Keyword, Operator, Token, TokenType};
use efs_lib::parser::types::{EFSType, EFSValueType};
use efs_lib::parser::{parse, ParseError, Parser, ParserItem, Rule, SourceError};

fn parse_error(source: &str) -> ParseError {
    match parse(source) {
        Err(SourceError::Parse(error)) => error,
        other => panic!("expected a parse error, got {:?}", other),
    }
}

fn program(source: &str) -> Vec<Declaration> {
    match parse(source) {
        Ok(Program(declarations)) => declarations,
        Err(error) => panic!("expected a program, got {:?}", error),
    }
}

fn constant_value(source: &str) -> Value {
    match program(source).pop() {
        Some(Declaration::ConstDec(assignment)) => assignment.var,
        other => panic!("expected a constant, got {:?}", other),
    }
}

fn number(value: &Value) -> i32 {
    match value {
        Value::Value(EFSValueType::Int(n)) => *n,
        other => panic!("expected an i32 literal, got {:?}", other),
    }
}

fn operation(value: &Value) -> &Math {
    match value {
        Value::Math(math) => math,
        other => panic!("expected an operation, got {:?}", other),
    }
}

#[test]
fn const_without_type_annotation_is_rejected() {
    let error = parse_error("const x = 5;");
    assert_eq!(error.rule, Rule::ConstTypeAnnotation);
    assert_eq!(error.at.start, 8);
    assert_eq!(error.at.length, 1);
    assert_eq!(error.at.token, Token::ControlCharacter(ControlCharacter::Assign));
    assert_eq!(
        error.expected,
        vec![TokenType::ControlCharacter(ControlCharacter::TypeClarify)]
    );
}

#[test]
fn const_with_type_annotation() {
    let mut declarations = program("const x: i32 = 5;");
    assert_eq!(declarations.len(), 1);
    match declarations.pop().unwrap() {
        Declaration::ConstDec(assignment) => {
            assert_eq!(assignment.name, "x");
            assert_eq!(assignment.var_type, Some(EFSType::Int));
            assert!(matches!(assignment.var, Value::Value(EFSValueType::Int(5))));
        }
        other => panic!("expected a constant, got {:?}", other),
    }
}

#[test]
fn import_with_string_operand() {
    let mut declarations = program("use \"lib/util.efs\";");
    assert_eq!(declarations.len(), 1);
    match declarations.pop().unwrap() {
        Declaration::UseFile(path) => assert_eq!(path, "lib/util.efs"),
        other => panic!("expected an import, got {:?}", other),
    }
}

#[test]
fn import_with_bare_path_operand() {
    let mut declarations = program("use lib/util.efs;");
    assert_eq!(declarations.len(), 1);
    match declarations.pop().unwrap() {
        Declaration::UseFile(path) => assert_eq!(path, "lib/util.efs"),
        other => panic!("expected an import, got {:?}", other),
    }
}

#[test]
fn bare_path_only_after_use() {
    let tokens = tokenize("use a.b; c.d").unwrap();
    let kinds: Vec<Token> = tokens.into_iter().map(|holder| holder.token).collect();
    assert_eq!(
        kinds,
        vec![
            Token::Keyword(Keyword::UseFile),
            Token::FilePath(String::from("a.b")),
            Token::ControlCharacter(ControlCharacter::EndOfLine),
            Token::Identifier(String::from("c")),
            Token::ControlCharacter(ControlCharacter::Dot),
            Token::Identifier(String::from("d")),
            Token::EOI,
        ]
    );
}

#[test]
fn empty_source_is_empty_program() {
    assert_eq!(program("").len(), 0);
    assert_eq!(program("  \n\t ").len(), 0);
}

#[test]
fn lex_error_is_surfaced_unchanged() {
    match parse("   $") {
        Err(SourceError::Lex(error)) => assert_eq!(error, LexError { at: 3, found: '$' }),
        other => panic!("expected a lex error, got {:?}", other),
    }
    match parse("const x: i32 = 5; @") {
        Err(SourceError::Lex(error)) => assert_eq!(error, LexError { at: 18, found: '@' }),
        other => panic!("expected a lex error, got {:?}", other),
    }
}

#[test]
fn multiplication_binds_tighter_than_addition() {
    let value = constant_value("const x: i32 = 2 + 3 * 4;");
    let sum = operation(&value);
    assert_eq!(sum.op, Operator::Plus);
    assert_eq!(number(&sum.left), 2);
    let product = operation(&sum.right);
    assert_eq!(product.op, Operator::Multi);
    assert_eq!(number(&product.left), 3);
    assert_eq!(number(&product.right), 4);
}

#[test]
fn equal_rank_groups_from_the_left() {
    let value = constant_value("const x: i32 = 10 - 4 - 3;");
    let outer = operation(&value);
    assert_eq!(outer.op, Operator::Minus);
    assert_eq!(number(&outer.right), 3);
    let inner = operation(&outer.left);
    assert_eq!(inner.op, Operator::Minus);
    assert_eq!(number(&inner.left), 10);
    assert_eq!(number(&inner.right), 4);
}

#[test]
fn ranks_from_tightest_to_loosest() {
    // a || b | c == d + e * f  groups as  a || (b | (c == (d + (e * f))))
    let value = constant_value("const x: bool = a || b | c == d + e * f;");
    let logical = operation(&value);
    assert_eq!(logical.op, Operator::LogicalOr);
    let bitwise = operation(&logical.right);
    assert_eq!(bitwise.op, Operator::Or);
    let comparison = operation(&bitwise.right);
    assert_eq!(comparison.op, Operator::Equal);
    let sum = operation(&comparison.right);
    assert_eq!(sum.op, Operator::Plus);
    let product = operation(&sum.right);
    assert_eq!(product.op, Operator::Multi);
}

#[test]
fn parentheses_override_ranks() {
    let value = constant_value("const x: i32 = (2 + 3) * 4;");
    let product = operation(&value);
    assert_eq!(product.op, Operator::Multi);
    assert_eq!(number(&product.right), 4);
    let sum = operation(&product.left);
    assert_eq!(sum.op, Operator::Plus);
}

#[test]
fn literals_take_the_width_of_the_annotation() {
    assert!(matches!(
        constant_value("const x: i8 = 5;"),
        Value::Value(EFSValueType::Byte(5))
    ));
    assert!(matches!(
        constant_value("const x: i16 = -5;"),
        Value::Value(EFSValueType::Short(-5))
    ));
    assert!(matches!(
        constant_value("const x: i64 = 5000000000;"),
        Value::Value(EFSValueType::Long(5000000000))
    ));
    assert!(matches!(
        constant_value("const x: num = 5;"),
        Value::Value(EFSValueType::Number(5))
    ));
    match constant_value("const x: f32 = 1.5;") {
        Value::Value(EFSValueType::Float(text)) => assert_eq!(text, "1.5"),
        other => panic!("expected a float, got {:?}", other),
    }
    match constant_value("const x: f64 = 1.5;") {
        Value::Value(EFSValueType::Double(text)) => assert_eq!(text, "1.5"),
        other => panic!("expected a double, got {:?}", other),
    }
    match constant_value("const x: string = \"hi\";") {
        Value::Value(EFSValueType::String(text)) => assert_eq!(text, "hi"),
        other => panic!("expected a string, got {:?}", other),
    }
    assert!(matches!(
        constant_value("const x: bool = true;"),
        Value::Value(EFSValueType::Bool(true))
    ));
    assert!(matches!(
        constant_value("const x: Point = None;"),
        Value::Value(EFSValueType::Nil)
    ));
}

#[test]
fn literal_out_of_range_is_rejected() {
    let error = parse_error("const x: i8 = 300;");
    assert_eq!(error.rule, Rule::LiteralRange);
    assert_eq!(error.at.start, 14);
    assert_eq!(error.at.token, Token::Integer(300));
    assert_eq!(error.expected, vec![TokenType::Integer]);
}

#[test]
fn unknown_declaration_expects_the_four_leading_keywords() {
    let error = parse_error("while");
    assert_eq!(error.rule, Rule::Grammar);
    assert_eq!(error.at.start, 0);
    assert_eq!(error.at.token, Token::Keyword(Keyword::While));
    assert_eq!(
        error.expected,
        vec![
            TokenType::Keyword(Keyword::Const),
            TokenType::Keyword(Keyword::UseFile),
            TokenType::Keyword(Keyword::Function),
            TokenType::Keyword(Keyword::Struct),
        ]
    );
}

#[test]
fn error_at_end_of_input() {
    let error = parse_error("const x: i32 = 5");
    assert_eq!(error.at.token, Token::EOI);
    assert_eq!(error.at.start, 16);
    assert_eq!(error.at.length, 0);
    assert_eq!(
        error.expected,
        vec![TokenType::ControlCharacter(ControlCharacter::EndOfLine)]
    );
}

#[test]
fn type_annotation_is_type_name_or_identifier() {
    let error = parse_error("const x: 5 = 5;");
    assert_eq!(error.at.start, 9);
    assert_eq!(error.expected, vec![TokenType::TypeName, TokenType::Identifier]);
    let mut declarations = program("const p: Point = origin;");
    match declarations.pop().unwrap() {
        Declaration::ConstDec(assignment) => {
            assert_eq!(assignment.var_type, Some(EFSType::Struct(String::from("Point"))));
            match assignment.var {
                Value::Identifier(name) => assert_eq!(name, "origin"),
                other => panic!("expected a name, got {:?}", other),
            }
        }
        other => panic!("expected a constant, got {:?}", other),
    }
}

#[test]
fn struct_definition_keeps_field_order() {
    let mut declarations = program("struct Point { x: i32, y: i32\n label: string, }");
    match declarations.pop().unwrap() {
        Declaration::StructDef(name, fields) => {
            assert_eq!(name, "Point");
            assert_eq!(
                fields,
                vec![
                    (String::from("x"), EFSType::Int),
                    (String::from("y"), EFSType::Int),
                    (String::from("label"), EFSType::String),
                ]
            );
        }
        other => panic!("expected a struct, got {:?}", other),
    }
}

#[test]
fn function_declaration() {
    let source = "#inline #tag(tick, \"load\") static fn add(a: i32, b: Point) -> i64 { \
                  let total: i64 = a + 1; total = total * 2; }";
    let mut declarations = program(source);
    assert_eq!(declarations.len(), 1);
    match declarations.pop().unwrap() {
        Declaration::FunctionDec {
            is_static,
            attributes,
            name,
            parameters,
            return_type,
            code_block,
        } => {
            assert!(is_static);
            assert_eq!(
                attributes,
                vec![
                    (String::from("inline"), vec![]),
                    (
                        String::from("tag"),
                        vec![String::from("tick"), String::from("load")]
                    ),
                ]
            );
            assert_eq!(name, "add");
            assert_eq!(
                parameters,
                vec![
                    (String::from("a"), EFSType::Int),
                    (String::from("b"), EFSType::Struct(String::from("Point"))),
                ]
            );
            assert_eq!(return_type, EFSType::Long);
            assert_eq!(code_block.0.len(), 2);
            match &code_block.0[0] {
                Statement::Expression(Expression::VarDec(name, Some(EFSType::Long), value)) => {
                    assert_eq!(name, "total");
                    assert_eq!(operation(value).op, Operator::Plus);
                    assert!(matches!(
                        operation(value).right,
                        Value::Value(EFSValueType::Long(1))
                    ));
                }
                other => panic!("expected a declaration, got {:?}", other),
            }
            match &code_block.0[1] {
                Statement::Expression(Expression::Assign(name, value)) => {
                    assert_eq!(name, "total");
                    assert_eq!(operation(value).op, Operator::Multi);
                }
                other => panic!("expected an assignment, got {:?}", other),
            }
        }
        other => panic!("expected a function, got {:?}", other),
    }
}

#[test]
fn function_without_return_type_returns_nothing() {
    let mut declarations = program("fn main() { }");
    match declarations.pop().unwrap() {
        Declaration::FunctionDec { is_static, attributes, parameters, return_type, code_block, .. } => {
            assert!(!is_static);
            assert!(attributes.is_empty());
            assert!(parameters.is_empty());
            assert_eq!(return_type, EFSType::Nil);
            assert!(code_block.0.is_empty());
        }
        other => panic!("expected a function, got {:?}", other),
    }
}

#[test]
fn statements_of_every_shape() {
    let source = "fn run() {
        for (let i = 0; i < 10; i = i + 1) { x = i; }
        for item in items { y = item; }
        static for k in 0, 8, 2 { z = k; }
        while running { if done { running = false; } }
    }";
    let mut declarations = program(source);
    let body = match declarations.pop().unwrap() {
        Declaration::FunctionDec { code_block, .. } => code_block.0,
        other => panic!("expected a function, got {:?}", other),
    };
    assert_eq!(body.len(), 4);
    match &body[0] {
        Statement::For(first, condition, step, block) => {
            assert!(matches!(first, Expression::VarDec(_, None, Value::Value(EFSValueType::Number(0)))));
            assert_eq!(operation(condition).op, Operator::Less);
            assert!(matches!(step, Expression::Assign(_, Value::Math(_))));
            assert_eq!(block.0.len(), 1);
        }
        other => panic!("expected a loop with three clauses, got {:?}", other),
    }
    match &body[1] {
        Statement::ForList(element, source, block) => {
            assert_eq!(element, "item");
            assert_eq!(source, "items");
            assert_eq!(block.0.len(), 1);
        }
        other => panic!("expected a loop over a collection, got {:?}", other),
    }
    match &body[2] {
        Statement::StaticFor(variable, start, end, step, block) => {
            assert_eq!(variable, "k");
            assert_eq!((*start, *end, *step), (0, 8, 2));
            assert_eq!(block.0.len(), 1);
        }
        other => panic!("expected an unrolled loop, got {:?}", other),
    }
    match &body[3] {
        Statement::While(condition, block) => {
            assert!(matches!(condition, Value::Identifier(_)));
            assert_eq!(block.0.len(), 1);
            assert!(matches!(&block.0[0], Statement::If(Value::Identifier(_), _)));
        }
        other => panic!("expected a while loop, got {:?}", other),
    }
}

#[test]
fn static_for_bounds_must_be_literal_integers() {
    let error = parse_error("fn run() { static for k in 0, n, 2 { } }");
    assert_eq!(error.at.token, Token::Identifier(String::from("n")));
    assert_eq!(error.expected, vec![TokenType::Integer]);
    assert_eq!(error.rule, Rule::Grammar);
    let error = parse_error("fn run() { static for k in 0, 4294967296, 2 { } }");
    assert_eq!(error.rule, Rule::LiteralRange);
}

#[test]
fn parsing_stops_at_the_first_error() {
    let error = parse_error("const a: i32 = ; const b = 1;");
    assert_eq!(error.at.start, 15);
    assert_eq!(error.rule, Rule::Grammar);
}

#[test]
fn several_declarations_in_order() {
    let declarations = program("use \"a.efs\"; const x: i32 = 1; struct S { } fn f() { }");
    assert_eq!(declarations.len(), 4);
    assert!(matches!(declarations[0], Declaration::UseFile(_)));
    assert!(matches!(declarations[1], Declaration::ConstDec(_)));
    assert!(matches!(declarations[2], Declaration::StructDef(_, _)));
    assert!(matches!(declarations[3], Declaration::FunctionDec { .. }));
}

#[test]
fn parser_item_reports_tokens_consumed() {
    let tokens = tokenize("use \"a.efs\"; const x: i32 = 1 + 2;").unwrap();
    let (first, count) = Declaration::parse(0, &tokens).unwrap();
    assert!(matches!(first, Declaration::UseFile(_)));
    assert_eq!(count, 3);
    let (second, count) = Declaration::parse(3, &tokens).unwrap();
    assert!(matches!(second, Declaration::ConstDec(_)));
    assert_eq!(count, 9);
    let (whole, count) = Program::parse(0, &tokens).unwrap();
    assert_eq!(whole.0.len(), 2);
    assert_eq!(count, 12);
}

#[test]
fn parser_eat_and_peek() {
    let mut parser = Parser::new(String::from("const x")).unwrap();
    assert!(parser.peek_is(TokenType::Keyword(Keyword::Const)));
    assert!(!parser.peek_is(TokenType::Identifier));
    let error = parser.eat(TokenType::Identifier).unwrap_err();
    assert_eq!(error.at.token, Token::Keyword(Keyword::Const));
    assert_eq!(error.expected, vec![TokenType::Identifier]);
    assert!(parser.peek_is(TokenType::Keyword(Keyword::Const)));
    let eaten = parser.eat(TokenType::Keyword(Keyword::Const)).unwrap();
    assert_eq!(eaten.start, 0);
    assert_eq!(eaten.length, 5);
    let eaten = parser.eat(TokenType::Identifier).unwrap();
    assert_eq!(eaten.token, Token::Identifier(String::from("x")));
    assert!(parser.peek_is(TokenType::EOI));
    let end = parser.eat(TokenType::EOI).unwrap();
    assert_eq!(end.start, 7);
    assert!(parser.peek_is(TokenType::EOI));
    assert_eq!(Parser::new(String::from("?")).err(), Some(LexError { at: 0, found: '?' }));
}

#[test]
fn struct_field_names_are_distinct() {
    let error = parse_error("struct P { x: i32, y: i32, x: i64 }");
    assert_eq!(error.rule, Rule::DuplicateName);
    assert_eq!(error.at.start, 27);
    assert_eq!(error.at.token, Token::Identifier(String::from("x")));
    assert_eq!(error.expected, vec![TokenType::Identifier]);
    assert_eq!(
        error.to_string(),
        "parse error at 27: found x; expected identifier (name is already taken)"
    );
}

#[test]
fn attribute_names_are_distinct() {
    let error = parse_error("#a #b(x) #a(y) fn f() { }");
    assert_eq!(error.rule, Rule::DuplicateName);
    assert_eq!(error.at.start, 10);
    assert_eq!(error.at.token, Token::Identifier(String::from("a")));
    assert_eq!(program("#a #b(x) fn f(a: i32, b: i32) { }").len(), 1);
}

#[test]
fn struct_fields_need_no_commas() {
    let mut declarations = program("struct P {\n x: i32\n y: Q\n}");
    match declarations.pop().unwrap() {
        Declaration::StructDef(_, fields) => assert_eq!(
            fields,
            vec![
                (String::from("x"), EFSType::Int),
                (String::from("y"), EFSType::Struct(String::from("Q"))),
            ]
        ),
        other => panic!("expected a struct, got {:?}", other),
    }
    let error = parse_error("struct P { x: i32 ; }");
    assert_eq!(
        error.expected,
        vec![
            TokenType::ControlCharacter(ControlCharacter::RBrace),
            TokenType::Identifier
        ]
    );
}

#[test]
fn parameters_need_commas() {
    let error = parse_error("fn f(a: i32 b: i32) { }");
    assert_eq!(error.at.start, 12);
    assert_eq!(
        error.expected,
        vec![
            TokenType::ControlCharacter(ControlCharacter::Comma),
            TokenType::ControlCharacter(ControlCharacter::RightParen)
        ]
    );
    let error = parse_error("fn f(a: i32,) { }");
    assert_eq!(error.expected, vec![TokenType::Identifier]);
    let error = parse_error("fn f(1) { }");
    assert_eq!(
        error.expected,
        vec![
            TokenType::ControlCharacter(ControlCharacter::RightParen),
            TokenType::Identifier
        ]
    );
}

#[test]
fn block_reports_what_can_follow() {
    let error = parse_error("fn f() { 5 }");
    assert_eq!(error.at.start, 9);
    assert_eq!(
        error.to_string(),
        "parse error at 9: found 5; expected }, for, static, while, if, let, or identifier"
    );
    let error = parse_error("fn f() { for 3 }");
    assert_eq!(
        error.expected,
        vec![
            TokenType::ControlCharacter(ControlCharacter::LeftParen),
            TokenType::Identifier
        ]
    );
    let error = parse_error("fn f() { let x 3; }");
    assert_eq!(
        error.expected,
        vec![
            TokenType::ControlCharacter(ControlCharacter::TypeClarify),
            TokenType::ControlCharacter(ControlCharacter::Assign)
        ]
    );
    let error = parse_error("fn f() { x = ; }");
    assert_eq!(error.expected.len(), 8);
    assert_eq!(error.expected[0], TokenType::Integer);
    assert_eq!(
        error.expected[7],
        TokenType::ControlCharacter(ControlCharacter::LeftParen)
    );
}

#[test]
fn import_operand_must_be_string_or_path() {
    let error = parse_error("use ;");
    assert_eq!(error.at.start, 4);
    assert_eq!(error.expected, vec![TokenType::String, TokenType::FilePath]);
    let error = parse_error("use \"a.efs\"");
    assert_eq!(error.at.token, Token::EOI);
    assert_eq!(error.at.start, 11);
}

#[test]
fn untyped_literals_default_to_number_or_long() {
    let body = match program("fn f() { let a = 1; let b = 5000000000; let c = 1.5; }").pop() {
        Some(Declaration::FunctionDec { code_block, .. }) => code_block.0,
        other => panic!("expected a function, got {:?}", other),
    };
    assert!(matches!(
        &body[0],
        Statement::Expression(Expression::VarDec(_, None, Value::Value(EFSValueType::Number(1))))
    ));
    assert!(matches!(
        &body[1],
        Statement::Expression(Expression::VarDec(
            _,
            None,
            Value::Value(EFSValueType::Long(5000000000))
        ))
    ));
    assert!(matches!(
        &body[2],
        Statement::Expression(Expression::VarDec(_, None, Value::Value(EFSValueType::Double(_))))
    ));
}
