use vstd::prelude::*;

use super::cursor::{contains_kind, expect, fail, kind_at, look, name_at, parsed, type_at};
use super::grammar::{
    block_continues, declaration_starts, float_literal, has_name, integer_literal, lemma_binding_advances,
    lemma_block_advances, lemma_expression_advances, lemma_for_head_advances, lemma_head_advances,
    lemma_operand_advances, lemma_statement_advances, spec_arguments, spec_attributes,
    spec_binary, spec_binding, spec_block, spec_bound, spec_climb, spec_const, spec_declaration,
    spec_expression, spec_fields, spec_for_head, spec_function, spec_head, spec_import,
    spec_operand, spec_parameters, spec_program, spec_return_type, spec_statement,
    spec_statements, spec_static_head, spec_struct, spec_value, statement_starts, value_starts,
    taken, token_at, with_body,
};
use super::lexer::models;
use super::token::{ControlCharacter, Keyword, Operator, Positioned, Token, TokenHolder, TokenType};
use super::types::{EFSType, EFSValueType, LiteralModel, TypeModel};
use super::{ParseError, ParseErrorModel, ParserItem, Rule};

verus! {

/// A value: a literal, a name, or a tree of binary operations over values.
#[derive(Debug)]
pub enum Value {
    Value(EFSValueType),
    Math(Box<Math>),
    Identifier(String),
    List(Vec<Value>),
    Dict(Vec<(String, Value)>),
    Struct(Vec<(String, Value)>),
}

/// One binary operation: an operator between two values.
#[derive(Debug)]
pub struct Math {
    pub left: Value,
    pub op: Operator,
    pub right: Value,
}

/// The mathematical model of a [`Value`]. A binary operation is the variant
/// `Math` with its left operand, its operator and its right operand.
pub ghost enum ValueModel {
    Value(LiteralModel),
    Math(Box<ValueModel>, Operator, Box<ValueModel>),
    Identifier(Seq<char>),
    List(Seq<ValueModel>),
    Dict(Seq<(Seq<char>, ValueModel)>),
    Struct(Seq<(Seq<char>, ValueModel)>),
}

impl Value {
    /// The model of this value, by recursion on its shape.
    pub open spec fn model(&self) -> ValueModel
        decreases self,
    {
        match self {
            Value::Value(literal) => ValueModel::Value(literal@),
            Value::Math(math) => ValueModel::Math(
                Box::new(math.left.model()),
                math.op,
                Box::new(math.right.model()),
            ),
            Value::Identifier(name) => ValueModel::Identifier(name@),
            Value::List(items) => ValueModel::List(
                Seq::new(
                    items.len() as nat,
                    |i: int|
                        if 0 <= i < items.len() {
                            items[i].model()
                        } else {
                            ValueModel::List(Seq::empty())
                        },
                ),
            ),
            Value::Dict(entries) => ValueModel::Dict(
                Seq::new(
                    entries.len() as nat,
                    |i: int|
                        if 0 <= i < entries.len() {
                            (entries[i].0@, entries[i].1.model())
                        } else {
                            (Seq::empty(), ValueModel::List(Seq::empty()))
                        },
                ),
            ),
            Value::Struct(fields) => ValueModel::Struct(
                Seq::new(
                    fields.len() as nat,
                    |i: int|
                        if 0 <= i < fields.len() {
                            (fields[i].0@, fields[i].1.model())
                        } else {
                            (Seq::empty(), ValueModel::List(Seq::empty()))
                        },
                ),
            ),
        }
    }
}

impl Math {
    /// The model of this operation.
    pub open spec fn model(&self) -> ValueModel {
        ValueModel::Math(Box::new(self.left.model()), self.op, Box::new(self.right.model()))
    }
}

impl View for Value {
    type V = ValueModel;

    open spec fn view(&self) -> ValueModel {
        self.model()
    }
}

impl View for Math {
    type V = ValueModel;

    open spec fn view(&self) -> ValueModel {
        self.model()
    }
}

/// An expression: the declaration of a variable, with or without a type
/// annotation, or an assignment to a name.
#[derive(Debug)]
pub enum Expression {
    VarDec(String, Option<EFSType>, Value),
    Assign(String, Value),
}

/// The mathematical model of an [`Expression`].
pub ghost enum ExpressionModel {
    VarDec(Seq<char>, Option<TypeModel>, ValueModel),
    Assign(Seq<char>, ValueModel),
}

/// The model of an optional type annotation.
pub open spec fn annotation_model(annotation: Option<EFSType>) -> Option<TypeModel> {
    match annotation {
        Some(ty) => Some(ty@),
        None => None,
    }
}

impl View for Expression {
    type V = ExpressionModel;

    open spec fn view(&self) -> ExpressionModel {
        match self {
            Expression::VarDec(name, annotation, value) => ExpressionModel::VarDec(
                name@,
                annotation_model(*annotation),
                value@,
            ),
            Expression::Assign(name, value) => ExpressionModel::Assign(name@, value@),
        }
    }
}

/// A block of code: statements in the order in which they are written.
#[derive(Debug)]
pub struct CodeBlock(pub Vec<Statement>);

/// A statement. Every loop and conditional owns the block that is its body.
#[derive(Debug)]
pub enum Statement {
    /// The loop with three clauses: what is done first, the condition under
    /// which the body runs, and what is done after each run.
    For(Expression, Value, Expression, CodeBlock),
    /// The loop over a named collection: the name of the element, then the
    /// name of the collection.
    ForList(String, String, CodeBlock),
    /// The loop whose bounds are literal integers: the name of the variable,
    /// then where it starts, where it ends and by how much it steps.
    StaticFor(String, i32, i32, i32, CodeBlock),
    While(Value, CodeBlock),
    If(Value, CodeBlock),
    Expression(Expression),
}

/// What stands before the block of a statement that owns one, as a
/// mathematical value.
pub ghost enum HeadModel {
    For(ExpressionModel, ValueModel, ExpressionModel),
    ForList(Seq<char>, Seq<char>),
    StaticFor(Seq<char>, i32, i32, i32),
    While(ValueModel),
    If(ValueModel),
}

/// The mathematical model of a [`Statement`]; a block is the sequence of its
/// statements.
pub ghost enum StatementModel {
    For(ExpressionModel, ValueModel, ExpressionModel, Seq<StatementModel>),
    ForList(Seq<char>, Seq<char>, Seq<StatementModel>),
    StaticFor(Seq<char>, i32, i32, i32, Seq<StatementModel>),
    While(ValueModel, Seq<StatementModel>),
    If(ValueModel, Seq<StatementModel>),
    Expression(ExpressionModel),
}

impl CodeBlock {
    /// The model of this block, by recursion on its shape.
    pub open spec fn model(&self) -> Seq<StatementModel>
        decreases self,
    {
        Seq::new(
            self.0.len() as nat,
            |i: int|
                if 0 <= i < self.0.len() {
                    self.0[i].model()
                } else {
                    StatementModel::ForList(Seq::empty(), Seq::empty(), Seq::empty())
                },
        )
    }
}

impl Statement {
    /// The model of this statement, by recursion on its shape.
    pub open spec fn model(&self) -> StatementModel
        decreases self,
    {
        match self {
            Statement::For(first, condition, step, body) => StatementModel::For(
                first@,
                condition@,
                step@,
                body.model(),
            ),
            Statement::ForList(element, source, body) => StatementModel::ForList(
                element@,
                source@,
                body.model(),
            ),
            Statement::StaticFor(variable, start, end, step, body) => StatementModel::StaticFor(
                variable@,
                *start,
                *end,
                *step,
                body.model(),
            ),
            Statement::While(condition, body) => StatementModel::While(condition@, body.model()),
            Statement::If(condition, body) => StatementModel::If(condition@, body.model()),
            Statement::Expression(expression) => StatementModel::Expression(expression@),
        }
    }
}

impl View for CodeBlock {
    type V = Seq<StatementModel>;

    open spec fn view(&self) -> Seq<StatementModel> {
        self.model()
    }
}

impl View for Statement {
    type V = StatementModel;

    open spec fn view(&self) -> StatementModel {
        self.model()
    }
}

/// The declaration of a name with a value: the name, its type annotation
/// where one is written, and the value.
#[derive(Debug)]
pub struct Assignment {
    pub name: String,
    pub var_type: Option<EFSType>,
    pub var: Value,
}

/// The mathematical model of an [`Assignment`].
pub ghost struct AssignmentModel {
    pub name: Seq<char>,
    pub var_type: Option<TypeModel>,
    pub var: ValueModel,
}

impl View for Assignment {
    type V = AssignmentModel;

    open spec fn view(&self) -> AssignmentModel {
        AssignmentModel {
            name: self.name@,
            var_type: annotation_model(self.var_type),
            var: self.var@,
        }
    }
}

/// A top-level element of a program.
#[derive(Debug)]
pub enum Declaration {
    /// A function. Its attributes are kept in the order in which they are
    /// written, each with its arguments; so are its parameters.
    FunctionDec {
        is_static: bool,
        attributes: Vec<(String, Vec<String>)>,
        name: String,
        parameters: Vec<(String, EFSType)>,
        return_type: EFSType,
        code_block: CodeBlock,
    },
    /// A constant. Its assignment always has a type annotation.
    ConstDec(Assignment),
    /// An import: the path as it is written.
    UseFile(String),
    /// A struct: its name and its fields in the order in which they are
    /// written.
    StructDef(String, Vec<(String, EFSType)>),
}

/// The mathematical model of a [`Declaration`].
pub ghost enum DeclarationModel {
    FunctionDec {
        is_static: bool,
        attributes: Seq<(Seq<char>, Seq<Seq<char>>)>,
        name: Seq<char>,
        parameters: Seq<(Seq<char>, TypeModel)>,
        return_type: TypeModel,
        code_block: Seq<StatementModel>,
    },
    ConstDec(AssignmentModel),
    UseFile(Seq<char>),
    StructDef(Seq<char>, Seq<(Seq<char>, TypeModel)>),
}

/// The models of a list of names with their types.
pub open spec fn typed_names(list: Seq<(String, EFSType)>) -> Seq<(Seq<char>, TypeModel)> {
    list.map_values(|entry: (String, EFSType)| (entry.0@, entry.1@))
}

/// The models of a list of texts.
pub open spec fn texts(list: Seq<String>) -> Seq<Seq<char>> {
    list.map_values(|text: String| text@)
}

/// The models of a list of attributes.
pub open spec fn attribute_models(list: Seq<(String, Vec<String>)>) -> Seq<
    (Seq<char>, Seq<Seq<char>>),
> {
    list.map_values(|entry: (String, Vec<String>)| (entry.0@, texts(entry.1@)))
}

impl View for Declaration {
    type V = DeclarationModel;

    open spec fn view(&self) -> DeclarationModel {
        match self {
            Declaration::FunctionDec {
                is_static,
                attributes,
                name,
                parameters,
                return_type,
                code_block,
            } => DeclarationModel::FunctionDec {
                is_static: *is_static,
                attributes: attribute_models(attributes@),
                name: name@,
                parameters: typed_names(parameters@),
                return_type: return_type@,
                code_block: code_block@,
            },
            Declaration::ConstDec(assignment) => DeclarationModel::ConstDec(assignment@),
            Declaration::UseFile(path) => DeclarationModel::UseFile(path@),
            Declaration::StructDef(name, fields) => DeclarationModel::StructDef(
                name@,
                typed_names(fields@),
            ),
        }
    }
}

/// A program: its declarations in the order in which they are written.
#[derive(Debug)]
pub struct Program(pub Vec<Declaration>);

impl View for Program {
    type V = Seq<DeclarationModel>;

    open spec fn view(&self) -> Seq<DeclarationModel> {
        self.0@.map_values(|declaration: Declaration| declaration@)
    }
}

/// The model of a type annotation that is handed on by reference.
pub open spec fn annotation_of(annotation: Option<&EFSType>) -> Option<TypeModel> {
    match annotation {
        Some(ty) => Some(ty@),
        None => None,
    }
}

/// The literal that the integer `value` is under `annotation`; nothing where
/// it does not fit the width that the annotation gives it.
pub fn typed_integer(annotation: Option<&EFSType>, value: i64) -> (literal: Option<EFSValueType>)
    ensures
        match literal {
            Some(literal) => integer_literal(annotation_of(annotation), value) == Some(literal@),
            None => integer_literal(annotation_of(annotation), value) is None,
        },
{
    match annotation {
        Some(EFSType::Byte) => if -128 <= value && value <= 127 {
            Some(EFSValueType::Byte(value as i8))
        } else {
            None
        },
        Some(EFSType::Short) => if -32768 <= value && value <= 32767 {
            Some(EFSValueType::Short(value as i16))
        } else {
            None
        },
        Some(EFSType::Int) => if -2147483648 <= value && value <= 2147483647 {
            Some(EFSValueType::Int(value as i32))
        } else {
            None
        },
        Some(EFSType::Long) => Some(EFSValueType::Long(value)),
        Some(EFSType::Number) => if -2147483648 <= value && value <= 2147483647 {
            Some(EFSValueType::Number(value as i32))
        } else {
            None
        },
        _ => if -2147483648 <= value && value <= 2147483647 {
            Some(EFSValueType::Number(value as i32))
        } else {
            Some(EFSValueType::Long(value))
        },
    }
}

/// The literal that a number with a fraction, written as `literal`, is under
/// `annotation`.
pub fn typed_float(annotation: Option<&EFSType>, literal: String) -> (typed: EFSValueType)
    ensures
        typed@ == float_literal(annotation_of(annotation), literal@),
{
    match annotation {
        Some(EFSType::Float) => EFSValueType::Float(literal),
        _ => EFSValueType::Double(literal),
    }
}

/// The kinds of token that a value can start with.
pub fn value_start_kinds() -> (kinds: Vec<TokenType>)
    ensures
        kinds@ == value_starts(),
{
    let kinds = vec![
        TokenType::Integer,
        TokenType::Float,
        TokenType::String,
        TokenType::Keyword(Keyword::True),
        TokenType::Keyword(Keyword::False),
        TokenType::Keyword(Keyword::Nil),
        TokenType::Identifier,
        TokenType::ControlCharacter(ControlCharacter::LeftParen),
    ];
    assert(kinds@ =~= value_starts());
    kinds
}

impl Value {
    /// Reads the value that starts at index `at` of `tokens`, and returns it
    /// with the index after it. Its literals are typed by `annotation`.
    pub fn parse_typed(at: usize, tokens: &[TokenHolder], annotation: Option<&EFSType>) -> (outcome:
        Result<(Value, usize), ParseError>)
        ensures
            parsed(outcome) == spec_value(models(tokens@), at as int, annotation_of(annotation)),
            outcome matches Ok((_, next)) ==> at < next <= tokens.len(),
    {
        Self::parse_binary(at, tokens, annotation, 1)
    }

    /// Reads an operand: a literal, a name, or a value in parentheses.
    fn parse_operand(at: usize, tokens: &[TokenHolder], annotation: Option<&EFSType>) -> (outcome:
        Result<(Value, usize), ParseError>)
        ensures
            parsed(outcome) == spec_operand(models(tokens@), at as int, annotation_of(annotation)),
            outcome matches Ok((_, next)) ==> at < next <= tokens.len(),
        decreases tokens.len() - at, 0int,
    {
        proof {
            lemma_operand_advances(models(tokens@), at as int, annotation_of(annotation));
        }
        match look(tokens, at) {
            Some(Token::Integer(value)) => match typed_integer(annotation, *value) {
                Some(literal) => Ok((Value::Value(literal), at + 1)),
                None => {
                    let mut expected: Vec<TokenType> = Vec::new();
                    expected.push(TokenType::Integer);
                    assert(expected@ =~= seq![TokenType::Integer]);
                    Err(fail(tokens, at, expected, Rule::LiteralRange))
                },
            },
            Some(Token::Float(literal)) => Ok(
                (Value::Value(typed_float(annotation, literal.clone())), at + 1),
            ),
            Some(Token::String(text)) => Ok(
                (Value::Value(EFSValueType::String(text.clone())), at + 1),
            ),
            Some(Token::Keyword(Keyword::True)) => Ok(
                (Value::Value(EFSValueType::Bool(true)), at + 1),
            ),
            Some(Token::Keyword(Keyword::False)) => Ok(
                (Value::Value(EFSValueType::Bool(false)), at + 1),
            ),
            Some(Token::Keyword(Keyword::Nil)) => Ok((Value::Value(EFSValueType::Nil), at + 1)),
            Some(Token::Identifier(name)) => Ok((Value::Identifier(name.clone()), at + 1)),
            Some(Token::ControlCharacter(ControlCharacter::LeftParen)) => {
                let (inner, next) = Self::parse_binary(at + 1, tokens, annotation, 1)?;
                let after = expect(
                    tokens,
                    next,
                    TokenType::ControlCharacter(ControlCharacter::RightParen),
                )?;
                Ok((inner, after))
            },
            _ => Err(fail(tokens, at, value_start_kinds(), Rule::Grammar)),
        }
    }

    /// Reads an operand and the operations that follow it, as far as their
    /// operators bind at least as tightly as `least`.
    fn parse_binary(
        at: usize,
        tokens: &[TokenHolder],
        annotation: Option<&EFSType>,
        least: u8,
    ) -> (outcome: Result<(Value, usize), ParseError>)
        requires
            least <= 6,
        ensures
            parsed(outcome) == spec_binary(
                models(tokens@),
                at as int,
                annotation_of(annotation),
                least as int,
            ),
            outcome matches Ok((_, next)) ==> at < next <= tokens.len(),
        decreases tokens.len() - at, 1int,
    {
        let (left, next) = Self::parse_operand(at, tokens, annotation)?;
        Self::parse_climb(next, tokens, annotation, least, left)
    }

    /// Continues the value `left`, which ends before index `at`, with the
    /// operations that follow it, as far as their operators bind at least as
    /// tightly as `least`.
    fn parse_climb(
        at: usize,
        tokens: &[TokenHolder],
        annotation: Option<&EFSType>,
        least: u8,
        left: Value,
    ) -> (outcome: Result<(Value, usize), ParseError>)
        requires
            least <= 6,
            at <= tokens.len(),
        ensures
            parsed(outcome) == spec_climb(
                models(tokens@),
                at as int,
                annotation_of(annotation),
                least as int,
                left@,
            ),
            outcome matches Ok((_, next)) ==> at <= next <= tokens.len(),
        decreases tokens.len() - at, 2int,
    {
        match look(tokens, at) {
            Some(Token::Operator(operator)) => {
                let operator = *operator;
                let rank = operator.binding();
                if rank >= least {
                    let (right, next) = Self::parse_binary(at + 1, tokens, annotation, rank + 1)?;
                    let joined = Value::Math(Box::new(Math { left, op: operator, right }));
                    Self::parse_climb(next, tokens, annotation, least, joined)
                } else {
                    Ok((left, at))
                }
            },
            _ => Ok((left, at)),
        }
    }
}

/// What stands before the block of a statement that owns one.
#[derive(Debug)]
pub enum Head {
    For(Expression, Value, Expression),
    ForList(String, String),
    StaticFor(String, i32, i32, i32),
    While(Value),
    If(Value),
}

impl View for Head {
    type V = HeadModel;

    open spec fn view(&self) -> HeadModel {
        match self {
            Head::For(first, condition, step) => HeadModel::For(first@, condition@, step@),
            Head::ForList(element, source) => HeadModel::ForList(element@, source@),
            Head::StaticFor(variable, start, end, step) => HeadModel::StaticFor(
                variable@,
                *start,
                *end,
                *step,
            ),
            Head::While(condition) => HeadModel::While(condition@),
            Head::If(condition) => HeadModel::If(condition@),
        }
    }
}

impl Head {
    /// The statement with this head and the block `body`.
    pub fn with_block(self, body: CodeBlock) -> (statement: Statement)
        ensures
            statement@ == with_body(self@, body@),
    {
        match self {
            Head::For(first, condition, step) => Statement::For(first, condition, step, body),
            Head::ForList(element, source) => Statement::ForList(element, source, body),
            Head::StaticFor(variable, start, end, step) => Statement::StaticFor(
                variable,
                start,
                end,
                step,
                body,
            ),
            Head::While(condition) => Statement::While(condition, body),
            Head::If(condition) => Statement::If(condition, body),
        }
    }
}

/// The models of a list of statements.
pub open spec fn statement_models(list: Seq<Statement>) -> Seq<StatementModel> {
    Seq::new(list.len(), |i: int| list[i]@)
}

/// The kinds of token that a statement can start with.
pub fn statement_start_kinds() -> (kinds: Vec<TokenType>)
    ensures
        kinds@ == statement_starts(),
{
    let kinds = vec![
        TokenType::Keyword(Keyword::For),
        TokenType::Keyword(Keyword::Static),
        TokenType::Keyword(Keyword::While),
        TokenType::Keyword(Keyword::If),
        TokenType::Keyword(Keyword::VarDeceleration),
        TokenType::Identifier,
    ];
    assert(kinds@ =~= statement_starts());
    kinds
}

/// The kinds of token that can stand where a block goes on or ends.
pub fn block_continue_kinds() -> (kinds: Vec<TokenType>)
    ensures
        kinds@ == block_continues(),
{
    let kinds = vec![
        TokenType::ControlCharacter(ControlCharacter::RBrace),
        TokenType::Keyword(Keyword::For),
        TokenType::Keyword(Keyword::Static),
        TokenType::Keyword(Keyword::While),
        TokenType::Keyword(Keyword::If),
        TokenType::Keyword(Keyword::VarDeceleration),
        TokenType::Identifier,
    ];
    assert(kinds@ =~= block_continues());
    kinds
}

/// The outcome of reading a bound, as a mathematical value.
pub open spec fn bounded(outcome: Result<(i32, usize), ParseError>) -> Result<
    (i32, int),
    ParseErrorModel,
> {
    match outcome {
        Ok((bound, next)) => Ok((bound, next as int)),
        Err(error) => Err(error@),
    }
}

/// Reads at index `at` a bound of a loop that is unrolled.
pub fn bound_at(tokens: &[TokenHolder], at: usize) -> (outcome: Result<(i32, usize), ParseError>)
    ensures
        bounded(outcome) == spec_bound(models(tokens@), at as int),
        outcome matches Ok((_, next)) ==> at < tokens.len() && next == at + 1,
{
    let mut expected: Vec<TokenType> = Vec::new();
    expected.push(TokenType::Integer);
    assert(expected@ =~= seq![TokenType::Integer]);
    match look(tokens, at) {
        Some(Token::Integer(value)) => if -2147483648 <= *value && *value <= 2147483647 {
            Ok((*value as i32, at + 1))
        } else {
            Err(fail(tokens, at, expected, Rule::LiteralRange))
        },
        _ => Err(fail(tokens, at, expected, Rule::Grammar)),
    }
}

impl Assignment {
    /// Reads at index `at` a name, its type annotation where one is written,
    /// the sign `=` and a value. Where `typed` is set, a missing annotation
    /// is an error.
    pub fn parse_binding(at: usize, tokens: &[TokenHolder], typed: bool) -> (outcome: Result<
        (Assignment, usize),
        ParseError,
    >)
        ensures
            parsed(outcome) == spec_binding(models(tokens@), at as int, typed),
            outcome matches Ok((_, next)) ==> at < next <= tokens.len(),
            outcome matches Ok((binding, _)) ==> typed ==> binding.var_type is Some,
    {
        proof {
            lemma_binding_advances(models(tokens@), at as int, typed);
        }
        let (name, after_name) = name_at(tokens, at)?;
        let found = kind_at(tokens, after_name);
        if found == TokenType::ControlCharacter(ControlCharacter::TypeClarify) {
            let (ty, after_type) = type_at(tokens, after_name + 1)?;
            let after_sign = expect(
                tokens,
                after_type,
                TokenType::ControlCharacter(ControlCharacter::Assign),
            )?;
            let (var, next) = Value::parse_typed(after_sign, tokens, Some(&ty))?;
            Ok((Assignment { name, var_type: Some(ty), var }, next))
        } else if typed {
            let mut expected: Vec<TokenType> = Vec::new();
            expected.push(TokenType::ControlCharacter(ControlCharacter::TypeClarify));
            assert(expected@ =~= seq![TokenType::ControlCharacter(ControlCharacter::TypeClarify)]);
            Err(fail(tokens, after_name, expected, Rule::ConstTypeAnnotation))
        } else if found == TokenType::ControlCharacter(ControlCharacter::Assign) {
            let (var, next) = Value::parse_typed(after_name + 1, tokens, None)?;
            Ok((Assignment { name, var_type: None, var }, next))
        } else {
            let mut expected: Vec<TokenType> = Vec::new();
            expected.push(TokenType::ControlCharacter(ControlCharacter::TypeClarify));
            expected.push(TokenType::ControlCharacter(ControlCharacter::Assign));
            assert(expected@ =~= seq![
                TokenType::ControlCharacter(ControlCharacter::TypeClarify),
                TokenType::ControlCharacter(ControlCharacter::Assign),
            ]);
            Err(fail(tokens, after_name, expected, Rule::Grammar))
        }
    }
}

impl Expression {
    /// Reads the expression that starts at index `at` of `tokens`, and
    /// returns it with the index after it.
    pub fn parse_at(at: usize, tokens: &[TokenHolder]) -> (outcome: Result<
        (Expression, usize),
        ParseError,
    >)
        ensures
            parsed(outcome) == spec_expression(models(tokens@), at as int),
            outcome matches Ok((_, next)) ==> at < next <= tokens.len(),
    {
        proof {
            lemma_expression_advances(models(tokens@), at as int);
        }
        match look(tokens, at) {
            Some(Token::Keyword(Keyword::VarDeceleration)) => {
                let (binding, next) = Assignment::parse_binding(at + 1, tokens, false)?;
                Ok((Expression::VarDec(binding.name, binding.var_type, binding.var), next))
            },
            Some(Token::Identifier(name)) => {
                let after_sign = expect(
                    tokens,
                    at + 1,
                    TokenType::ControlCharacter(ControlCharacter::Assign),
                )?;
                let (value, next) = Value::parse_typed(after_sign, tokens, None)?;
                Ok((Expression::Assign(name.clone(), value), next))
            },
            _ => {
                let mut expected: Vec<TokenType> = Vec::new();
                expected.push(TokenType::Keyword(Keyword::VarDeceleration));
                expected.push(TokenType::Identifier);
                assert(expected@ =~= seq![
                    TokenType::Keyword(Keyword::VarDeceleration),
                    TokenType::Identifier,
                ]);
                Err(fail(tokens, at, expected, Rule::Grammar))
            },
        }
    }
}

impl Statement {
    /// Reads the head of the loop with three clauses whose `for` stands at
    /// index `at`.
    fn parse_for_head(at: usize, tokens: &[TokenHolder]) -> (outcome: Result<
        (Head, usize),
        ParseError,
    >)
        requires
            at + 1 < tokens.len(),
        ensures
            parsed(outcome) == spec_for_head(models(tokens@), at as int),
            outcome matches Ok((_, next)) ==> at < next <= tokens.len(),
    {
        proof {
            lemma_for_head_advances(models(tokens@), at as int);
        }
        let (first, at1) = Expression::parse_at(at + 2, tokens)?;
        let at2 = expect(tokens, at1, TokenType::ControlCharacter(ControlCharacter::EndOfLine))?;
        let (condition, at3) = Value::parse_typed(at2, tokens, None)?;
        let at4 = expect(tokens, at3, TokenType::ControlCharacter(ControlCharacter::EndOfLine))?;
        let (step, at5) = Expression::parse_at(at4, tokens)?;
        let next = expect(tokens, at5, TokenType::ControlCharacter(ControlCharacter::RightParen))?;
        Ok((Head::For(first, condition, step), next))
    }

    /// Reads the head of the loop that is unrolled, whose `static` stands at
    /// index `at`.
    fn parse_static_head(at: usize, tokens: &[TokenHolder]) -> (outcome: Result<
        (Head, usize),
        ParseError,
    >)
        requires
            at < tokens.len(),
        ensures
            parsed(outcome) == spec_static_head(models(tokens@), at as int),
            outcome matches Ok((_, next)) ==> at < next <= tokens.len(),
    {
        let at1 = expect(tokens, at + 1, TokenType::Keyword(Keyword::For))?;
        let (variable, at2) = name_at(tokens, at1)?;
        let at3 = expect(tokens, at2, TokenType::Keyword(Keyword::In))?;
        let (start, at4) = bound_at(tokens, at3)?;
        let at5 = expect(tokens, at4, TokenType::ControlCharacter(ControlCharacter::Comma))?;
        let (end, at6) = bound_at(tokens, at5)?;
        let at7 = expect(tokens, at6, TokenType::ControlCharacter(ControlCharacter::Comma))?;
        let (step, next) = bound_at(tokens, at7)?;
        Ok((Head::StaticFor(variable, start, end, step), next))
    }

    /// Reads at index `at` the head of a statement that owns a block.
    pub fn parse_head(at: usize, tokens: &[TokenHolder]) -> (outcome: Result<
        (Head, usize),
        ParseError,
    >)
        ensures
            parsed(outcome) == spec_head(models(tokens@), at as int),
            outcome matches Ok((_, next)) ==> at < next <= tokens.len(),
    {
        proof {
            lemma_head_advances(models(tokens@), at as int);
        }
        match look(tokens, at) {
            Some(Token::Keyword(Keyword::For)) => match look(tokens, at + 1) {
                Some(Token::ControlCharacter(ControlCharacter::LeftParen)) => Self::parse_for_head(
                    at,
                    tokens,
                ),
                Some(Token::Identifier(element)) => {
                    let at1 = expect(tokens, at + 2, TokenType::Keyword(Keyword::In))?;
                    let (source, next) = name_at(tokens, at1)?;
                    Ok((Head::ForList(element.clone(), source), next))
                },
                _ => {
                    let mut expected: Vec<TokenType> = Vec::new();
                    expected.push(TokenType::ControlCharacter(ControlCharacter::LeftParen));
                    expected.push(TokenType::Identifier);
                    assert(expected@ =~= seq![
                        TokenType::ControlCharacter(ControlCharacter::LeftParen),
                        TokenType::Identifier,
                    ]);
                    Err(fail(tokens, at + 1, expected, Rule::Grammar))
                },
            },
            Some(Token::Keyword(Keyword::Static)) => Self::parse_static_head(at, tokens),
            Some(Token::Keyword(Keyword::While)) => {
                let (condition, next) = Value::parse_typed(at + 1, tokens, None)?;
                Ok((Head::While(condition), next))
            },
            Some(Token::Keyword(Keyword::If)) => {
                let (condition, next) = Value::parse_typed(at + 1, tokens, None)?;
                Ok((Head::If(condition), next))
            },
            _ => Err(fail(tokens, at, statement_start_kinds(), Rule::Grammar)),
        }
    }

    /// Reads the statement that starts at index `at` of `tokens`, and
    /// returns it with the index after it.
    pub fn parse_at(at: usize, tokens: &[TokenHolder]) -> (outcome: Result<
        (Statement, usize),
        ParseError,
    >)
        ensures
            parsed(outcome) == spec_statement(models(tokens@), at as int),
            outcome matches Ok((_, next)) ==> at < next <= tokens.len(),
        decreases tokens.len() - at, 0int,
    {
        proof {
            lemma_statement_advances(models(tokens@), at as int);
        }
        let expression = match look(tokens, at) {
            Some(Token::Keyword(Keyword::VarDeceleration)) => true,
            Some(Token::Identifier(_)) => true,
            _ => false,
        };
        if expression {
            let (expression, at1) = Expression::parse_at(at, tokens)?;
            let next = expect(tokens, at1, TokenType::ControlCharacter(ControlCharacter::EndOfLine))?;
            Ok((Statement::Expression(expression), next))
        } else {
            let (head, at1) = Self::parse_head(at, tokens)?;
            let (body, next) = CodeBlock::parse_at(at1, tokens)?;
            Ok((head.with_block(body), next))
        }
    }
}

impl CodeBlock {
    /// Reads the block that starts at index `at` of `tokens`, and returns it
    /// with the index after its closing brace.
    pub fn parse_at(at: usize, tokens: &[TokenHolder]) -> (outcome: Result<
        (CodeBlock, usize),
        ParseError,
    >)
        ensures
            parsed(outcome) == spec_block(models(tokens@), at as int),
            outcome matches Ok((_, next)) ==> at + 1 < next <= tokens.len(),
        decreases tokens.len() - at, 2int,
    {
        proof {
            lemma_block_advances(models(tokens@), at as int);
        }
        let inside = expect(tokens, at, TokenType::ControlCharacter(ControlCharacter::LBrace))?;
        let starts = statement_start_kinds();
        let mut done: Vec<Statement> = Vec::new();
        let mut cursor: usize = inside;
        assert(statement_models(done@) =~= Seq::<StatementModel>::empty());
        loop
            invariant
                at < cursor <= tokens.len(),
                starts@ == statement_starts(),
                spec_block(models(tokens@), at as int) == spec_statements(
                    models(tokens@),
                    cursor as int,
                    statement_models(done@),
                ),
            decreases tokens.len() - cursor,
        {
            let found = kind_at(tokens, cursor);
            if found == TokenType::ControlCharacter(ControlCharacter::RBrace) {
                let block = CodeBlock(done);
                assert(block@ =~= statement_models(done@));
                return Ok((block, cursor + 1));
            }
            if !contains_kind(starts.as_slice(), found) {
                return Err(fail(tokens, cursor, block_continue_kinds(), Rule::Grammar));
            }
            let ghost before = statement_models(done@);
            let (statement, next) = Statement::parse_at(cursor, tokens)?;
            let ghost model = statement@;
            done.push(statement);
            assert(statement_models(done@) =~= before.push(model));
            cursor = next;
        }
    }
}

/// The outcome of reading a list of names with their types, as a
/// mathematical value.
pub open spec fn parsed_names(outcome: Result<(Vec<(String, EFSType)>, usize), ParseError>) -> Result<
    (Seq<(Seq<char>, TypeModel)>, int),
    ParseErrorModel,
> {
    match outcome {
        Ok((list, next)) => Ok((typed_names(list@), next as int)),
        Err(error) => Err(error@),
    }
}

/// The outcome of reading a list of texts, as a mathematical value.
pub open spec fn parsed_texts(outcome: Result<(Vec<String>, usize), ParseError>) -> Result<
    (Seq<Seq<char>>, int),
    ParseErrorModel,
> {
    match outcome {
        Ok((list, next)) => Ok((texts(list@), next as int)),
        Err(error) => Err(error@),
    }
}

/// The outcome of reading a list of attributes, as a mathematical value.
pub open spec fn parsed_attributes(
    outcome: Result<(Vec<(String, Vec<String>)>, usize), ParseError>,
) -> Result<(Seq<(Seq<char>, Seq<Seq<char>>)>, int), ParseErrorModel> {
    match outcome {
        Ok((list, next)) => Ok((attribute_models(list@), next as int)),
        Err(error) => Err(error@),
    }
}

/// The models of a list of declarations.
pub open spec fn declaration_models(list: Seq<Declaration>) -> Seq<DeclarationModel> {
    list.map_values(|declaration: Declaration| declaration@)
}

/// Whether an entry of `list` has the name `name`.
pub fn holds_name<T>(list: &Vec<(String, T)>, name: &String) -> (yes: bool)
    ensures
        yes == exists|i: int| 0 <= i < list@.len() && (#[trigger] list@[i]).0@ == name@,
{
    let mut at: usize = 0;
    while at < list.len()
        invariant
            at <= list.len(),
            forall|i: int| 0 <= i < at ==> (#[trigger] list@[i]).0@ != name@,
        decreases list.len() - at,
    {
        if list[at].0 == *name {
            return true;
        }
        at += 1;
    }
    false
}

/// The error that reports the name at index `at` as one that is taken
/// already.
pub fn taken_at(tokens: &[TokenHolder], at: usize) -> (error: ParseError)
    ensures
        error@ == taken(token_at(models(tokens@), at as int)),
{
    let mut expected: Vec<TokenType> = Vec::new();
    expected.push(TokenType::Identifier);
    assert(expected@ =~= seq![TokenType::Identifier]);
    fail(tokens, at, expected, Rule::DuplicateName)
}

/// The reserved words that a declaration is recognized by.
pub fn declaration_start_kinds() -> (kinds: Vec<TokenType>)
    ensures
        kinds@ == declaration_starts(),
{
    let kinds = vec![
        TokenType::Keyword(Keyword::Const),
        TokenType::Keyword(Keyword::UseFile),
        TokenType::Keyword(Keyword::Function),
        TokenType::Keyword(Keyword::Struct),
    ];
    assert(kinds@ =~= declaration_starts());
    kinds
}

impl Declaration {
    /// Reads the import whose `use` stands at index `at`.
    fn parse_import(at: usize, tokens: &[TokenHolder]) -> (outcome: Result<
        (Declaration, usize),
        ParseError,
    >)
        requires
            at < tokens.len(),
        ensures
            parsed(outcome) == spec_import(models(tokens@), at as int),
            outcome matches Ok((_, next)) ==> at < next <= tokens.len(),
    {
        let path = match look(tokens, at + 1) {
            Some(Token::String(path)) => path.clone(),
            Some(Token::FilePath(path)) => path.clone(),
            _ => {
                let mut expected: Vec<TokenType> = Vec::new();
                expected.push(TokenType::String);
                expected.push(TokenType::FilePath);
                assert(expected@ =~= seq![TokenType::String, TokenType::FilePath]);
                return Err(fail(tokens, at + 1, expected, Rule::Grammar));
            },
        };
        let next = expect(tokens, at + 2, TokenType::ControlCharacter(ControlCharacter::EndOfLine))?;
        Ok((Declaration::UseFile(path), next))
    }

    /// Reads the constant whose `const` stands at index `at`.
    fn parse_const(at: usize, tokens: &[TokenHolder]) -> (outcome: Result<
        (Declaration, usize),
        ParseError,
    >)
        requires
            at < tokens.len(),
        ensures
            parsed(outcome) == spec_const(models(tokens@), at as int),
            outcome matches Ok((_, next)) ==> at < next <= tokens.len(),
            outcome matches Ok((Declaration::ConstDec(binding), _)) ==> binding.var_type is Some,
    {
        let (binding, at1) = Assignment::parse_binding(at + 1, tokens, true)?;
        let next = expect(tokens, at1, TokenType::ControlCharacter(ControlCharacter::EndOfLine))?;
        Ok((Declaration::ConstDec(binding), next))
    }

    /// Reads the fields of a struct from index `at` up to and with its
    /// closing brace.
    fn parse_fields(at: usize, tokens: &[TokenHolder]) -> (outcome: Result<
        (Vec<(String, EFSType)>, usize),
        ParseError,
    >)
        requires
            at <= tokens.len(),
        ensures
            parsed_names(outcome) == spec_fields(models(tokens@), at as int, Seq::empty()),
            outcome matches Ok((_, next)) ==> at < next <= tokens.len(),
    {
        let mut done: Vec<(String, EFSType)> = Vec::new();
        let mut cursor: usize = at;
        assert(typed_names(done@) =~= Seq::<(Seq<char>, TypeModel)>::empty());
        loop
            invariant
                at <= cursor <= tokens.len(),
                spec_fields(models(tokens@), at as int, Seq::empty()) == spec_fields(
                    models(tokens@),
                    cursor as int,
                    typed_names(done@),
                ),
            decreases tokens.len() - cursor,
        {
            match look(tokens, cursor) {
                Some(Token::ControlCharacter(ControlCharacter::RBrace)) => {
                    return Ok((done, cursor + 1));
                },
                Some(Token::Identifier(name)) => {
                    let repeated = holds_name(&done, name);
                    proof {
                        let listed = typed_names(done@);
                        if repeated {
                            let i = choose|i: int|
                                0 <= i < done@.len() && (#[trigger] done@[i]).0@ == name@;
                            assert(listed[i].0 == name@);
                        } else {
                            assert forall|i: int| 0 <= i < listed.len() implies (
                            #[trigger] listed[i]).0 != name@ by {
                                assert(done@[i].0@ != name@);
                            }
                        }
                        assert(repeated == has_name(listed, name@));
                    }
                    if repeated {
                        return Err(taken_at(tokens, cursor));
                    }
                    let at1 = expect(
                        tokens,
                        cursor + 1,
                        TokenType::ControlCharacter(ControlCharacter::TypeClarify),
                    )?;
                    let (ty, at2) = type_at(tokens, at1)?;
                    let at3 = if kind_at(tokens, at2) == TokenType::ControlCharacter(
                        ControlCharacter::Comma,
                    ) {
                        at2 + 1
                    } else {
                        at2
                    };
                    let ghost before = typed_names(done@);
                    let ghost entry = (name@, ty@);
                    done.push((name.clone(), ty));
                    assert(typed_names(done@) =~= before.push(entry));
                    cursor = at3;
                },
                _ => {
                    let mut expected: Vec<TokenType> = Vec::new();
                    expected.push(TokenType::ControlCharacter(ControlCharacter::RBrace));
                    expected.push(TokenType::Identifier);
                    assert(expected@ =~= seq![
                        TokenType::ControlCharacter(ControlCharacter::RBrace),
                        TokenType::Identifier,
                    ]);
                    return Err(fail(tokens, cursor, expected, Rule::Grammar));
                },
            }
        }
    }

    /// Reads the struct whose `struct` stands at index `at`.
    fn parse_struct(at: usize, tokens: &[TokenHolder]) -> (outcome: Result<
        (Declaration, usize),
        ParseError,
    >)
        requires
            at < tokens.len(),
        ensures
            parsed(outcome) == spec_struct(models(tokens@), at as int),
            outcome matches Ok((_, next)) ==> at < next <= tokens.len(),
    {
        let (name, at1) = name_at(tokens, at + 1)?;
        let at2 = expect(tokens, at1, TokenType::ControlCharacter(ControlCharacter::LBrace))?;
        let (fields, next) = Self::parse_fields(at2, tokens)?;
        Ok((Declaration::StructDef(name, fields), next))
    }

    /// Reads the parameters of a function from index `at` up to and with the
    /// closing parenthesis.
    fn parse_parameters(at: usize, tokens: &[TokenHolder]) -> (outcome: Result<
        (Vec<(String, EFSType)>, usize),
        ParseError,
    >)
        requires
            at <= tokens.len(),
        ensures
            parsed_names(outcome) == spec_parameters(models(tokens@), at as int, Seq::empty()),
            outcome matches Ok((_, next)) ==> at < next <= tokens.len(),
    {
        let mut done: Vec<(String, EFSType)> = Vec::new();
        let mut cursor: usize = at;
        assert(typed_names(done@) =~= Seq::<(Seq<char>, TypeModel)>::empty());
        loop
            invariant
                at <= cursor <= tokens.len(),
                spec_parameters(models(tokens@), at as int, Seq::empty()) == spec_parameters(
                    models(tokens@),
                    cursor as int,
                    typed_names(done@),
                ),
            decreases tokens.len() - cursor,
        {
            match look(tokens, cursor) {
                Some(Token::Identifier(name)) => {
                    let at1 = expect(
                        tokens,
                        cursor + 1,
                        TokenType::ControlCharacter(ControlCharacter::TypeClarify),
                    )?;
                    let (ty, at2) = type_at(tokens, at1)?;
                    let ghost before = typed_names(done@);
                    let ghost entry = (name@, ty@);
                    done.push((name.clone(), ty));
                    assert(typed_names(done@) =~= before.push(entry));
                    let found = kind_at(tokens, at2);
                    if found == TokenType::ControlCharacter(ControlCharacter::Comma) {
                        cursor = at2 + 1;
                    } else if found == TokenType::ControlCharacter(ControlCharacter::RightParen) {
                        return Ok((done, at2 + 1));
                    } else {
                        let mut expected: Vec<TokenType> = Vec::new();
                        expected.push(TokenType::ControlCharacter(ControlCharacter::Comma));
                        expected.push(TokenType::ControlCharacter(ControlCharacter::RightParen));
                        assert(expected@ =~= seq![
                            TokenType::ControlCharacter(ControlCharacter::Comma),
                            TokenType::ControlCharacter(ControlCharacter::RightParen),
                        ]);
                        return Err(fail(tokens, at2, expected, Rule::Grammar));
                    }
                },
                found => {
                    let closes = match found {
                        Some(Token::ControlCharacter(ControlCharacter::RightParen)) => true,
                        _ => false,
                    };
                    if done.len() == 0 {
                        if closes {
                            return Ok((done, cursor + 1));
                        }
                        let mut expected: Vec<TokenType> = Vec::new();
                        expected.push(TokenType::ControlCharacter(ControlCharacter::RightParen));
                        expected.push(TokenType::Identifier);
                        assert(expected@ =~= seq![
                            TokenType::ControlCharacter(ControlCharacter::RightParen),
                            TokenType::Identifier,
                        ]);
                        return Err(fail(tokens, cursor, expected, Rule::Grammar));
                    }
                    let mut expected: Vec<TokenType> = Vec::new();
                    expected.push(TokenType::Identifier);
                    assert(expected@ =~= seq![TokenType::Identifier]);
                    return Err(fail(tokens, cursor, expected, Rule::Grammar));
                },
            }
        }
    }

    /// Reads the arguments of an attribute from index `at` up to and with
    /// the closing parenthesis.
    fn parse_arguments(at: usize, tokens: &[TokenHolder]) -> (outcome: Result<
        (Vec<String>, usize),
        ParseError,
    >)
        requires
            at <= tokens.len(),
        ensures
            parsed_texts(outcome) == spec_arguments(models(tokens@), at as int, Seq::empty()),
            outcome matches Ok((_, next)) ==> at < next <= tokens.len(),
    {
        let mut done: Vec<String> = Vec::new();
        let mut cursor: usize = at;
        assert(texts(done@) =~= Seq::<Seq<char>>::empty());
        loop
            invariant
                at <= cursor <= tokens.len(),
                spec_arguments(models(tokens@), at as int, Seq::empty()) == spec_arguments(
                    models(tokens@),
                    cursor as int,
                    texts(done@),
                ),
            decreases tokens.len() - cursor,
        {
            let found = look(tokens, cursor);
            let item = match found {
                Some(Token::Identifier(text)) => Some(text.clone()),
                Some(Token::String(text)) => Some(text.clone()),
                _ => None,
            };
            match item {
                Some(text) => {
                    let ghost before = texts(done@);
                    let ghost entry = text@;
                    done.push(text);
                    assert(texts(done@) =~= before.push(entry));
                    let after = kind_at(tokens, cursor + 1);
                    if after == TokenType::ControlCharacter(ControlCharacter::Comma) {
                        cursor = cursor + 2;
                    } else if after == TokenType::ControlCharacter(ControlCharacter::RightParen) {
                        return Ok((done, cursor + 2));
                    } else {
                        let mut expected: Vec<TokenType> = Vec::new();
                        expected.push(TokenType::ControlCharacter(ControlCharacter::Comma));
                        expected.push(TokenType::ControlCharacter(ControlCharacter::RightParen));
                        assert(expected@ =~= seq![
                            TokenType::ControlCharacter(ControlCharacter::Comma),
                            TokenType::ControlCharacter(ControlCharacter::RightParen),
                        ]);
                        return Err(fail(tokens, cursor + 1, expected, Rule::Grammar));
                    }
                },
                None => {
                    let closes = match found {
                        Some(Token::ControlCharacter(ControlCharacter::RightParen)) => true,
                        _ => false,
                    };
                    if done.len() == 0 {
                        if closes {
                            return Ok((done, cursor + 1));
                        }
                        let mut expected: Vec<TokenType> = Vec::new();
                        expected.push(TokenType::ControlCharacter(ControlCharacter::RightParen));
                        expected.push(TokenType::Identifier);
                        expected.push(TokenType::String);
                        assert(expected@ =~= seq![
                            TokenType::ControlCharacter(ControlCharacter::RightParen),
                            TokenType::Identifier,
                            TokenType::String,
                        ]);
                        return Err(fail(tokens, cursor, expected, Rule::Grammar));
                    }
                    let mut expected: Vec<TokenType> = Vec::new();
                    expected.push(TokenType::Identifier);
                    expected.push(TokenType::String);
                    assert(expected@ =~= seq![TokenType::Identifier, TokenType::String]);
                    return Err(fail(tokens, cursor, expected, Rule::Grammar));
                },
            }
        }
    }

    /// Reads the attributes of a function from index `at`.
    fn parse_attributes(at: usize, tokens: &[TokenHolder]) -> (outcome: Result<
        (Vec<(String, Vec<String>)>, usize),
        ParseError,
    >)
        requires
            at <= tokens.len(),
        ensures
            parsed_attributes(outcome) == spec_attributes(
                models(tokens@),
                at as int,
                Seq::empty(),
            ),
            outcome matches Ok((_, next)) ==> at <= next <= tokens.len(),
    {
        let mut done: Vec<(String, Vec<String>)> = Vec::new();
        let mut cursor: usize = at;
        assert(attribute_models(done@) =~= Seq::<(Seq<char>, Seq<Seq<char>>)>::empty());
        loop
            invariant
                at <= cursor <= tokens.len(),
                spec_attributes(models(tokens@), at as int, Seq::empty()) == spec_attributes(
                    models(tokens@),
                    cursor as int,
                    attribute_models(done@),
                ),
            decreases tokens.len() - cursor,
        {
            if kind_at(tokens, cursor) != TokenType::ControlCharacter(ControlCharacter::Attribute) {
                return Ok((done, cursor));
            }
            let (name, at1) = name_at(tokens, cursor + 1)?;
            let ghost before = attribute_models(done@);
            let repeated = holds_name(&done, &name);
            proof {
                if repeated {
                    let i = choose|i: int|
                        0 <= i < done@.len() && (#[trigger] done@[i]).0@ == name@;
                    assert(before[i].0 == name@);
                } else {
                    assert forall|i: int| 0 <= i < before.len() implies (#[trigger] before[i]).0
                        != name@ by {
                        assert(done@[i].0@ != name@);
                    }
                }
                assert(repeated == has_name(before, name@));
            }
            if repeated {
                return Err(taken_at(tokens, cursor + 1));
            }
            if kind_at(tokens, at1) == TokenType::ControlCharacter(ControlCharacter::LeftParen) {
                let (arguments, at2) = Self::parse_arguments(at1 + 1, tokens)?;
                let ghost entry = (name@, texts(arguments@));
                done.push((name, arguments));
                assert(attribute_models(done@) =~= before.push(entry));
                cursor = at2;
            } else {
                let arguments: Vec<String> = Vec::new();
                assert(texts(arguments@) =~= Seq::<Seq<char>>::empty());
                let ghost entry = (name@, texts(arguments@));
                done.push((name, arguments));
                assert(attribute_models(done@) =~= before.push(entry));
                cursor = at1;
            }
        }
    }

    /// Reads what follows the parameters of a function at index `at`: the
    /// type that the function returns.
    fn parse_return_type(at: usize, tokens: &[TokenHolder]) -> (outcome: Result<
        (EFSType, usize),
        ParseError,
    >)
        requires
            at <= tokens.len(),
        ensures
            parsed(outcome) == spec_return_type(models(tokens@), at as int),
            outcome matches Ok((_, next)) ==> at <= next <= tokens.len(),
    {
        if kind_at(tokens, at) == TokenType::ControlCharacter(ControlCharacter::FunctionReturn) {
            type_at(tokens, at + 1)
        } else {
            Ok((EFSType::Nil, at))
        }
    }

    /// Reads the function that starts at index `at`.
    fn parse_function(at: usize, tokens: &[TokenHolder]) -> (outcome: Result<
        (Declaration, usize),
        ParseError,
    >)
        requires
            at < tokens.len(),
        ensures
            parsed(outcome) == spec_function(models(tokens@), at as int),
            outcome matches Ok((_, next)) ==> at < next <= tokens.len(),
    {
        let (attributes, at0) = Self::parse_attributes(at, tokens)?;
        let is_static = kind_at(tokens, at0) == TokenType::Keyword(Keyword::Static);
        let at1 = if is_static {
            at0 + 1
        } else {
            at0
        };
        let at2 = expect(tokens, at1, TokenType::Keyword(Keyword::Function))?;
        let (name, at3) = name_at(tokens, at2)?;
        let at4 = expect(tokens, at3, TokenType::ControlCharacter(ControlCharacter::LeftParen))?;
        let (parameters, at5) = Self::parse_parameters(at4, tokens)?;
        let (return_type, at6) = Self::parse_return_type(at5, tokens)?;
        let (code_block, next) = CodeBlock::parse_at(at6, tokens)?;
        Ok(
            (
                Declaration::FunctionDec {
                    is_static,
                    attributes,
                    name,
                    parameters,
                    return_type,
                    code_block,
                },
                next,
            ),
        )
    }

    /// Reads the declaration that starts at index `at` of `tokens`, and
    /// returns it with the index after it.
    pub fn parse_at(at: usize, tokens: &[TokenHolder]) -> (outcome: Result<
        (Declaration, usize),
        ParseError,
    >)
        ensures
            parsed(outcome) == spec_declaration(models(tokens@), at as int),
            outcome matches Ok((_, next)) ==> at < next <= tokens.len(),
            outcome matches Ok((Declaration::ConstDec(binding), _)) ==> binding.var_type is Some,
    {
        match look(tokens, at) {
            Some(Token::Keyword(Keyword::Const)) => Self::parse_const(at, tokens),
            Some(Token::Keyword(Keyword::UseFile)) => Self::parse_import(at, tokens),
            Some(Token::Keyword(Keyword::Function)) => Self::parse_function(at, tokens),
            Some(Token::Keyword(Keyword::Static)) => Self::parse_function(at, tokens),
            Some(Token::ControlCharacter(ControlCharacter::Attribute)) => Self::parse_function(
                at,
                tokens,
            ),
            Some(Token::Keyword(Keyword::Struct)) => Self::parse_struct(at, tokens),
            _ => Err(fail(tokens, at, declaration_start_kinds(), Rule::Grammar)),
        }
    }
}

impl Program {
    /// Reads the declarations of a program from index `at` of `tokens` up to
    /// the end of input, and returns the program with the index at which the
    /// end of input stands.
    pub fn parse_at(at: usize, tokens: &[TokenHolder]) -> (outcome: Result<
        (Program, usize),
        ParseError,
    >)
        ensures
            parsed(outcome) == spec_program(models(tokens@), at as int, Seq::empty()),
            outcome matches Ok((_, next)) ==> at <= next,
    {
        let mut done: Vec<Declaration> = Vec::new();
        let mut cursor: usize = at;
        assert(declaration_models(done@) =~= Seq::<DeclarationModel>::empty());
        loop
            invariant
                at <= cursor,
                cursor <= tokens.len() || cursor == at,
                spec_program(models(tokens@), at as int, Seq::empty()) == spec_program(
                    models(tokens@),
                    cursor as int,
                    declaration_models(done@),
                ),
            decreases tokens.len() - cursor,
        {
            let ends = match look(tokens, cursor) {
                None => true,
                Some(Token::EOI) => true,
                _ => false,
            };
            if ends {
                return Ok((Program(done), cursor));
            }
            let (declaration, next) = Declaration::parse_at(cursor, tokens)?;
            let ghost before = declaration_models(done@);
            let ghost model = declaration@;
            done.push(declaration);
            assert(declaration_models(done@) =~= before.push(model));
            cursor = next;
        }
    }
}

impl ParserItem for Program {
    open spec fn spec_parse(start: int, tokens: Seq<Positioned>) -> Result<
        (Seq<DeclarationModel>, int),
        ParseErrorModel,
    > {
        spec_program(tokens, start, Seq::empty())
    }

    fn parse(start: usize, tokens: &[TokenHolder]) -> (outcome: Result<(Self, usize), ParseError>) {
        let (node, next) = Program::parse_at(start, tokens)?;
        Ok((node, next - start))
    }
}

impl ParserItem for Declaration {
    open spec fn spec_parse(start: int, tokens: Seq<Positioned>) -> Result<
        (DeclarationModel, int),
        ParseErrorModel,
    > {
        spec_declaration(tokens, start)
    }

    fn parse(start: usize, tokens: &[TokenHolder]) -> (outcome: Result<(Self, usize), ParseError>) {
        let (node, next) = Declaration::parse_at(start, tokens)?;
        Ok((node, next - start))
    }
}

impl ParserItem for Assignment {
    open spec fn spec_parse(start: int, tokens: Seq<Positioned>) -> Result<
        (AssignmentModel, int),
        ParseErrorModel,
    > {
        spec_binding(tokens, start, false)
    }

    fn parse(start: usize, tokens: &[TokenHolder]) -> (outcome: Result<(Self, usize), ParseError>) {
        let (node, next) = Assignment::parse_binding(start, tokens, false)?;
        Ok((node, next - start))
    }
}

impl ParserItem for CodeBlock {
    open spec fn spec_parse(start: int, tokens: Seq<Positioned>) -> Result<
        (Seq<StatementModel>, int),
        ParseErrorModel,
    > {
        spec_block(tokens, start)
    }

    fn parse(start: usize, tokens: &[TokenHolder]) -> (outcome: Result<(Self, usize), ParseError>) {
        let (node, next) = CodeBlock::parse_at(start, tokens)?;
        Ok((node, next - start))
    }
}

impl ParserItem for Statement {
    open spec fn spec_parse(start: int, tokens: Seq<Positioned>) -> Result<
        (StatementModel, int),
        ParseErrorModel,
    > {
        spec_statement(tokens, start)
    }

    fn parse(start: usize, tokens: &[TokenHolder]) -> (outcome: Result<(Self, usize), ParseError>) {
        let (node, next) = Statement::parse_at(start, tokens)?;
        Ok((node, next - start))
    }
}

impl ParserItem for Expression {
    open spec fn spec_parse(start: int, tokens: Seq<Positioned>) -> Result<
        (ExpressionModel, int),
        ParseErrorModel,
    > {
        spec_expression(tokens, start)
    }

    fn parse(start: usize, tokens: &[TokenHolder]) -> (outcome: Result<(Self, usize), ParseError>) {
        let (node, next) = Expression::parse_at(start, tokens)?;
        Ok((node, next - start))
    }
}

impl ParserItem for Value {
    open spec fn spec_parse(start: int, tokens: Seq<Positioned>) -> Result<
        (ValueModel, int),
        ParseErrorModel,
    > {
        spec_value(tokens, start, None)
    }

    fn parse(start: usize, tokens: &[TokenHolder]) -> (outcome: Result<(Self, usize), ParseError>) {
        let (node, next) = Value::parse_typed(start, tokens, None)?;
        Ok((node, next - start))
    }
}

} // verus!
